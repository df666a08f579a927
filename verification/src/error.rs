//! Errors of the library and the text they carry.
use vstd::prelude::*;
use vstd::string::*;

verus! {

/// What can go wrong in a library call.
#[derive(Debug)]
pub enum BruceError {
    /// A vector or matrix has the wrong size.
    DimensionMismatch { expected: usize, got: usize },
    /// `PermissionDenied(fact_id, owner, caller)`: `caller` may not touch a row of `owner`.
    PermissionDenied(String, String, String),
    /// There is no live row under this id.
    KeyNotFound(String),
    /// An argument is outside its range.
    InvalidArgument(String),
    /// Anything else, with a message.
    Other(String),
}

/// The mathematical content of a [`BruceError`].
pub ghost enum ErrorView {
    DimensionMismatch { expected: int, got: int },
    PermissionDenied(Seq<char>, Seq<char>, Seq<char>),
    KeyNotFound(Seq<char>),
    InvalidArgument(Seq<char>),
    Other(Seq<char>),
}

impl View for BruceError {
    type V = ErrorView;

    open spec fn view(&self) -> ErrorView {
        match *self {
            BruceError::DimensionMismatch { expected, got } => ErrorView::DimensionMismatch {
                expected: expected as int,
                got: got as int,
            },
            BruceError::PermissionDenied(id, owner, caller) => ErrorView::PermissionDenied(
                id@,
                owner@,
                caller@,
            ),
            BruceError::KeyNotFound(id) => ErrorView::KeyNotFound(id@),
            BruceError::InvalidArgument(text) => ErrorView::InvalidArgument(text@),
            BruceError::Other(text) => ErrorView::Other(text@),
        }
    }
}

/// The decimal digit of `d`, for `d < 10`.
pub open spec fn digit_char(d: nat) -> char {
    ('0' as u32 + d) as char
}

/// `n` in decimal, without leading zeros.
pub open spec fn decimal(n: nat) -> Seq<char>
    decreases n,
{
    if n < 10 {
        seq![digit_char(n)]
    } else {
        decimal(n / 10).push(digit_char(n % 10))
    }
}

/// A number in decimal is made of digits, has no leading zero, and reads back as the number.
pub proof fn decimal_reads_back(n: nat)
    ensures
        decimal(n).len() > 0,
        forall|i: int| 0 <= i < decimal(n).len() ==> '0' <= #[trigger] decimal(n)[i] <= '9',
        decimal(n).len() > 1 ==> decimal(n)[0] != '0',
        decimal(n).fold_left(0int, |a: int, c: char| 10 * a + (c as u32 - '0' as u32)) == n,
    decreases n,
{
    let value = |a: int, c: char| 10 * a + (c as u32 - '0' as u32);
    if n < 10 {
        assert(decimal(n).drop_last() =~= Seq::empty());
        assert(decimal(n).drop_last().fold_left(0int, value) == 0);
    } else {
        decimal_reads_back(n / 10);
        assert(decimal(n).drop_last() =~= decimal(n / 10));
        assert forall|i: int| 0 <= i < decimal(n).len() implies '0' <= #[trigger] decimal(n)[i]
            <= '9' by {
            if i < decimal(n / 10).len() {
                assert(decimal(n)[i] == decimal(n / 10)[i]);
            }
        }
        if n / 10 >= 10 {
            decimal_reads_back(n / 10 / 10);
        }
    }
}

/// An error is seen as its variant and the contents of its fields.
pub proof fn error_fields(a: usize, b: usize, x: String, y: String, z: String)
    ensures
        (BruceError::DimensionMismatch { expected: a, got: b })@ == (
        ErrorView::DimensionMismatch { expected: a as int, got: b as int }),
        BruceError::PermissionDenied(x, y, z)@ == ErrorView::PermissionDenied(x@, y@, z@),
        BruceError::KeyNotFound(x)@ == ErrorView::KeyNotFound(x@),
        BruceError::InvalidArgument(x)@ == ErrorView::InvalidArgument(x@),
        BruceError::Other(x)@ == ErrorView::Other(x@),
{
}

/// `n` in decimal.
pub fn decimal_text(n: usize) -> (text: String)
    ensures
        text@ == decimal(n as nat),
    decreases n,
{
    let digit: &str = digit_text(n % 10);
    if n < 10 {
        digit.to_owned()
    } else {
        let mut text = decimal_text(n / 10);
        text.append(digit);
        proof {
            assert(text@ =~= decimal(n as nat));
        }
        text
    }
}

/// The one-character text of the digit `d`.
fn digit_text(d: usize) -> (text: &'static str)
    requires
        d < 10,
    ensures
        text@ == seq![digit_char(d as nat)],
{
    proof {
        reveal_strlit("0");
        reveal_strlit("1");
        reveal_strlit("2");
        reveal_strlit("3");
        reveal_strlit("4");
        reveal_strlit("5");
        reveal_strlit("6");
        reveal_strlit("7");
        reveal_strlit("8");
        reveal_strlit("9");
    }
    let text: &'static str = match d {
        0 => "0",
        1 => "1",
        2 => "2",
        3 => "3",
        4 => "4",
        5 => "5",
        6 => "6",
        7 => "7",
        8 => "8",
        _ => "9",
    };
    assert(text@ =~= seq![digit_char(d as nat)]);
    text
}

} // verus!
