//! The audit log as text: one entry per line.
use crate::memory::texts_view;
use vstd::prelude::*;
use vstd::string::*;

verus! {

/// `String::push`: appends a character.
pub assume_specification[ String::push ](text: &mut String, c: char)
    ensures
        final(text)@ == old(text)@.push(c),
;

/// The characters with the Unicode property `White_Space`.
pub open spec fn white_space(c: char) -> bool {
    let n = c as u32;
    ||| 0x9 <= n <= 0xd
    ||| n == 0x20
    ||| n == 0x85
    ||| n == 0xa0
    ||| n == 0x1680
    ||| 0x2000 <= n <= 0x200a
    ||| n == 0x2028
    ||| n == 0x2029
    ||| n == 0x202f
    ||| n == 0x205f
    ||| n == 0x3000
}

/// Whether a character has the property `White_Space`.
fn is_white(c: char) -> (white: bool)
    ensures
        white == white_space(c),
{
    let n: u32 = c as u32;
    (0x9 <= n && n <= 0xd) || n == 0x20 || n == 0x85 || n == 0xa0 || n == 0x1680 || (0x2000 <= n
        && n <= 0x200a) || n == 0x2028 || n == 0x2029 || n == 0x202f || n == 0x205f || n == 0x3000
}

/// Every line followed by a newline.
pub open spec fn joined_text(lines: Seq<Seq<char>>) -> Seq<char>
    decreases lines.len(),
{
    if lines.len() == 0 {
        seq![]
    } else {
        joined_text(lines.drop_last()) + lines.last().push('\n')
    }
}

/// Number of characters before the first newline.
pub open spec fn line_end(text: Seq<char>) -> nat
    decreases text.len(),
{
    if text.len() == 0 || text[0] == '\n' {
        0
    } else {
        1 + line_end(text.drop_first())
    }
}

/// The line without the carriage return at its end, if there is one.
pub open spec fn stripped(line: Seq<char>) -> Seq<char> {
    if line.len() > 0 && line.last() == '\r' {
        line.drop_last()
    } else {
        line
    }
}

/// The line holds a character that is not white space.
pub open spec fn has_ink(line: Seq<char>) -> bool {
    exists|i: int| 0 <= i < line.len() && !white_space(#[trigger] line[i])
}

/// The line, unless it is blank.
pub open spec fn inked(line: Seq<char>) -> Seq<Seq<char>> {
    if has_ink(line) {
        seq![line]
    } else {
        seq![]
    }
}

/// The lines of a text that are not blank. A line ends with a newline, or with a carriage
/// return and a newline; the last one may end with the text.
pub open spec fn split_text(text: Seq<char>) -> Seq<Seq<char>>
    decreases text.len(),
{
    let n = line_end(text) as int;
    if n >= text.len() {
        inked(text)
    } else {
        inked(stripped(text.take(n))) + split_text(text.skip(n + 1))
    }
}

/// A text of lines, each followed by a newline.
pub fn join_lines(lines: &[String]) -> (text: String)
    ensures
        text@ == joined_text(texts_view(lines@)),
{
    let mut text = String::new();
    let mut n: usize = 0;
    assert(text@ =~= seq![]);
    while n < lines.len()
        invariant
            n <= lines@.len(),
            text@ == joined_text(texts_view(lines@).take(n as int)),
        decreases lines@.len() - n,
    {
        let ghost before = text@;
        text.append(lines[n].as_str());
        text.push('\n');
        proof {
            let all = texts_view(lines@);
            assert(all.take(n + 1).drop_last() =~= all.take(n as int));
            assert(text@ =~= before + lines@[n as int]@.push('\n'));
        }
        n += 1;
    }
    assert(texts_view(lines@).take(n as int) =~= texts_view(lines@));
    text
}

/// The text of the characters `chars`.
fn text_of(chars: &[char]) -> (text: String)
    ensures
        text@ == chars@,
{
    let mut text = String::new();
    let mut n: usize = 0;
    assert(text@ =~= chars@.take(0));
    while n < chars.len()
        invariant
            n <= chars@.len(),
            text@ == chars@.take(n as int),
        decreases chars@.len() - n,
    {
        text.push(chars[n]);
        n += 1;
    }
    assert(chars@.take(n as int) =~= chars@);
    text
}

/// Whether the line holds a character that is not white space.
fn holds_ink(line: &[char]) -> (ink: bool)
    ensures
        ink == has_ink(line@),
{
    let mut n: usize = 0;
    while n < line.len()
        invariant
            n <= line@.len(),
            forall|i: int| 0 <= i < n ==> white_space(#[trigger] line@[i]),
        decreases line@.len() - n,
    {
        if !is_white(line[n]) {
            assert(!white_space(line@[n as int]));
            return true;
        }
        n += 1;
    }
    false
}

/// The first line of a text that starts with characters other than a newline.
proof fn line_end_at(head: Seq<char>, rest: Seq<char>)
    requires
        forall|i: int| 0 <= i < head.len() ==> #[trigger] head[i] != '\n',
        rest.len() == 0 || rest[0] == '\n',
    ensures
        line_end(head + rest) == head.len(),
    decreases head.len(),
{
    let text = head + rest;
    if head.len() > 0 {
        assert(text[0] == head[0]);
        assert(text.drop_first() =~= head.drop_first() + rest);
        assert forall|i: int| 0 <= i < head.drop_first().len() implies #[trigger] head.drop_first()[i]
            != '\n' by {
            assert(head[i + 1] != '\n');
        }
        line_end_at(head.drop_first(), rest);
    } else {
        assert(text =~= rest);
    }
}

/// The first step of splitting a text whose first line is `head`.
proof fn split_first(head: Seq<char>, rest: Seq<char>)
    requires
        forall|i: int| 0 <= i < head.len() ==> #[trigger] head[i] != '\n',
    ensures
        split_text(head) == inked(head),
        split_text(head.push('\n') + rest) == inked(stripped(head)) + split_text(rest),
{
    line_end_at(head, seq![]);
    assert(head + seq![] =~= head);
    let tail = seq!['\n'] + rest;
    line_end_at(head, tail);
    let text = head.push('\n') + rest;
    assert(text =~= head + tail);
    assert(text.take(head.len() as int) =~= head);
    assert(text.skip(head.len() as int + 1) =~= rest);
}

/// Appends the line unless it is blank.
fn keep_line(lines: &mut Vec<String>, line: &[char])
    ensures
        texts_view(final(lines)@) == texts_view(old(lines)@) + inked(line@),
{
    let ghost before = lines@;
    if holds_ink(line) {
        lines.push(text_of(line));
        assert(texts_view(lines@) =~= texts_view(before) + inked(line@));
    } else {
        assert(texts_view(lines@) =~= texts_view(before) + inked(line@));
    }
}

/// The lines of a text that are not blank.
pub fn split_lines(text: &str) -> (lines: Vec<String>)
    ensures
        texts_view(lines@) == split_text(text@),
{
    let mut lines: Vec<String> = Vec::new();
    let mut line: Vec<char> = Vec::new();
    assert(texts_view(lines@) + split_text(line@ + text@.skip(0)) =~= split_text(text@)) by {
        assert(line@ + text@.skip(0) =~= text@);
    }
    for c in it: text.chars()
        invariant
            it.seq() == text@,
            0 <= it.index() <= text@.len(),
            forall|i: int| 0 <= i < line@.len() ==> #[trigger] line@[i] != '\n',
            texts_view(lines@) + split_text(line@ + text@.skip(it.index() as int)) == split_text(
                text@,
            ),
    {
        let ghost n = it.index() as int;
        let ghost rest = text@.skip(n + 1);
        assert(text@.skip(n) =~= seq![c] + rest);
        if c == '\n' {
            let ghost head = line@;
            let ghost done = texts_view(lines@);
            proof {
                split_first(head, rest);
                assert(head + (seq!['\n'] + rest) =~= head.push('\n') + rest);
            }
            if line.len() > 0 && line[line.len() - 1] == '\r' {
                let _ = line.pop();
            }
            assert(line@ =~= stripped(head));
            keep_line(&mut lines, line.as_slice());
            line = Vec::new();
            proof {
                assert(line@ + rest =~= rest);
                assert(done + (inked(stripped(head)) + split_text(rest)) =~= (done + inked(
                    stripped(head),
                )) + split_text(rest));
            }
        } else {
            let ghost head = line@;
            line.push(c);
            assert(head + (seq![c] + rest) =~= line@ + rest);
        }
    }
    proof {
        assert(text@.skip(text@.len() as int) =~= seq![]);
        assert(line@ + seq![] =~= line@);
        split_first(line@, seq![]);
    }
    keep_line(&mut lines, line.as_slice());
    lines
}

/// A text of lines is what the lines, each with a newline behind it, give one after the other.
pub proof fn joined_is_flattened(lines: Seq<Seq<char>>)
    ensures
        joined_text(lines) == lines.map_values(|l: Seq<char>| l.push('\n')).flatten(),
    decreases lines.len(),
{
    let ended = lines.map_values(|l: Seq<char>| l.push('\n'));
    if lines.len() == 0 {
        assert(ended.flatten() =~= Seq::empty());
    } else {
        let init = lines.drop_last();
        joined_is_flattened(init);
        assert(ended.drop_last() =~= init.map_values(|l: Seq<char>| l.push('\n')));
        ended.lemma_flatten_and_flatten_alt_are_equivalent();
        ended.drop_last().lemma_flatten_and_flatten_alt_are_equivalent();
        assert(ended.last() == lines.last().push('\n'));
    }
}

/// What splitting keeps. A text without a newline is one line; a text that starts with a line
/// and a newline has that line, without one carriage return at its end, before the lines of
/// the rest. A line is left out if every character of it is white space.
pub proof fn split_by_lines(line: Seq<char>, rest: Seq<char>)
    requires
        forall|i: int| 0 <= i < line.len() ==> #[trigger] line[i] != '\n',
    ensures
        (forall|i: int| 0 <= i < line.len() ==> white_space(#[trigger] line[i])) ==> {
            &&& split_text(line) == Seq::<Seq<char>>::empty()
            &&& split_text(line.push('\n') + rest) == split_text(rest)
        },
        (exists|i: int| 0 <= i < line.len() && !white_space(#[trigger] line[i])) ==> {
            &&& split_text(line) == seq![line]
            &&& split_text(line.push('\n') + rest) == seq![
                if line.last() == '\r' {
                    line.drop_last()
                } else {
                    line
                },
            ] + split_text(rest)
        },
{
    split_first(line, rest);
    let kept = stripped(line);
    if forall|i: int| 0 <= i < line.len() ==> white_space(#[trigger] line[i]) {
        assert(!has_ink(kept));
        assert(inked(kept) + split_text(rest) =~= split_text(rest));
    } else {
        let i = choose|i: int| 0 <= i < line.len() && !white_space(#[trigger] line[i]);
        assert(!white_space(kept[i]));
    }
}

/// The characters that count as white space.
pub proof fn white_space_characters(c: char)
    ensures
        white_space(c) <==> seq![
            0x9int, 0xa, 0xb, 0xc, 0xd, 0x20, 0x85, 0xa0, 0x1680, 0x2000, 0x2001, 0x2002, 0x2003,
            0x2004, 0x2005, 0x2006, 0x2007, 0x2008, 0x2009, 0x200a, 0x2028, 0x2029, 0x202f, 0x205f,
            0x3000,
        ].contains(c as u32 as int),
{
    let all = seq![
        0x9int, 0xa, 0xb, 0xc, 0xd, 0x20, 0x85, 0xa0, 0x1680, 0x2000, 0x2001, 0x2002, 0x2003,
        0x2004, 0x2005, 0x2006, 0x2007, 0x2008, 0x2009, 0x200a, 0x2028, 0x2029, 0x202f, 0x205f,
        0x3000,
    ];
    let n = c as u32 as int;
    if white_space(c) {
        let at: int = if n <= 0xd {
            n - 0x9
        } else if n == 0x20 {
            5
        } else if n == 0x85 {
            6
        } else if n == 0xa0 {
            7
        } else if n == 0x1680 {
            8
        } else if n <= 0x200a {
            9 + n - 0x2000
        } else if n == 0x2028 {
            20
        } else if n == 0x2029 {
            21
        } else if n == 0x202f {
            22
        } else if n == 0x205f {
            23
        } else {
            24
        };
        assert(all[at] == n);
    }
}

/// The line can stand in a text: it holds no newline, does not end in a carriage return and
/// is not blank.
pub open spec fn framable(line: Seq<char>) -> bool {
    &&& forall|i: int| 0 <= i < line.len() ==> #[trigger] line[i] != '\n'
    &&& line.len() > 0 ==> line.last() != '\r'
    &&& has_ink(line)
}

/// Splitting a text gives back the lines that were joined.
pub proof fn split_of_join(lines: Seq<Seq<char>>)
    requires
        forall|i: int| 0 <= i < lines.len() ==> framable(#[trigger] lines[i]),
    ensures
        split_text(joined_text(lines)) == lines,
{
    split_join_then(lines, seq![]);
    assert(joined_text(lines) + seq![] =~= joined_text(lines));
    assert(split_text(seq![]) =~= seq![]) by {
        split_first(seq![], seq![]);
    }
    assert(lines + split_text(seq![]) =~= lines);
}

proof fn split_join_then(lines: Seq<Seq<char>>, rest: Seq<char>)
    requires
        forall|i: int| 0 <= i < lines.len() ==> framable(#[trigger] lines[i]),
    ensures
        split_text(joined_text(lines) + rest) == lines + split_text(rest),
    decreases lines.len(),
{
    if lines.len() == 0 {
        assert(joined_text(lines) + rest =~= rest);
        assert(lines + split_text(rest) =~= split_text(rest));
    } else {
        let init = lines.drop_last();
        let last = lines.last();
        assert(framable(lines[lines.len() - 1]));
        assert forall|i: int| 0 <= i < init.len() implies framable(#[trigger] init[i]) by {
            assert(framable(lines[i]));
        }
        split_join_then(init, last.push('\n') + rest);
        assert(joined_text(lines) + rest =~= joined_text(init) + (last.push('\n') + rest));
        split_first(last, rest);
        assert(init + (seq![last] + split_text(rest)) =~= lines + split_text(rest));
    }
}

} // verus!
