//! Laws of the mask generators.
use crate::closed_form::row_records_mentioned;
use crate::mask::{causal_mask, causal_row, window_mask, window_row, Attend};
use crate::records::Record;
use vstd::prelude::*;

verus! {

/// The pairs of one row of the window mask of width `w`.
proof fn window_row_pairs(i: nat, w: nat)
    requires
        i <= usize::MAX,
    ensures
        forall|p: (usize, usize)| #[trigger]
            window_row(i, w).contains(p) <==> p.0 == i && p.1 <= i && i - p.1 <= w,
        window_row(i, w).no_duplicates(),
        window_row(i, w).len() <= w + 1,
{
    let row = window_row(i, w);
    let lo: int = if i < w {
        0
    } else {
        i - w
    };
    assert forall|p: (usize, usize)| p.0 == i && p.1 <= i && i - p.1 <= w implies #[trigger]
        row.contains(p) by {
        assert(row[p.1 - lo] == p);
    }
}

/// The window mask holds the pairs `(i, j)` with `i < n` and `0 <= i - j <= w`.
pub proof fn window_mask_pairs(n: nat, w: nat, p: (usize, usize))
    requires
        n <= usize::MAX,
    ensures
        window_mask(n, w).contains(p) <==> p.0 < n && p.1 <= p.0 && p.0 - p.1 <= w,
    decreases n,
{
    if n > 0 {
        let head = window_mask((n - 1) as nat, w);
        let row = window_row((n - 1) as nat, w);
        window_mask_pairs((n - 1) as nat, w, p);
        window_row_pairs((n - 1) as nat, w);
        contains_concat(head, row, p);
    }
}

proof fn contains_concat(a: Seq<(usize, usize)>, b: Seq<(usize, usize)>, p: (usize, usize))
    ensures
        (a + b).contains(p) <==> a.contains(p) || b.contains(p),
{
    if a.contains(p) {
        let i = choose|i: int| 0 <= i < a.len() && a[i] == p;
        assert((a + b)[i] == p);
    }
    if b.contains(p) {
        let i = choose|i: int| 0 <= i < b.len() && b[i] == p;
        assert((a + b)[a.len() + i] == p);
    }
}

/// No pair occurs twice in the window mask.
pub proof fn window_mask_distinct(n: nat, w: nat)
    requires
        n <= usize::MAX,
    ensures
        window_mask(n, w).no_duplicates(),
    decreases n,
{
    if n > 0 {
        let head = window_mask((n - 1) as nat, w);
        let row = window_row((n - 1) as nat, w);
        let all = window_mask(n, w);
        window_mask_distinct((n - 1) as nat, w);
        window_row_pairs((n - 1) as nat, w);
        assert forall|a: int, b: int| 0 <= a < b < all.len() implies all[a] != all[b] by {
            if a < head.len() && head.len() <= b {
                assert(head.contains(all[a]));
                assert(row[b - head.len()] == all[b]);
                assert(row.contains(all[b]));
                window_mask_pairs((n - 1) as nat, w, all[a]);
            }
        }
    }
}

/// The window mask is in row-major order: of two pairs the earlier one has the smaller row,
/// or the same row and the smaller column.
pub proof fn window_mask_sorted(n: nat, w: nat, a: int, b: int)
    requires
        n <= usize::MAX,
        0 <= a < b < window_mask(n, w).len(),
    ensures
        ({
            let (x, y) = (window_mask(n, w)[a], window_mask(n, w)[b]);
            x.0 < y.0 || x.0 == y.0 && x.1 < y.1
        }),
    decreases n,
{
    if n > 0 {
        let head = window_mask((n - 1) as nat, w);
        let row = window_row((n - 1) as nat, w);
        let all = window_mask(n, w);
        if b < head.len() {
            window_mask_sorted((n - 1) as nat, w, a, b);
        } else if a < head.len() {
            assert(head.contains(all[a]));
            window_mask_pairs((n - 1) as nat, w, all[a]);
            assert(all[b] == row[b - head.len()]);
        } else {
            assert(all[a] == row[a - head.len()]);
            assert(all[b] == row[b - head.len()]);
        }
    }
}

/// The causal mask is in row-major order.
pub proof fn causal_mask_sorted(n: nat, a: int, b: int)
    requires
        n <= usize::MAX,
        0 <= a < b < causal_mask(n).len(),
    ensures
        ({
            let (x, y) = (causal_mask(n)[a], causal_mask(n)[b]);
            x.0 < y.0 || x.0 == y.0 && x.1 < y.1
        }),
{
    wide_window_is_causal(n, n);
    window_mask_sorted(n, n, a, b);
}

/// The window mask has at most `n * (w + 1)` pairs.
pub proof fn window_mask_size(n: nat, w: nat)
    requires
        n <= usize::MAX,
    ensures
        window_mask(n, w).len() <= n * (w + 1),
    decreases n,
{
    if n > 0 {
        window_mask_size((n - 1) as nat, w);
        window_row_pairs((n - 1) as nat, w);
        assert((n - 1) * (w + 1) + (w + 1) == n * (w + 1)) by (nonlinear_arith);
    } else {
        assert(0 * (w + 1) == 0) by (nonlinear_arith);
    }
}

/// A window that reaches back to the first row is the causal mask.
pub proof fn wide_window_is_causal(n: nat, w: nat)
    requires
        n <= w + 1,
    ensures
        window_mask(n, w) == causal_mask(n),
    decreases n,
{
    if n > 0 {
        wide_window_is_causal((n - 1) as nat, w);
        assert(window_row((n - 1) as nat, w) =~= causal_row((n - 1) as nat));
    }
}

/// The causal mask holds the pairs `(i, j)` with `j <= i < n`.
pub proof fn causal_mask_pairs(n: nat, p: (usize, usize))
    requires
        n <= usize::MAX,
    ensures
        causal_mask(n).contains(p) <==> p.1 <= p.0 < n,
{
    wide_window_is_causal(n, n);
    window_mask_pairs(n, n, p);
}

/// No pair occurs twice in the causal mask.
pub proof fn causal_mask_distinct(n: nat)
    requires
        n <= usize::MAX,
    ensures
        causal_mask(n).no_duplicates(),
{
    wide_window_is_causal(n, n);
    window_mask_distinct(n, n);
}

/// The causal mask has `n * (n + 1) / 2` pairs.
pub proof fn causal_mask_size(n: nat)
    ensures
        causal_mask(n).len() == n * (n + 1) / 2,
{
    doubled_size(n);
}

proof fn doubled_size(n: nat)
    ensures
        2 * causal_mask(n).len() == n * (n + 1),
    decreases n,
{
    if n > 0 {
        doubled_size((n - 1) as nat);
        assert((n - 1) * n + 2 * n == n * (n + 1)) by (nonlinear_arith);
    }
}

/// Both masks point at rows of matrices with `n` rows.
pub proof fn masks_in_range<T>(p: Attend<T>, w: nat)
    requires
        p.q.rows.len() == p.k.rows.len() <= usize::MAX,
    ensures
        p.all_in_range(causal_mask(p.q.rows.len())),
        p.all_in_range(window_mask(p.q.rows.len(), w)),
{
    let n = p.q.rows.len();
    let causal = causal_mask(n);
    let window = window_mask(n, w);
    assert forall|m: int| 0 <= m < causal.len() implies p.in_range(#[trigger] causal[m]) by {
        assert(causal.contains(causal[m]));
        causal_mask_pairs(n, causal[m]);
    }
    assert forall|m: int| 0 <= m < window.len() implies p.in_range(#[trigger] window[m]) by {
        assert(window.contains(window[m]));
        window_mask_pairs(n, w, window[m]);
    }
}

/// Appending a row of the stream appends its records.
proof fn row_records_concat<T>(
    p: Attend<T>,
    a: Seq<(usize, usize)>,
    b: Seq<(usize, usize)>,
    i: int,
)
    ensures
        p.row_records(a + b, i) == p.row_records(a, i) + p.row_records(b, i),
    decreases b.len(),
{
    if b.len() == 0 {
        assert(a + b =~= a);
    } else {
        let init = b.drop_last();
        assert((a + b).drop_last() =~= a + init);
        assert((a + b).last() == b.last());
        row_records_concat(p, a, init, i);
    }
    assert(p.row_records(a + b, i) =~= p.row_records(a, i) + p.row_records(b, i));
}

/// The records of a stream whose pairs all belong to row `i` are those of its pairs.
proof fn row_records_all<T>(p: Attend<T>, row: Seq<(usize, usize)>, i: int)
    requires
        forall|n: int| 0 <= n < row.len() ==> (#[trigger] row[n]).0 == i,
    ensures
        p.row_records(row, i) == Seq::new(row.len(), |n: int| p.record(row[n])),
    decreases row.len(),
{
    if row.len() > 0 {
        let init = row.drop_last();
        assert forall|n: int| 0 <= n < init.len() implies (#[trigger] init[n]).0 == i by {
            assert(row[n].0 == i);
        }
        row_records_all(p, init, i);
        assert(row[row.len() - 1].0 == i);
    }
    assert(p.row_records(row, i) =~= Seq::new(row.len(), |n: int| p.record(row[n])));
}

/// A stream that does not mention row `i` holds no record of it.
proof fn row_records_none<T>(p: Attend<T>, pairs: Seq<(usize, usize)>, i: int)
    requires
        forall|n: int| 0 <= n < pairs.len() ==> (#[trigger] pairs[n]).0 != i,
    ensures
        p.row_records(pairs, i) == Seq::<Record<T>>::empty(),
{
    row_records_mentioned(p, pairs, i);
    assert(p.row_records(pairs, i) =~= Seq::<Record<T>>::empty());
}

/// Row `i` of the window mask holds the records of the rows from `i - w` (or the first) up to
/// `i`, in this order.
pub proof fn window_row_records<T>(p: Attend<T>, n: nat, w: nat, i: nat)
    requires
        i < n <= usize::MAX,
    ensures
        p.row_records(window_mask(n, w), i as int) == Seq::new(
            window_row(i, w).len(),
            |t: int| p.record(window_row(i, w)[t]),
        ),
    decreases n,
{
    let head = window_mask((n - 1) as nat, w);
    let row = window_row((n - 1) as nat, w);
    row_records_concat(p, head, row, i as int);
    if i == n - 1 {
        assert forall|m: int| 0 <= m < head.len() implies (#[trigger] head[m]).0 != i by {
            assert(head.contains(head[m]));
            window_mask_pairs((n - 1) as nat, w, head[m]);
        }
        row_records_none(p, head, i as int);
        row_records_all(p, row, i as int);
    } else {
        window_row_records(p, (n - 1) as nat, w, i);
        row_records_none(p, row, i as int);
    }
    assert(p.row_records(window_mask(n, w), i as int) =~= Seq::new(
        window_row(i, w).len(),
        |t: int| p.record(window_row(i, w)[t]),
    ));
}

/// Row `i` of the causal mask holds the records of the rows up to `i`, in their order.
pub proof fn causal_row_records<T>(p: Attend<T>, n: nat, i: nat)
    requires
        i < n <= usize::MAX,
    ensures
        p.row_records(causal_mask(n), i as int) == Seq::new(
            i + 1,
            |j: int| p.record((i as usize, j as usize)),
        ),
{
    wide_window_is_causal(n, n);
    window_row_records(p, n, n, i);
    assert(p.row_records(causal_mask(n), i as int) =~= Seq::new(
        i + 1,
        |j: int| p.record((i as usize, j as usize)),
    ));
}

} // verus!
