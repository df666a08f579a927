//! Laws of the masked fold.
//!
//! Unless they say otherwise, the laws hold of exact arithmetic and finite inputs: they say
//! what a fold computes apart from rounding.
use crate::accum::AccView;
use crate::exact::{
    absorb_commutes, absorb_is_merge, absorb_loaded, merge_associative, proper_identity,
    merge_proper, proper_emptiness, single, single_loaded,
};
use crate::mask::{
    chunk_size, chunks_of, lemma_chunks_in_range, mentions, Attend, MergeTree,
};
use vstd::prelude::*;

verus! {

impl<T> Attend<T> {
    /// The arithmetic is exact, the shapes agree, and every score and value is finite.
    pub open spec fn exact(self) -> bool {
        &&& self.alg.exact()
        &&& self.alg.proper_eps(self.eps)
        &&& self.v.wf()
        &&& self.v.rows.len() == self.k.rows.len()
        &&& forall|p: (usize, usize)| self.in_range(p) ==> self.alg.finite(#[trigger] self.score(p))
        &&& forall|j: int|
            0 <= j < self.v.rows.len() ==> self.alg.all_finite(#[trigger] self.v.rows[j])
    }

    /// One proper accumulator per query.
    pub open spec fn proper(self, accs: Seq<AccView<T>>) -> bool {
        &&& accs.len() == self.q.rows.len()
        &&& forall|i: int|
            0 <= i < accs.len() ==> (#[trigger] accs[i]).proper(self.alg, self.eps, self.v.ncols)
    }

    /// The accumulator of one pair alone.
    pub open spec fn single(self, p: (usize, usize)) -> AccView<T> {
        single(self.alg, self.eps, self.score(p), self.value(p))
    }
}

/// A stream is refused for its pairs iff some pair is out of range.
pub proof fn range_refusal_none<T>(p: Attend<T>, pairs: Seq<(usize, usize)>)
    ensures
        p.range_refusal(pairs) is None <==> p.all_in_range(pairs),
    decreases pairs.len(),
{
    if pairs.len() > 0 {
        let rest = pairs.drop_first();
        range_refusal_none(p, rest);
        if p.all_in_range(pairs) {
            assert(p.in_range(pairs[0]));
            assert forall|n: int| 0 <= n < rest.len() implies p.in_range(#[trigger] rest[n]) by {
                assert(p.in_range(pairs[n + 1]));
            }
        }
        if p.in_range(pairs.first()) && p.all_in_range(rest) {
            assert forall|n: int| 0 <= n < pairs.len() implies p.in_range(
                #[trigger] pairs[n],
            ) by {
                if n > 0 {
                    assert(p.in_range(rest[n - 1]));
                }
            }
        }
    }
}

/// When masked attention succeeds: there are as many values as keys, queries and keys have
/// one dimension, and every pair points at rows that exist.
pub proof fn accepted_iff<T>(p: Attend<T>, pairs: Seq<(usize, usize)>)
    ensures
        p.refusal(pairs) is None <==> {
            &&& p.v.rows.len() == p.k.rows.len()
            &&& p.q.ncols == p.k.ncols
            &&& p.all_in_range(pairs)
        },
{
    range_refusal_none(p, pairs);
}

/// A step keeps accumulators proper and loads the row that it touches.
pub proof fn step_proper<T>(p: Attend<T>, accs: Seq<AccView<T>>, pair: (usize, usize))
    requires
        p.exact(),
        p.proper(accs),
        p.in_range(pair),
    ensures
        p.proper(p.step(accs, pair)),
        p.step(accs, pair)[pair.0 as int].loaded(p.alg, p.eps, p.v.ncols),
{
    assert(p.alg.all_finite(p.v.rows[pair.1 as int]));
    assert(accs[pair.0 as int].proper(p.alg, p.eps, p.v.ncols));
    absorb_loaded(p.alg, p.eps, accs[pair.0 as int], p.score(pair), p.value(pair));
}

/// A fold yields proper accumulators; a row is loaded iff some pair mentions it, and fresh
/// otherwise.
pub proof fn fold_proper<T>(p: Attend<T>, pairs: Seq<(usize, usize)>)
    requires
        p.exact(),
        p.all_in_range(pairs),
    ensures
        p.proper(p.fold(pairs)),
        forall|i: int|
            0 <= i < p.q.rows.len() ==> if mentions(pairs, i) {
                (#[trigger] p.fold(pairs)[i]).loaded(p.alg, p.eps, p.v.ncols)
            } else {
                p.fold(pairs)[i] == AccView::fresh(p.alg, p.v.ncols)
            },
    decreases pairs.len(),
{
    if pairs.len() > 0 {
        let init = pairs.drop_last();
        let last = pairs.last();
        all_in_range_part(p, pairs, 0, pairs.len() - 1);
        assert(pairs.subrange(0, pairs.len() - 1) =~= init);
        assert(p.in_range(pairs[pairs.len() - 1]));
        fold_proper(p, init);
        step_proper(p, p.fold(init), last);
        assert forall|i: int| 0 <= i < p.q.rows.len() implies if mentions(pairs, i) {
            (#[trigger] p.fold(pairs)[i]).loaded(p.alg, p.eps, p.v.ncols)
        } else {
            p.fold(pairs)[i] == AccView::fresh(p.alg, p.v.ncols)
        } by {
            if i == last.0 {
                assert(pairs[pairs.len() - 1].0 == i);
            } else {
                assert(p.fold(pairs)[i] == p.fold(init)[i]);
                if mentions(pairs, i) {
                    let n = choose|n: int| 0 <= n < pairs.len() && (#[trigger] pairs[n]).0 == i;
                    assert(init[n].0 == i);
                }
                if mentions(init, i) {
                    let n = choose|n: int| 0 <= n < init.len() && (#[trigger] init[n]).0 == i;
                    assert(pairs[n].0 == i);
                }
            }
        }
    }
}

/// A part of a stream whose pairs are in range has its pairs in range.
proof fn all_in_range_part<T>(p: Attend<T>, pairs: Seq<(usize, usize)>, from: int, to: int)
    requires
        p.all_in_range(pairs),
        0 <= from <= to <= pairs.len(),
    ensures
        p.all_in_range(pairs.subrange(from, to)),
{
    let part = pairs.subrange(from, to);
    assert forall|n: int| 0 <= n < part.len() implies p.in_range(#[trigger] part[n]) by {
        assert(p.in_range(pairs[from + n]));
    }
}

/// Coverage: a row has an output iff some pair mentions it.
pub proof fn output_iff_mentioned<T>(p: Attend<T>, pairs: Seq<(usize, usize)>, i: int)
    requires
        p.exact(),
        p.all_in_range(pairs),
        0 <= i < p.q.rows.len(),
    ensures
        p.fold(pairs)[i].finalize(p.alg) is Some <==> mentions(pairs, i),
        !mentions(pairs, i) ==> p.output(p.fold(pairs))[i] == p.alg.zeros(p.v.ncols),
{
    fold_proper(p, pairs);
    assert(p.fold(pairs)[i].proper(p.alg, p.eps, p.v.ncols));
    proper_emptiness(p.alg, p.eps, p.v.ncols, p.fold(pairs)[i]);
}

/// A step after a merge is a merge with the step.
proof fn step_of_merge<T>(
    p: Attend<T>,
    a: Seq<AccView<T>>,
    b: Seq<AccView<T>>,
    pair: (usize, usize),
)
    requires
        p.exact(),
        p.proper(a),
        p.proper(b),
        p.in_range(pair),
    ensures
        p.step(p.merge(a, b), pair) == p.merge(a, p.step(b, pair)),
{
    let i = pair.0 as int;
    let (s, v) = (p.score(pair), p.value(pair));
    let x = p.single(pair);
    assert(p.alg.all_finite(p.v.rows[pair.1 as int]));
    assert(a[i].proper(p.alg, p.eps, p.v.ncols));
    assert(b[i].proper(p.alg, p.eps, p.v.ncols));
    merge_proper(p.alg, p.eps, p.v.ncols, a[i], b[i]);
    single_loaded(p.alg, p.eps, s, v);
    absorb_is_merge(p.alg, p.eps, a[i].merge(p.alg, p.eps, b[i]), s, v);
    absorb_is_merge(p.alg, p.eps, b[i], s, v);
    merge_associative(p.alg, p.eps, p.v.ncols, a[i], b[i], x);
    assert(p.step(p.merge(a, b), pair) =~= p.merge(a, p.step(b, pair)));
}

/// Partition-reduce: folding a stream is folding two parts of it and merging.
pub proof fn partition_reduce<T>(
    p: Attend<T>,
    left: Seq<(usize, usize)>,
    right: Seq<(usize, usize)>,
)
    requires
        p.exact(),
        p.all_in_range(left),
        p.all_in_range(right),
    ensures
        p.fold(left + right) == p.merge(p.fold(left), p.fold(right)),
    decreases right.len(),
{
    fold_proper(p, left);
    if right.len() == 0 {
        assert(left + right =~= left);
        assert forall|i: int| 0 <= i < p.q.rows.len() implies p.merge(
            p.fold(left),
            p.fold(right),
        )[i] == #[trigger] p.fold(left)[i] by {
            proper_identity(p.alg, p.eps, p.v.ncols, p.fold(left)[i]);
        }
        assert(p.merge(p.fold(left), p.fold(right)) =~= p.fold(left));
    } else {
        let init = right.drop_last();
        all_in_range_part(p, right, 0, right.len() - 1);
        assert(right.subrange(0, right.len() - 1) =~= init);
        assert(p.in_range(right[right.len() - 1]));
        partition_reduce(p, left, init);
        fold_proper(p, init);
        assert((left + right).drop_last() =~= left + init);
        assert((left + right).last() == right.last());
        step_of_merge(p, p.fold(left), p.fold(init), right.last());
    }
}

/// Chunks, one after the other.
pub open spec fn joined(chunks: Seq<Seq<(usize, usize)>>) -> Seq<(usize, usize)>
    decreases chunks.len(),
{
    if chunks.len() == 0 {
        seq![]
    } else {
        chunks.first() + joined(chunks.drop_first())
    }
}

proof fn joined_concat(a: Seq<Seq<(usize, usize)>>, b: Seq<Seq<(usize, usize)>>)
    ensures
        joined(a + b) == joined(a) + joined(b),
    decreases a.len(),
{
    if a.len() == 0 {
        assert(a + b =~= b);
        assert(joined(a) + joined(b) =~= joined(b));
    } else {
        assert((a + b).drop_first() =~= a.drop_first() + b);
        assert((a + b).first() == a.first());
        joined_concat(a.drop_first(), b);
        assert(a.first() + (joined(a.drop_first()) + joined(b)) =~= (a.first() + joined(
            a.drop_first(),
        )) + joined(b));
    }
}

/// Cutting a stream into chunks loses nothing and keeps the order.
pub proof fn chunks_join(pairs: Seq<(usize, usize)>, size: nat)
    requires
        size > 0,
    ensures
        joined(chunks_of(pairs, size)) == pairs,
    decreases pairs.len(),
{
    if pairs.len() == 0 {
        assert(joined(chunks_of(pairs, size)) =~= pairs);
    } else if pairs.len() <= size {
        let one = chunks_of(pairs, size);
        assert(one.drop_first() =~= seq![]);
        assert(joined(one.drop_first()) =~= seq![]);
        assert(joined(one) =~= pairs);
    } else {
        let all = chunks_of(pairs, size);
        let tail = pairs.skip(size as int);
        chunks_join(tail, size);
        assert(all.drop_first() =~= chunks_of(tail, size));
        assert(all.first() == pairs.take(size as int));
        assert(joined(all) =~= pairs);
    }
}

/// Merging along any tree gives the fold of the stream that the tree was cut from.
pub proof fn reduce_is_fold<T>(p: Attend<T>, tree: MergeTree)
    requires
        p.exact(),
        forall|n: int|
            0 <= n < tree.chunks().len() ==> p.all_in_range(#[trigger] tree.chunks()[n]),
    ensures
        p.all_in_range(joined(tree.chunks())),
        p.reduce(tree) == p.fold(joined(tree.chunks())),
    decreases tree,
{
    match tree {
        MergeTree::Identity => {},
        MergeTree::Chunk(pairs) => {
            assert(tree.chunks()[0] == pairs);
            assert(tree.chunks().drop_first() =~= seq![]);
            assert(joined(tree.chunks().drop_first()) =~= seq![]);
            assert(joined(tree.chunks()) =~= pairs);
        },
        MergeTree::Node(l, r) => {
            assert forall|n: int| 0 <= n < l.chunks().len() implies p.all_in_range(
                #[trigger] l.chunks()[n],
            ) by {
                assert(tree.chunks()[n] == l.chunks()[n]);
            }
            assert forall|n: int| 0 <= n < r.chunks().len() implies p.all_in_range(
                #[trigger] r.chunks()[n],
            ) by {
                assert(tree.chunks()[l.chunks().len() + n] == r.chunks()[n]);
            }
            reduce_is_fold(p, *l);
            reduce_is_fold(p, *r);
            joined_concat(l.chunks(), r.chunks());
            partition_reduce(p, joined(l.chunks()), joined(r.chunks()));
        },
    }
}

/// Parallel equals sequential: whatever the number of threads and the bracketing, a parallel
/// fold gives what the sequential fold gives.
pub proof fn parallel_is_sequential<T>(
    p: Attend<T>,
    pairs: Seq<(usize, usize)>,
    accs: Seq<AccView<T>>,
)
    requires
        p.exact(),
        p.all_in_range(pairs),
        p.parallel_outcome(pairs, accs),
    ensures
        accs == p.fold(pairs),
{
    let threads = choose|threads: usize| #[trigger]
        p.chunked_outcome(pairs, chunk_size(pairs.len(), threads), accs);
    let size = chunk_size(pairs.len(), threads);
    let tree = choose|tree: MergeTree|
        tree.chunks() == chunks_of(pairs, size) && accs == #[trigger] p.reduce(tree);
    lemma_chunks_in_range(p, pairs, size);
    reduce_is_fold(p, tree);
    if pairs.len() > 0 {
        let t: nat = if threads == 0 {
            1
        } else {
            threads as nat
        };
        vstd::arithmetic::div_mod::lemma_fundamental_div_mod(pairs.len() as int, t as int);
        if size == 0 {
            assert(pairs.len() == t * (pairs.len() / t) + pairs.len() % t);
            assert(t * 0 == 0) by (nonlinear_arith);
        }
        chunks_join(pairs, size);
    } else {
        assert(chunks_of(pairs, size) =~= seq![]);
        assert(joined(chunks_of(pairs, size)) =~= pairs);
    }
}

/// A masked fold has one result, whichever path is taken.
pub proof fn outcome_is_fold<T>(
    p: Attend<T>,
    pairs: Seq<(usize, usize)>,
    accs: Seq<AccView<T>>,
)
    requires
        p.exact(),
        p.all_in_range(pairs),
        p.outcome(pairs, accs),
    ensures
        accs == p.fold(pairs),
{
    if pairs.len() >= crate::mask::PAIR_PARALLEL_THRESHOLD {
        parallel_is_sequential(p, pairs, accs);
    }
}

/// Two pairs can be absorbed in either order.
proof fn step_commutes<T>(
    p: Attend<T>,
    accs: Seq<AccView<T>>,
    x: (usize, usize),
    y: (usize, usize),
)
    requires
        p.exact(),
        p.proper(accs),
        p.in_range(x),
        p.in_range(y),
    ensures
        p.step(p.step(accs, x), y) == p.step(p.step(accs, y), x),
{
    assert(p.alg.all_finite(p.v.rows[x.1 as int]));
    assert(p.alg.all_finite(p.v.rows[y.1 as int]));
    if x.0 == y.0 {
        assert(accs[x.0 as int].proper(p.alg, p.eps, p.v.ncols));
        absorb_commutes(
            p.alg,
            p.eps,
            accs[x.0 as int],
            p.score(x),
            p.value(x),
            p.score(y),
            p.value(y),
        );
    }
    assert(p.step(p.step(accs, x), y) =~= p.step(p.step(accs, y), x));
}

/// One step of the fold, guarded so that it is total.
spec fn guarded<T>(p: Attend<T>, accs: Seq<AccView<T>>, x: (usize, usize)) -> Seq<AccView<T>> {
    if p.proper(accs) && p.in_range(x) {
        p.step(accs, x)
    } else {
        accs
    }
}

proof fn fold_is_guarded<T>(p: Attend<T>, pairs: Seq<(usize, usize)>)
    requires
        p.exact(),
        p.all_in_range(pairs),
    ensures
        p.fold(pairs) == pairs.fold_left(
            p.fresh(),
            |accs: Seq<AccView<T>>, x: (usize, usize)| guarded(p, accs, x),
        ),
    decreases pairs.len(),
{
    if pairs.len() > 0 {
        let init = pairs.drop_last();
        all_in_range_part(p, pairs, 0, pairs.len() - 1);
        assert(pairs.subrange(0, pairs.len() - 1) =~= init);
        assert(p.in_range(pairs[pairs.len() - 1]));
        fold_is_guarded(p, init);
        fold_proper(p, init);
    }
}

/// Order invariance: any two enumerations of one mask fold to the same result.
pub proof fn fold_order_invariant<T>(
    p: Attend<T>,
    pairs: Seq<(usize, usize)>,
    other: Seq<(usize, usize)>,
)
    requires
        p.exact(),
        p.all_in_range(pairs),
        pairs.to_multiset() == other.to_multiset(),
    ensures
        p.all_in_range(other),
        p.fold(pairs) == p.fold(other),
{
    assert forall|n: int| 0 <= n < other.len() implies p.in_range(#[trigger] other[n]) by {
        broadcast use vstd::seq_lib::group_to_multiset_ensures;

        assert(other.contains(other[n]));
        assert(other.to_multiset().count(other[n]) > 0);
        assert(pairs.to_multiset().count(other[n]) > 0);
        assert(pairs.contains(other[n]));
        let m = choose|m: int| 0 <= m < pairs.len() && pairs[m] == other[n];
        assert(p.in_range(pairs[m]));
    }
    let f = |accs: Seq<AccView<T>>, x: (usize, usize)| guarded(p, accs, x);
    assert forall|x: (usize, usize), y: (usize, usize), accs: Seq<AccView<T>>| #[trigger]
        f(f(accs, x), y) == f(f(accs, y), x) by {
        if p.proper(accs) && p.in_range(x) && p.in_range(y) {
            step_proper(p, accs, x);
            step_proper(p, accs, y);
            step_commutes(p, accs, x, y);
        }
    }
    vstd::seq_lib::lemma_fold_left_permutation(pairs, other, f, p.fresh());
    fold_is_guarded(p, pairs);
    fold_is_guarded(p, other);
}

/// Masked attention does not depend on the order of the stream, nor on how it was folded.
pub proof fn outcome_order_invariant<T>(
    p: Attend<T>,
    pairs: Seq<(usize, usize)>,
    accs: Seq<AccView<T>>,
    other: Seq<(usize, usize)>,
    other_accs: Seq<AccView<T>>,
)
    requires
        p.exact(),
        p.all_in_range(pairs),
        pairs.to_multiset() == other.to_multiset(),
        p.outcome(pairs, accs),
        p.outcome(other, other_accs),
    ensures
        accs == other_accs,
        p.output(accs) == p.output(other_accs),
{
    fold_order_invariant(p, pairs, other);
    outcome_is_fold(p, pairs, accs);
    outcome_is_fold(p, other, other_accs);
}

/// A query that no pair mentions has a zero output row, however the stream was folded. This
/// asks of the arithmetic only that zero equals itself.
pub proof fn unmentioned_rows_are_zero<T>(
    p: Attend<T>,
    pairs: Seq<(usize, usize)>,
    accs: Seq<AccView<T>>,
    i: int,
)
    requires
        p.alg.eq(p.alg.zero, p.alg.zero),
        p.all_in_range(pairs),
        p.outcome(pairs, accs),
        0 <= i < p.q.rows.len(),
        !mentions(pairs, i),
    ensures
        p.output(accs)[i] == p.alg.zeros(p.v.ncols),
{
    if pairs.len() < crate::mask::PAIR_PARALLEL_THRESHOLD {
        fold_unmentioned(p, pairs, i);
    } else {
        let threads = choose|threads: usize| #[trigger]
            p.chunked_outcome(pairs, chunk_size(pairs.len(), threads), accs);
        let size = chunk_size(pairs.len(), threads);
        let tree = choose|tree: MergeTree|
            tree.chunks() == chunks_of(pairs, size) && accs == #[trigger] p.reduce(tree);
        lemma_chunks_in_range(p, pairs, size);
        chunks_unmentioned(pairs, size, i);
        reduce_unmentioned(p, tree, i);
    }
}

/// A fold leaves the accumulator of a row that no pair mentions fresh.
proof fn fold_unmentioned<T>(p: Attend<T>, pairs: Seq<(usize, usize)>, i: int)
    requires
        p.all_in_range(pairs),
        0 <= i < p.q.rows.len(),
        !mentions(pairs, i),
    ensures
        p.fold(pairs).len() == p.q.rows.len(),
        p.fold(pairs)[i] == AccView::fresh(p.alg, p.v.ncols),
    decreases pairs.len(),
{
    if pairs.len() > 0 {
        let init = pairs.drop_last();
        all_in_range_part(p, pairs, 0, pairs.len() - 1);
        assert(pairs.subrange(0, pairs.len() - 1) =~= init);
        assert(p.in_range(pairs[pairs.len() - 1]));
        if mentions(init, i) {
            let n = choose|n: int| 0 <= n < init.len() && (#[trigger] init[n]).0 == i;
            assert(pairs[n].0 == i);
        }
        fold_unmentioned(p, init, i);
        assert(pairs[pairs.len() - 1].0 != i);
    }
}

/// The chunks of a stream mention no row that the stream does not.
proof fn chunks_unmentioned(pairs: Seq<(usize, usize)>, size: nat, i: int)
    requires
        !mentions(pairs, i),
    ensures
        forall|n: int|
            0 <= n < chunks_of(pairs, size).len() ==> !mentions(
                #[trigger] chunks_of(pairs, size)[n],
                i,
            ),
    decreases pairs.len(),
{
    if size != 0 && pairs.len() > size {
        let head = pairs.take(size as int);
        let tail = pairs.skip(size as int);
        if mentions(head, i) {
            let n = choose|n: int| 0 <= n < head.len() && (#[trigger] head[n]).0 == i;
            assert(pairs[n].0 == i);
        }
        if mentions(tail, i) {
            let n = choose|n: int| 0 <= n < tail.len() && (#[trigger] tail[n]).0 == i;
            assert(pairs[n + size].0 == i);
        }
        chunks_unmentioned(tail, size, i);
        assert forall|n: int| 0 <= n < chunks_of(pairs, size).len() implies !mentions(
            #[trigger] chunks_of(pairs, size)[n],
            i,
        ) by {
            if n > 0 {
                assert(chunks_of(pairs, size)[n] == chunks_of(tail, size)[n - 1]);
            }
        }
    }
}

/// A reduction leaves the accumulator of a row that no chunk mentions fresh.
proof fn reduce_unmentioned<T>(p: Attend<T>, tree: MergeTree, i: int)
    requires
        p.alg.eq(p.alg.zero, p.alg.zero),
        0 <= i < p.q.rows.len(),
        forall|n: int|
            0 <= n < tree.chunks().len() ==> p.all_in_range(#[trigger] tree.chunks()[n]),
        forall|n: int|
            0 <= n < tree.chunks().len() ==> !mentions(#[trigger] tree.chunks()[n], i),
    ensures
        p.reduce(tree).len() == p.q.rows.len(),
        p.reduce(tree)[i] == AccView::fresh(p.alg, p.v.ncols),
    decreases tree,
{
    match tree {
        MergeTree::Identity => {},
        MergeTree::Chunk(pairs) => {
            assert(tree.chunks()[0] == pairs);
            fold_unmentioned(p, pairs, i);
        },
        MergeTree::Node(l, r) => {
            assert forall|n: int| 0 <= n < l.chunks().len() implies p.all_in_range(
                #[trigger] l.chunks()[n],
            ) && !mentions(l.chunks()[n], i) by {
                assert(tree.chunks()[n] == l.chunks()[n]);
            }
            assert forall|n: int| 0 <= n < r.chunks().len() implies p.all_in_range(
                #[trigger] r.chunks()[n],
            ) && !mentions(r.chunks()[n], i) by {
                assert(tree.chunks()[l.chunks().len() + n] == r.chunks()[n]);
            }
            reduce_unmentioned(p, *l, i);
            reduce_unmentioned(p, *r, i);
        },
    }
}

} // verus!
