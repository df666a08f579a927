//! What the accumulators hold, in closed form.
//!
//! The first law of this module is about order alone and holds of every arithmetic: a row of
//! a fold depends on the records of that row only. The others hold of exact arithmetic and
//! finite inputs; together they say that every row of a masked fold is the attention over
//! its records.
use crate::accum::AccView;
use crate::arith::{Algebra, Eps};
use crate::exact::{
    absorb_commutes, absorb_loaded, at_most_add, at_most_div, at_most_mul, at_most_transitive,
    exact_add, exact_cancel, exact_compare, exact_constants, exact_count, exact_extreme_weight,
    exact_mul, exact_positive, exact_transitive, exact_weight, proper_emptiness,
    weight_at_most_one,
};
use crate::mask::{mentions, Attend};
use crate::mask_laws::{outcome_is_fold, output_iff_mentioned};
use crate::records::Record;
use vstd::prelude::*;

verus! {

impl<T> AccView<T> {
    /// The accumulator of the records `r`, absorbed from left to right.
    pub open spec fn absorb_all(
        alg: Algebra<T>,
        eps: Eps<T>,
        d_v: nat,
        r: Seq<Record<T>>,
    ) -> AccView<T>
        decreases r.len(),
    {
        if r.len() == 0 {
            AccView::fresh(alg, d_v)
        } else {
            AccView::absorb_all(alg, eps, d_v, r.drop_last()).absorb(
                alg,
                eps,
                r.last().s,
                r.last().v,
            )
        }
    }
}

impl<T> Algebra<T> {
    /// Every record has a finite score and a finite value of length `d_v`.
    pub open spec fn finite_records(self, r: Seq<Record<T>>, d_v: nat) -> bool {
        forall|n: int|
            0 <= n < r.len() ==> {
                &&& self.finite((#[trigger] r[n]).s)
                &&& self.all_finite(r[n].v)
                &&& r[n].v.len() == d_v
            }
    }

    /// What the records `r` amount to: the largest score (at infinite temperature: minus
    /// infinity), the sum of the weights, and the weighted sum of the values. The weights
    /// are the exponential ones at a finite temperature, one for each record of the argmax
    /// set at zero, and one for each record at infinity.
    pub open spec fn summary(self, eps: Eps<T>, r: Seq<Record<T>>, d_v: nat) -> AccView<T> {
        let m = self.best(r);
        match eps {
            Eps::Zero => {
                let w = self.winners(m, r);
                AccView { mu: m, z: self.count(w.len() as usize), u: self.unit_sum(w, d_v) }
            },
            Eps::Finite(e) => AccView {
                mu: m,
                z: self.total_weight(e, m, r),
                u: self.weighted_value(e, m, r, d_v),
            },
            Eps::Inf => AccView {
                mu: self.neg_infinity,
                z: self.count(r.len() as usize),
                u: self.unit_sum(r, d_v),
            },
        }
    }
}

impl<T> Attend<T> {
    /// The record of a pair.
    pub open spec fn record(self, p: (usize, usize)) -> Record<T> {
        Record { s: self.score(p), v: self.value(p) }
    }

    /// The records of row `i`, in the order of the stream.
    pub open spec fn row_records(self, pairs: Seq<(usize, usize)>, i: int) -> Seq<Record<T>>
        decreases pairs.len(),
    {
        if pairs.len() == 0 {
            seq![]
        } else {
            let init = self.row_records(pairs.drop_last(), i);
            if pairs.last().0 == i {
                init.push(self.record(pairs.last()))
            } else {
                init
            }
        }
    }
}

/// Row by row: a row of a fold absorbs the records of that row, in the order of the stream,
/// and nothing else. This holds whatever the arithmetic.
pub proof fn fold_by_rows<T>(p: Attend<T>, pairs: Seq<(usize, usize)>, i: int)
    requires
        p.all_in_range(pairs),
        0 <= i < p.q.rows.len(),
    ensures
        p.fold(pairs).len() == p.q.rows.len(),
        p.fold(pairs)[i] == AccView::absorb_all(
            p.alg,
            p.eps,
            p.v.ncols,
            p.row_records(pairs, i),
        ),
    decreases pairs.len(),
{
    if pairs.len() > 0 {
        let init = pairs.drop_last();
        assert forall|n: int| 0 <= n < init.len() implies p.in_range(#[trigger] init[n]) by {
            assert(p.in_range(pairs[n]));
        }
        assert(p.in_range(pairs[pairs.len() - 1]));
        fold_by_rows(p, init, i);
        let r = p.row_records(init, i);
        assert(r.push(p.record(pairs.last())).drop_last() =~= r);
    }
}

/// The records of a row are there iff some pair mentions it.
pub proof fn row_records_mentioned<T>(p: Attend<T>, pairs: Seq<(usize, usize)>, i: int)
    ensures
        p.row_records(pairs, i).len() > 0 <==> mentions(pairs, i),
        p.row_records(pairs, i).len() <= pairs.len(),
    decreases pairs.len(),
{
    if pairs.len() > 0 {
        let init = pairs.drop_last();
        row_records_mentioned(p, init, i);
        if mentions(init, i) {
            let n = choose|n: int| 0 <= n < init.len() && (#[trigger] init[n]).0 == i;
            assert(pairs[n].0 == i);
        }
        if pairs.last().0 == i {
            assert(pairs[pairs.len() - 1].0 == i);
        } else if mentions(pairs, i) {
            let n = choose|n: int| 0 <= n < pairs.len() && (#[trigger] pairs[n]).0 == i;
            assert(init[n].0 == i);
        }
    }
}

/// The records of a row of an exact problem are finite.
pub proof fn row_records_finite<T>(p: Attend<T>, pairs: Seq<(usize, usize)>, i: int)
    requires
        p.exact(),
        p.all_in_range(pairs),
    ensures
        p.alg.finite_records(p.row_records(pairs, i), p.v.ncols),
    decreases pairs.len(),
{
    if pairs.len() > 0 {
        let init = pairs.drop_last();
        assert forall|n: int| 0 <= n < init.len() implies p.in_range(#[trigger] init[n]) by {
            assert(p.in_range(pairs[n]));
        }
        assert(p.in_range(pairs[pairs.len() - 1]));
        row_records_finite(p, init, i);
        assert(p.alg.finite(p.score(pairs.last())));
        assert(p.alg.all_finite(p.v.rows[pairs.last().1 as int]));
    }
}

/// Finite records without the last one are finite.
pub proof fn init_finite<T>(alg: Algebra<T>, r: Seq<Record<T>>, d_v: nat)
    requires
        alg.finite_records(r, d_v),
        r.len() > 0,
    ensures
        alg.finite_records(r.drop_last(), d_v),
        alg.finite(r.last().s),
        alg.all_finite(r.last().v),
        r.last().v.len() == d_v,
{
    let init = r.drop_last();
    assert forall|n: int| 0 <= n < init.len() implies {
        &&& alg.finite((#[trigger] init[n]).s)
        &&& alg.all_finite(init[n].v)
        &&& init[n].v.len() == d_v
    } by {
        assert(init[n] == r[n]);
    }
    assert(r.last() == r[r.len() - 1]);
}

/// The largest score of finite records is one of the scores, and no score exceeds it.
pub proof fn best_is_maximum<T>(alg: Algebra<T>, r: Seq<Record<T>>, d_v: nat)
    requires
        alg.exact(),
        alg.finite_records(r, d_v),
        r.len() > 0,
    ensures
        alg.finite(alg.best(r)),
        exists|n: int| 0 <= n < r.len() && (#[trigger] r[n]).s == alg.best(r),
        forall|n: int| 0 <= n < r.len() ==> !alg.gt((#[trigger] r[n]).s, alg.best(r)),
    decreases r.len(),
{
    init_finite(alg, r, d_v);
    let init = r.drop_last();
    let s = r.last().s;
    let top = alg.best(r);
    assert(r[r.len() - 1].s == s);
    if init.len() == 0 {
        exact_compare(alg, s, s);
        assert(alg.best(init) == alg.neg_infinity);
    } else {
        best_is_maximum(alg, init, d_v);
        let m = alg.best(init);
        exact_compare(alg, s, m);
        exact_compare(alg, m, s);
        let w = choose|n: int| 0 <= n < init.len() && (#[trigger] init[n]).s == m;
        assert(r[w].s == m);
        assert forall|n: int| 0 <= n < r.len() implies !alg.gt((#[trigger] r[n]).s, top) by {
            if n < init.len() {
                let t = r[n].s;
                assert(init[n].s == t);
                if alg.gt(t, top) && top == s && alg.gt(s, m) {
                    exact_transitive(alg, t, s, m);
                }
            } else {
                exact_compare(alg, s, s);
            }
        }
    }
}

/// Where no record has the score `base`, no record is among those with that score.
proof fn winners_none<T>(alg: Algebra<T>, base: T, r: Seq<Record<T>>, d_v: nat)
    requires
        alg.exact(),
        alg.finite_records(r, d_v),
        alg.finite(base),
        forall|n: int| 0 <= n < r.len() ==> (#[trigger] r[n]).s != base,
    ensures
        alg.winners(base, r) == Seq::<Record<T>>::empty(),
    decreases r.len(),
{
    if r.len() > 0 {
        init_finite(alg, r, d_v);
        let init = r.drop_last();
        assert forall|n: int| 0 <= n < init.len() implies (#[trigger] init[n]).s != base by {
            assert(r[n].s != base);
        }
        winners_none(alg, base, init, d_v);
        assert(r[r.len() - 1].s != base);
        exact_compare(alg, r.last().s, base);
    }
}

/// There are no more records in the argmax set than records.
pub proof fn winners_count<T>(alg: Algebra<T>, base: T, r: Seq<Record<T>>)
    ensures
        alg.winners(base, r).len() <= r.len(),
    decreases r.len(),
{
    if r.len() > 0 {
        winners_count(alg, base, r.drop_last());
    }
}

/// Sums of finite records are finite and have the length of the values.
proof fn sums_finite<T>(alg: Algebra<T>, e: T, base: T, r: Seq<Record<T>>, d_v: nat)
    requires
        alg.exact(),
        alg.proper_eps(Eps::Finite(e)),
        alg.finite(base),
        alg.finite_records(r, d_v),
    ensures
        alg.finite(alg.total_weight(e, base, r)),
        alg.weighted_value(e, base, r, d_v).len() == d_v,
        alg.all_finite(alg.weighted_value(e, base, r, d_v)),
    decreases r.len(),
{
    exact_constants(alg);
    if r.len() > 0 {
        init_finite(alg, r, d_v);
        let init = r.drop_last();
        sums_finite(alg, e, base, init, d_v);
        let w = alg.weight(e, r.last().s, base);
        exact_weight(alg, e, r.last().s, base, base);
        exact_add(alg, alg.total_weight(e, base, init), w, w);
        let u = alg.weighted_value(e, base, init, d_v);
        let x = alg.weighted_value(e, base, r, d_v);
        assert forall|c: int| 0 <= c < x.len() implies alg.finite(#[trigger] x[c]) by {
            exact_mul(alg, w, r.last().v[c], w);
            exact_add(alg, u[c], alg.mul(w, r.last().v[c]), w);
        }
    }
}

/// Changing the base rescales the sums by the weight of the old base.
pub proof fn sums_rebased<T>(
    alg: Algebra<T>,
    e: T,
    base: T,
    top: T,
    r: Seq<Record<T>>,
    d_v: nat,
)
    requires
        alg.exact(),
        alg.proper_eps(Eps::Finite(e)),
        alg.finite(base),
        alg.finite(top),
        alg.finite_records(r, d_v),
    ensures
        alg.total_weight(e, top, r) == alg.mul(
            alg.total_weight(e, base, r),
            alg.weight(e, base, top),
        ),
        alg.weighted_value(e, top, r, d_v).len() == d_v,
        forall|c: int|
            0 <= c < d_v ==> #[trigger] alg.weighted_value(e, top, r, d_v)[c] == alg.mul(
                alg.weighted_value(e, base, r, d_v)[c],
                alg.weight(e, base, top),
            ),
    decreases r.len(),
{
    let p = alg.weight(e, base, top);
    exact_weight(alg, e, base, top, top);
    exact_constants(alg);
    if r.len() == 0 {
        exact_mul(alg, p, p, p);
    } else {
        init_finite(alg, r, d_v);
        let init = r.drop_last();
        let (s, v) = (r.last().s, r.last().v);
        sums_rebased(alg, e, base, top, init, d_v);
        sums_finite(alg, e, base, init, d_v);
        sums_finite(alg, e, top, init, d_v);
        let w = alg.weight(e, s, base);
        exact_weight(alg, e, s, base, top);
        exact_mul(alg, alg.total_weight(e, base, init), w, p);
        let u = alg.weighted_value(e, base, init, d_v);
        assert forall|c: int| 0 <= c < d_v implies #[trigger] alg.weighted_value(
            e,
            top,
            r,
            d_v,
        )[c] == alg.mul(alg.weighted_value(e, base, r, d_v)[c], p) by {
            assert(alg.weighted_value(e, top, init, d_v)[c] == alg.mul(u[c], p));
            exact_mul(alg, w, v[c], p);
            exact_mul(alg, u[c], alg.mul(w, v[c]), p);
            exact_mul(alg, v[c], p, p);
            exact_mul(alg, w, p, v[c]);
            assert(alg.mul(alg.mul(w, v[c]), p) == alg.mul(alg.mul(w, p), v[c]));
        }
    }
}

/// A sum of values has their length.
pub proof fn unit_sum_len<T>(alg: Algebra<T>, r: Seq<Record<T>>, d_v: nat)
    ensures
        alg.unit_sum(r, d_v).len() == d_v,
    decreases r.len(),
{
    if r.len() > 0 {
        unit_sum_len(alg, r.drop_last(), d_v);
    }
}

/// Adding a vector once is adding it.
proof fn axpy_one<T>(alg: Algebra<T>, a: Seq<T>, b: Seq<T>)
    requires
        alg.exact(),
        alg.all_finite(b),
        a.len() == b.len(),
    ensures
        alg.axpy(a, alg.one, b) == alg.vadd(a, b),
{
    exact_constants(alg);
    assert forall|c: int| 0 <= c < a.len() implies #[trigger] alg.axpy(a, alg.one, b)[c]
        == alg.vadd(a, b)[c] by {
        exact_mul(alg, b[c], alg.one, alg.one);
    }
    assert(alg.axpy(a, alg.one, b) =~= alg.vadd(a, b));
}

/// What a fold of at least one finite record holds: the accumulator of the records is their
/// summary, at every temperature.
pub proof fn accumulated<T>(alg: Algebra<T>, eps: Eps<T>, r: Seq<Record<T>>, d_v: nat)
    requires
        alg.exact(),
        alg.proper_eps(eps),
        alg.finite_records(r, d_v),
        0 < r.len() <= usize::MAX,
    ensures
        AccView::absorb_all(alg, eps, d_v, r) == alg.summary(eps, r, d_v),
        alg.summary(eps, r, d_v).loaded(alg, eps, d_v),
    decreases r.len(),
{
    init_finite(alg, r, d_v);
    exact_constants(alg);
    let init = r.drop_last();
    let (s, v) = (r.last().s, r.last().v);
    let acc = AccView::absorb_all(alg, eps, d_v, init);
    let sum = alg.summary(eps, r, d_v);
    if init.len() > 0 {
        accumulated(alg, eps, init, d_v);
        best_is_maximum(alg, init, d_v);
    }
    absorb_loaded(alg, eps, acc, s, v);
    match eps {
        Eps::Inf => {
            unit_sum_len(alg, init, d_v);
            axpy_one(alg, alg.unit_sum(init, d_v), v);
            exact_count(alg, init.len() as usize, r.len() as usize);
            assert(AccView::absorb_all(alg, eps, d_v, r) =~= sum);
        },
        Eps::Zero => {
            tropical_step(alg, r, d_v);
        },
        Eps::Finite(e) => {
            if init.len() == 0 {
                softmax_first(alg, e, r, d_v);
            } else {
                softmax_next(alg, e, r, d_v);
            }
        },
    }
}

/// One record more, at zero temperature.
proof fn tropical_step<T>(alg: Algebra<T>, r: Seq<Record<T>>, d_v: nat)
    requires
        alg.exact(),
        alg.finite_records(r, d_v),
        0 < r.len() <= usize::MAX,
    ensures
        ({
            let init = r.drop_last();
            let before = if init.len() == 0 {
                AccView::fresh(alg, d_v)
            } else {
                alg.summary(Eps::Zero, init, d_v)
            };
            before.absorb(alg, Eps::Zero, r.last().s, r.last().v) == alg.summary(
                Eps::Zero,
                r,
                d_v,
            )
        }),
{
    init_finite(alg, r, d_v);
    exact_constants(alg);
    let init = r.drop_last();
    let (s, v) = (r.last().s, r.last().v);
    let m = alg.best(init);
    let w = alg.winners(m, init);
    exact_count(alg, 0, 1);
    exact_add(alg, alg.one, alg.zero, alg.zero);
    exact_compare(alg, s, s);
    let before = if init.len() == 0 {
        AccView::fresh(alg, d_v)
    } else {
        alg.summary(Eps::Zero, init, d_v)
    };
    let after = before.absorb(alg, Eps::Zero, s, v);
    let sum = alg.summary(Eps::Zero, r, d_v);
    if init.len() > 0 {
        best_is_maximum(alg, init, d_v);
        exact_compare(alg, s, m);
        exact_compare(alg, m, s);
    }
    if alg.gt(s, m) {
        assert(alg.winners(s, init) =~= Seq::empty()) by {
            assert forall|n: int| 0 <= n < init.len() implies (#[trigger] init[n]).s != s by {
                assert(!alg.gt(init[n].s, m));
            }
            winners_none(alg, s, init, d_v);
        }
        let one = alg.winners(s, r);
        assert(one =~= seq![r.last()]);
        assert(one.drop_last() =~= Seq::empty());
        assert(alg.unit_sum(one.drop_last(), d_v) == alg.zeros(d_v));
        axpy_one(alg, alg.zeros(d_v), v);
        vadd_zeros(alg, v);
        assert(after =~= sum);
    } else if alg.eq(s, m) {
        winners_count(alg, m, init);
        let both = alg.winners(m, r);
        assert(both == w.push(r.last()));
        assert(both.drop_last() =~= w);
        unit_sum_len(alg, w, d_v);
        axpy_one(alg, alg.unit_sum(w, d_v), v);
        exact_count(alg, w.len() as usize, both.len() as usize);
        assert(after =~= sum);
    } else {
        assert(after =~= sum);
    }
}

/// The first record, at a finite temperature.
proof fn softmax_first<T>(alg: Algebra<T>, e: T, r: Seq<Record<T>>, d_v: nat)
    requires
        alg.exact(),
        alg.proper_eps(Eps::Finite(e)),
        alg.finite_records(r, d_v),
        r.len() == 1,
    ensures
        AccView::fresh(alg, d_v).absorb(alg, Eps::Finite(e), r.last().s, r.last().v)
            == alg.summary(Eps::Finite(e), r, d_v),
{
    let eps = Eps::Finite(e);
    let init = r.drop_last();
    let (s, v) = (r.last().s, r.last().v);
    init_finite(alg, r, d_v);
    exact_constants(alg);
    exact_compare(alg, s, s);
    exact_weight(alg, e, s, s, s);
    exact_add(alg, alg.one, alg.zero, alg.zero);
    proper_emptiness(alg, eps, d_v, AccView::fresh(alg, d_v));
    assert(alg.best(init) == alg.neg_infinity);
    assert(alg.total_weight(e, s, init) == alg.zero);
    assert(alg.weighted_value(e, s, init, d_v) == alg.zeros(d_v));
    axpy_one(alg, alg.zeros(d_v), v);
    vadd_zeros(alg, v);
}

/// One record more, at a finite temperature.
proof fn softmax_next<T>(alg: Algebra<T>, e: T, r: Seq<Record<T>>, d_v: nat)
    requires
        alg.exact(),
        alg.proper_eps(Eps::Finite(e)),
        alg.finite_records(r, d_v),
        r.len() > 1,
        alg.summary(Eps::Finite(e), r.drop_last(), d_v).loaded(alg, Eps::Finite(e), d_v),
    ensures
        alg.summary(Eps::Finite(e), r.drop_last(), d_v).absorb(
            alg,
            Eps::Finite(e),
            r.last().s,
            r.last().v,
        ) == alg.summary(Eps::Finite(e), r, d_v),
{
    let eps = Eps::Finite(e);
    let init = r.drop_last();
    let (s, v) = (r.last().s, r.last().v);
    let m = alg.best(init);
    let before = alg.summary(eps, init, d_v);
    let after = before.absorb(alg, eps, s, v);
    let sum = alg.summary(eps, r, d_v);
    init_finite(alg, r, d_v);
    proper_emptiness(alg, eps, d_v, before);
    best_is_maximum(alg, init, d_v);
    exact_compare(alg, s, m);
    exact_compare(alg, m, s);
    let top = alg.max(m, s);
    assert(alg.best(r) == top);
    sums_rebased(alg, e, m, top, init, d_v);
    assert(after.u =~= sum.u) by {
        assert forall|c: int| 0 <= c < d_v implies #[trigger] after.u[c] == sum.u[c] by {
            assert(alg.weighted_value(e, top, init, d_v)[c] == alg.mul(
                before.u[c],
                alg.weight(e, m, top),
            ));
        }
    }
    assert(after.z == sum.z);
}

/// Adding to zeros changes nothing.
proof fn vadd_zeros<T>(alg: Algebra<T>, v: Seq<T>)
    requires
        alg.exact(),
        alg.all_finite(v),
    ensures
        alg.vadd(alg.zeros(v.len()), v) == v,
{
    exact_constants(alg);
    let sum = alg.vadd(alg.zeros(v.len()), v);
    assert forall|c: int| 0 <= c < v.len() implies #[trigger] sum[c] == v[c] by {
        exact_add(alg, v[c], alg.zero, alg.zero);
    }
    assert(sum =~= v);
}

/// What a masked fold computes: the output row of every query that some pair mentions is the
/// attention over the records of that query.
pub proof fn output_is_attention<T>(p: Attend<T>, pairs: Seq<(usize, usize)>, i: int)
    requires
        p.exact(),
        p.all_in_range(pairs),
        pairs.len() <= usize::MAX,
        0 <= i < p.q.rows.len(),
        mentions(pairs, i),
    ensures
        p.output(p.fold(pairs))[i] == p.alg.attention(
            p.eps,
            p.row_records(pairs, i),
            p.v.ncols,
        ),
{
    let r = p.row_records(pairs, i);
    fold_by_rows(p, pairs, i);
    row_records_mentioned(p, pairs, i);
    row_records_finite(p, pairs, i);
    accumulated_output(p.alg, p.eps, r, p.v.ncols);
}

/// What masked attention returns, whichever way the stream was folded: the attention over
/// its records for every query that some pair mentions, and zero for the others.
pub proof fn masked_result<T>(
    p: Attend<T>,
    pairs: Seq<(usize, usize)>,
    accs: Seq<AccView<T>>,
    i: int,
)
    requires
        p.exact(),
        p.all_in_range(pairs),
        pairs.len() <= usize::MAX,
        p.outcome(pairs, accs),
        0 <= i < p.q.rows.len(),
    ensures
        p.output(accs).len() == p.q.rows.len(),
        p.output(accs)[i] == if mentions(pairs, i) {
            p.alg.attention(p.eps, p.row_records(pairs, i), p.v.ncols)
        } else {
            p.alg.zeros(p.v.ncols)
        },
{
    outcome_is_fold(p, pairs, accs);
    fold_by_rows(p, pairs, i);
    output_iff_mentioned(p, pairs, i);
    if mentions(pairs, i) {
        output_is_attention(p, pairs, i);
    }
}

/// The output of the accumulator of at least one finite record is the attention over the
/// records.
pub proof fn accumulated_output<T>(alg: Algebra<T>, eps: Eps<T>, r: Seq<Record<T>>, d_v: nat)
    requires
        alg.exact(),
        alg.proper_eps(eps),
        alg.finite_records(r, d_v),
        0 < r.len() <= usize::MAX,
    ensures
        AccView::absorb_all(alg, eps, d_v, r).finalize(alg) == Some(
            alg.attention(eps, r, d_v),
        ),
{
    accumulated(alg, eps, r, d_v);
    let acc = alg.summary(eps, r, d_v);
    proper_emptiness(alg, eps, d_v, acc);
    match eps {
        Eps::Zero => {
            let w = alg.winners(alg.best(r), r);
            if w.len() == 0 {
                exact_count(alg, 0, 1);
                exact_compare(alg, alg.zero, alg.zero);
            }
        },
        Eps::Finite(_) => {},
        Eps::Inf => {
            uniform_mean(alg, r, d_v);
        },
    }
}

/// At infinite temperature the attention is the plain mean of the values.
pub proof fn uniform_mean<T>(alg: Algebra<T>, r: Seq<Record<T>>, d_v: nat)
    requires
        alg.exact(),
        alg.finite_records(r, d_v),
        0 < r.len() <= usize::MAX,
    ensures
        alg.attention(Eps::Inf, r, d_v) == alg.vdiv(
            alg.unit_sum(r, d_v),
            alg.count(r.len() as usize),
        ),
{
    best_is_maximum(alg, r, d_v);
    uniform_sums(alg, alg.best(r), r, d_v);
}

/// At infinite temperature every weight is one.
proof fn uniform_sums<T>(alg: Algebra<T>, base: T, r: Seq<Record<T>>, d_v: nat)
    requires
        alg.exact(),
        alg.finite(base),
        alg.finite_records(r, d_v),
        r.len() <= usize::MAX,
    ensures
        alg.total_weight(alg.infinity, base, r) == alg.count(r.len() as usize),
        alg.weighted_value(alg.infinity, base, r, d_v) == alg.unit_sum(r, d_v),
    decreases r.len(),
{
    exact_count(alg, 0, 1);
    if r.len() > 0 {
        init_finite(alg, r, d_v);
        uniform_sums(alg, base, r.drop_last(), d_v);
        exact_extreme_weight(alg, alg.infinity, r.last().s, base);
        exact_count(alg, r.drop_last().len() as usize, r.len() as usize);
    }
}

/// At a finite temperature the shift by the largest score changes nothing: the attention is
/// the mean with weights relative to any finite base.
pub proof fn softmax_shift<T>(alg: Algebra<T>, e: T, base: T, r: Seq<Record<T>>, d_v: nat)
    requires
        alg.exact(),
        alg.proper_eps(Eps::Finite(e)),
        alg.finite(base),
        alg.finite_records(r, d_v),
        r.len() > 0,
    ensures
        alg.attention(Eps::Finite(e), r, d_v) == alg.vdiv(
            alg.weighted_value(e, base, r, d_v),
            alg.total_weight(e, base, r),
        ),
{
    let m = alg.best(r);
    best_is_maximum(alg, r, d_v);
    sums_rebased(alg, e, base, m, r, d_v);
    sums_finite(alg, e, base, r, d_v);
    sums_finite(alg, e, m, r, d_v);
    total_weight_positive(alg, e, base, r, d_v);
    let p = alg.weight(e, base, m);
    exact_weight(alg, e, base, m, m);
    let (u, z) = (alg.weighted_value(e, base, r, d_v), alg.total_weight(e, base, r));
    let shifted = alg.weighted_value(e, m, r, d_v);
    assert forall|c: int| 0 <= c < d_v implies #[trigger] alg.vdiv(
        shifted,
        alg.total_weight(e, m, r),
    )[c] == alg.vdiv(u, z)[c] by {
        assert(shifted[c] == alg.mul(u[c], p));
        exact_cancel(alg, u[c], z, p);
    }
    assert(alg.vdiv(shifted, alg.total_weight(e, m, r)) =~= alg.vdiv(u, z));
}

/// The weights of at least one record have a positive sum.
proof fn total_weight_positive<T>(
    alg: Algebra<T>,
    e: T,
    base: T,
    r: Seq<Record<T>>,
    d_v: nat,
)
    requires
        alg.exact(),
        alg.proper_eps(Eps::Finite(e)),
        alg.finite(base),
        alg.finite_records(r, d_v),
        r.len() > 0,
    ensures
        alg.gt(alg.total_weight(e, base, r), alg.zero),
    decreases r.len(),
{
    init_finite(alg, r, d_v);
    let init = r.drop_last();
    let w = alg.weight(e, r.last().s, base);
    exact_weight(alg, e, r.last().s, base, base);
    exact_add(alg, w, w, w);
    if init.len() > 0 {
        total_weight_positive(alg, e, base, init, d_v);
        sums_finite(alg, e, base, init, d_v);
        exact_positive(alg, alg.total_weight(e, base, init), w);
    }
}

/// The attention does not depend on the order of the records.
pub proof fn attention_order_invariant<T>(
    alg: Algebra<T>,
    eps: Eps<T>,
    r: Seq<Record<T>>,
    other: Seq<Record<T>>,
    d_v: nat,
)
    requires
        alg.exact(),
        alg.proper_eps(eps),
        alg.finite_records(r, d_v),
        0 < r.len() <= usize::MAX,
        r.to_multiset() == other.to_multiset(),
    ensures
        alg.attention(eps, r, d_v) == alg.attention(eps, other, d_v),
{
    permuted_finite(alg, r, other, d_v);
    let f = |acc: AccView<T>, x: Record<T>| guarded(alg, eps, d_v, acc, x);
    assert forall|x: Record<T>, y: Record<T>, acc: AccView<T>| #[trigger]
        f(f(acc, x), y) == f(f(acc, y), x) by {
        guarded_commutes(alg, eps, d_v, acc, x, y);
    }
    vstd::seq_lib::lemma_fold_left_permutation(r, other, f, AccView::fresh(alg, d_v));
    absorb_all_guarded(alg, eps, r, d_v);
    absorb_all_guarded(alg, eps, other, d_v);
    accumulated_output(alg, eps, r, d_v);
    accumulated_output(alg, eps, other, d_v);
}

/// A permutation of finite records is as long and as finite.
proof fn permuted_finite<T>(
    alg: Algebra<T>,
    r: Seq<Record<T>>,
    other: Seq<Record<T>>,
    d_v: nat,
)
    requires
        alg.finite_records(r, d_v),
        r.to_multiset() == other.to_multiset(),
    ensures
        other.len() == r.len(),
        alg.finite_records(other, d_v),
{
    broadcast use vstd::seq_lib::group_to_multiset_ensures;

    assert(r.len() == r.to_multiset().len());
    assert forall|n: int| 0 <= n < other.len() implies {
        &&& alg.finite((#[trigger] other[n]).s)
        &&& alg.all_finite(other[n].v)
        &&& other[n].v.len() == d_v
    } by {
        assert(other.contains(other[n]));
        assert(other.to_multiset().count(other[n]) > 0);
        assert(r.contains(other[n]));
        let m = choose|m: int| 0 <= m < r.len() && r[m] == other[n];
        assert(alg.finite(r[m].s));
    }
}

/// The record is finite and has a value of length `d_v`.
spec fn absorbable<T>(alg: Algebra<T>, d_v: nat, x: Record<T>) -> bool {
    alg.finite(x.s) && alg.all_finite(x.v) && x.v.len() == d_v
}

/// One step of a fold, guarded so that it is total.
#[verifier::opaque]
spec fn guarded<T>(
    alg: Algebra<T>,
    eps: Eps<T>,
    d_v: nat,
    acc: AccView<T>,
    x: Record<T>,
) -> AccView<T> {
    if acc.proper(alg, eps, d_v) && absorbable(alg, d_v, x) {
        acc.absorb(alg, eps, x.s, x.v)
    } else {
        acc
    }
}

/// Guarded steps commute.
proof fn guarded_commutes<T>(
    alg: Algebra<T>,
    eps: Eps<T>,
    d_v: nat,
    acc: AccView<T>,
    x: Record<T>,
    y: Record<T>,
)
    requires
        alg.exact(),
        alg.proper_eps(eps),
    ensures
        guarded(alg, eps, d_v, guarded(alg, eps, d_v, acc, x), y) == guarded(
            alg,
            eps,
            d_v,
            guarded(alg, eps, d_v, acc, y),
            x,
        ),
{
    reveal(guarded);
    if acc.proper(alg, eps, d_v) && absorbable(alg, d_v, x) && absorbable(alg, d_v, y) {
        absorb_loaded(alg, eps, acc, x.s, x.v);
        absorb_loaded(alg, eps, acc, y.s, y.v);
        absorb_commutes(alg, eps, acc, x.s, x.v, y.s, y.v);
    }
}

/// A fold of finite records is a fold of guarded steps.
proof fn absorb_all_guarded<T>(alg: Algebra<T>, eps: Eps<T>, r: Seq<Record<T>>, d_v: nat)
    requires
        alg.exact(),
        alg.proper_eps(eps),
        alg.finite_records(r, d_v),
    ensures
        AccView::absorb_all(alg, eps, d_v, r) == r.fold_left(
            AccView::fresh(alg, d_v),
            |acc: AccView<T>, x: Record<T>| guarded(alg, eps, d_v, acc, x),
        ),
        AccView::absorb_all(alg, eps, d_v, r).proper(alg, eps, d_v),
    decreases r.len(),
{
    if r.len() > 0 {
        reveal(guarded);
        init_finite(alg, r, d_v);
        absorb_all_guarded(alg, eps, r.drop_last(), d_v);
        absorb_loaded(
            alg,
            eps,
            AccView::absorb_all(alg, eps, d_v, r.drop_last()),
            r.last().s,
            r.last().v,
        );
    }
}

/// The values of the records stay between `lo` and `hi` in component `c`.
pub open spec fn within<T>(alg: Algebra<T>, r: Seq<Record<T>>, c: int, lo: T, hi: T) -> bool {
    forall|n: int|
        0 <= n < r.len() ==> {
            &&& alg.at_most(lo, (#[trigger] r[n]).v[c])
            &&& alg.at_most(r[n].v[c], hi)
        }
}

/// Counts are finite, and larger ones are larger.
proof fn count_bounds<T>(alg: Algebra<T>, n: usize, m: usize)
    requires
        alg.exact(),
        n <= m,
    ensures
        alg.finite(alg.count(n)),
        alg.finite(alg.count(m)),
        alg.at_most(alg.count(n), alg.count(m)),
        n > 0 ==> alg.gt(alg.count(n), alg.zero),
    decreases m,
{
    exact_constants(alg);
    exact_count(alg, 0, 1);
    if n == 0 && m == 0 {
        exact_compare(alg, alg.zero, alg.zero);
    } else if n < m {
        let l: usize = (m - 1) as usize;
        let x = alg.count(l);
        count_bounds(alg, n, l);
        exact_count(alg, l, m);
        exact_add(alg, x, alg.one, alg.zero);
        exact_compare(alg, x, x);
        exact_compare(alg, alg.zero, alg.one);
        at_most_add(alg, x, x, alg.zero, alg.one);
        at_most_transitive(alg, alg.count(n), x, alg.count(m));
    } else {
        let l: usize = (n - 1) as usize;
        let x = alg.count(l);
        count_bounds(alg, l, l);
        exact_count(alg, l, n);
        exact_add(alg, x, alg.one, alg.zero);
        exact_add(alg, alg.one, alg.zero, alg.zero);
        if l > 0 {
            exact_positive(alg, x, alg.one);
        }
        exact_compare(alg, alg.count(n), alg.count(n));
    }
}

/// The weights of records whose scores do not exceed the base sum up to at most their number,
/// and to at least one if some score is the base.
proof fn total_weight_bounds<T>(alg: Algebra<T>, e: T, base: T, r: Seq<Record<T>>, d_v: nat)
    requires
        alg.exact(),
        alg.proper_eps(Eps::Finite(e)),
        alg.finite(base),
        alg.finite_records(r, d_v),
        forall|n: int| 0 <= n < r.len() ==> alg.at_most((#[trigger] r[n]).s, base),
        r.len() <= usize::MAX,
    ensures
        alg.finite(alg.total_weight(e, base, r)),
        alg.at_most(alg.zero, alg.total_weight(e, base, r)),
        alg.at_most(alg.total_weight(e, base, r), alg.count(r.len() as usize)),
        (exists|n: int| 0 <= n < r.len() && (#[trigger] r[n]).s == base) ==> alg.at_most(
            alg.one,
            alg.total_weight(e, base, r),
        ),
    decreases r.len(),
{
    exact_constants(alg);
    exact_count(alg, 0, 1);
    exact_compare(alg, alg.zero, alg.zero);
    exact_compare(alg, alg.one, alg.one);
    exact_compare(alg, alg.zero, alg.one);
    if r.len() > 0 {
        init_finite(alg, r, d_v);
        let init = r.drop_last();
        assert forall|n: int| 0 <= n < init.len() implies alg.at_most(
            (#[trigger] init[n]).s,
            base,
        ) by {
            assert(alg.at_most(r[n].s, base));
        }
        total_weight_bounds(alg, e, base, init, d_v);
        let s = r.last().s;
        assert(r[r.len() - 1].s == s);
        let w = alg.weight(e, s, base);
        let t = alg.total_weight(e, base, init);
        exact_weight(alg, e, s, base, base);
        weight_at_most_one(alg, e, s, base);
        exact_compare(alg, w, alg.zero);
        exact_compare(alg, alg.zero, w);
        exact_add(alg, t, w, w);
        exact_add(alg, w, w, w);
        exact_add(alg, alg.one, alg.zero, alg.zero);
        exact_add(alg, alg.zero, alg.zero, alg.zero);
        count_bounds(alg, init.len() as usize, init.len() as usize);
        exact_count(alg, init.len() as usize, r.len() as usize);
        at_most_add(alg, t, alg.count(init.len() as usize), w, alg.one);
        at_most_add(alg, alg.zero, t, alg.zero, w);
        if exists|n: int| 0 <= n < r.len() && (#[trigger] r[n]).s == base {
            let n = choose|n: int| 0 <= n < r.len() && (#[trigger] r[n]).s == base;
            if n < init.len() {
                assert(init[n].s == base);
                at_most_add(alg, alg.one, t, alg.zero, w);
            } else {
                at_most_add(alg, alg.zero, t, alg.one, w);
                exact_add(alg, alg.zero, alg.one, alg.one);
            }
        }
    }
}

/// The record with the largest score is among those with that score, and these are all
/// among the records.
pub proof fn winners_among<T>(alg: Algebra<T>, base: T, r: Seq<Record<T>>, d_v: nat)
    requires
        alg.exact(),
        alg.finite_records(r, d_v),
        alg.finite(base),
    ensures
        alg.finite_records(alg.winners(base, r), d_v),
        forall|n: int|
            0 <= n < alg.winners(base, r).len() ==> r.contains(
                #[trigger] alg.winners(base, r)[n],
            ),
        (exists|n: int| 0 <= n < r.len() && (#[trigger] r[n]).s == base) ==> alg.winners(
            base,
            r,
        ).len() > 0,
    decreases r.len(),
{
    if r.len() > 0 {
        init_finite(alg, r, d_v);
        let init = r.drop_last();
        let last = r.last();
        let w = alg.winners(base, r);
        winners_among(alg, base, init, d_v);
        exact_compare(alg, last.s, base);
        assert(r[r.len() - 1] == last);
        assert forall|n: int| 0 <= n < w.len() implies r.contains(#[trigger] w[n]) by {
            if n < alg.winners(base, init).len() {
                assert(init.contains(alg.winners(base, init)[n]));
                let i = choose|i: int| 0 <= i < init.len() && init[i] == w[n];
                assert(r[i] == w[n]);
            }
        }
        if exists|n: int| 0 <= n < r.len() && (#[trigger] r[n]).s == base {
            let n = choose|n: int| 0 <= n < r.len() && (#[trigger] r[n]).s == base;
            if n < init.len() {
                assert(init[n].s == base);
            }
        }
    }
}

/// Bounds on the normaliser: after at least one finite record it lies between one and the
/// number of records, at every temperature.
pub proof fn normaliser_bounds<T>(alg: Algebra<T>, eps: Eps<T>, r: Seq<Record<T>>, d_v: nat)
    requires
        alg.exact(),
        alg.proper_eps(eps),
        alg.finite_records(r, d_v),
        0 < r.len() <= usize::MAX,
    ensures
        alg.at_most(alg.one, AccView::absorb_all(alg, eps, d_v, r).z),
        alg.at_most(AccView::absorb_all(alg, eps, d_v, r).z, alg.count(r.len() as usize)),
{
    accumulated(alg, eps, r, d_v);
    best_is_maximum(alg, r, d_v);
    exact_constants(alg);
    exact_count(alg, 0, 1);
    exact_add(alg, alg.one, alg.zero, alg.zero);
    let m = alg.best(r);
    match eps {
        Eps::Zero => {
            let w = alg.winners(m, r);
            winners_count(alg, m, r);
            winners_among(alg, m, r, d_v);
            count_bounds(alg, 1, w.len() as usize);
            count_bounds(alg, w.len() as usize, r.len() as usize);
        },
        Eps::Finite(e) => total_weight_bounds(alg, e, m, r, d_v),
        Eps::Inf => {
            count_bounds(alg, 1, r.len() as usize);
            count_bounds(alg, r.len() as usize, r.len() as usize);
        },
    }
}

/// What an accumulator holds after at least one finite record at a finite temperature: the
/// largest score, the sum of the exponential weights relative to it, which lies between one
/// and the number of records, and the weighted sum of the values.
pub proof fn softmax_accumulator<T>(alg: Algebra<T>, e: T, r: Seq<Record<T>>, d_v: nat)
    requires
        alg.exact(),
        alg.proper_eps(Eps::Finite(e)),
        alg.finite_records(r, d_v),
        0 < r.len() <= usize::MAX,
    ensures
        ({
            let acc = AccView::absorb_all(alg, Eps::Finite(e), d_v, r);
            &&& exists|n: int| 0 <= n < r.len() && (#[trigger] r[n]).s == acc.mu
            &&& forall|n: int| 0 <= n < r.len() ==> alg.at_most((#[trigger] r[n]).s, acc.mu)
            &&& acc.z == alg.total_weight(e, acc.mu, r)
            &&& alg.at_most(alg.one, acc.z)
            &&& alg.at_most(acc.z, alg.count(r.len() as usize))
            &&& acc.u == alg.weighted_value(e, acc.mu, r, d_v)
            &&& acc.u.len() == d_v
        }),
{
    accumulated(alg, Eps::Finite(e), r, d_v);
    best_is_maximum(alg, r, d_v);
    normaliser_bounds(alg, Eps::Finite(e), r, d_v);
}

/// A component of a weighted sum of values between `lo` and `hi` lies between `lo` and `hi`
/// times the sum of the weights.
proof fn weighted_bounds<T>(
    alg: Algebra<T>,
    e: T,
    base: T,
    r: Seq<Record<T>>,
    d_v: nat,
    c: int,
    lo: T,
    hi: T,
)
    requires
        alg.exact(),
        alg.proper_eps(Eps::Finite(e)),
        alg.finite(base),
        alg.finite_records(r, d_v),
        0 <= c < d_v,
        alg.finite(lo),
        alg.finite(hi),
        within(alg, r, c, lo, hi),
    ensures
        ({
            let z = alg.total_weight(e, base, r);
            let u = alg.weighted_value(e, base, r, d_v)[c];
            alg.at_most(alg.mul(lo, z), u) && alg.at_most(u, alg.mul(hi, z))
        }),
    decreases r.len(),
{
    exact_constants(alg);
    exact_mul(alg, lo, alg.zero, alg.zero);
    exact_mul(alg, hi, alg.zero, alg.zero);
    exact_mul(alg, alg.zero, lo, lo);
    exact_mul(alg, alg.zero, hi, hi);
    exact_compare(alg, alg.zero, alg.zero);
    if r.len() > 0 {
        init_finite(alg, r, d_v);
        let init = r.drop_last();
        assert(within(alg, init, c, lo, hi)) by {
            assert forall|n: int| 0 <= n < init.len() implies {
                &&& alg.at_most(lo, (#[trigger] init[n]).v[c])
                &&& alg.at_most(init[n].v[c], hi)
            } by {
                assert(init[n] == r[n]);
            }
        }
        weighted_bounds(alg, e, base, init, d_v, c, lo, hi);
        sums_finite(alg, e, base, init, d_v);
        assert(r[r.len() - 1] == r.last());
        let w = alg.weight(e, r.last().s, base);
        let x = r.last().v[c];
        let z = alg.total_weight(e, base, init);
        let u = alg.weighted_value(e, base, init, d_v)[c];
        exact_weight(alg, e, r.last().s, base, base);
        bounds_step(alg, lo, z, u, hi, x, w);
        exact_mul(alg, w, x, x);
    }
}

/// One term more keeps a sum between its bounds.
proof fn bounds_step<T>(alg: Algebra<T>, lo: T, z: T, u: T, hi: T, x: T, w: T)
    requires
        alg.exact(),
        alg.finite(lo),
        alg.finite(z),
        alg.finite(u),
        alg.finite(hi),
        alg.finite(x),
        alg.finite(w),
        alg.gt(w, alg.zero),
        alg.at_most(alg.mul(lo, z), u),
        alg.at_most(u, alg.mul(hi, z)),
        alg.at_most(lo, x),
        alg.at_most(x, hi),
    ensures
        alg.at_most(alg.mul(lo, alg.add(z, w)), alg.add(u, alg.mul(x, w))),
        alg.at_most(alg.add(u, alg.mul(x, w)), alg.mul(hi, alg.add(z, w))),
{
    exact_mul(alg, x, w, w);
    term_bound(alg, lo, z, u, x, w);
    exact_mul(alg, hi, z, z);
    exact_mul(alg, hi, w, w);
    exact_mul(alg, z, w, hi);
    exact_mul(alg, w, hi, hi);
    exact_mul(alg, z, hi, hi);
    exact_add(alg, z, w, w);
    exact_mul(alg, alg.add(z, w), hi, hi);
    at_most_mul(alg, x, hi, w);
    at_most_add(alg, u, alg.mul(hi, z), alg.mul(x, w), alg.mul(hi, w));
}

/// The lower half of [`bounds_step`].
proof fn term_bound<T>(alg: Algebra<T>, lo: T, z: T, u: T, x: T, w: T)
    requires
        alg.exact(),
        alg.finite(lo),
        alg.finite(z),
        alg.finite(u),
        alg.finite(x),
        alg.finite(w),
        alg.gt(w, alg.zero),
        alg.at_most(alg.mul(lo, z), u),
        alg.at_most(lo, x),
    ensures
        alg.at_most(alg.mul(lo, alg.add(z, w)), alg.add(u, alg.mul(x, w))),
{
    exact_mul(alg, x, w, w);
    exact_mul(alg, lo, z, z);
    exact_mul(alg, lo, w, w);
    exact_mul(alg, z, w, lo);
    exact_mul(alg, w, lo, lo);
    exact_mul(alg, z, lo, lo);
    exact_add(alg, z, w, w);
    exact_mul(alg, alg.add(z, w), lo, lo);
    at_most_mul(alg, lo, x, w);
    at_most_add(alg, alg.mul(lo, z), u, alg.mul(lo, w), alg.mul(x, w));
}

/// A component of a sum of values between `lo` and `hi` lies between `lo` and `hi` times
/// their number.
proof fn unit_bounds<T>(
    alg: Algebra<T>,
    r: Seq<Record<T>>,
    d_v: nat,
    c: int,
    lo: T,
    hi: T,
)
    requires
        alg.exact(),
        alg.finite_records(r, d_v),
        0 <= c < d_v,
        alg.finite(lo),
        alg.finite(hi),
        within(alg, r, c, lo, hi),
        r.len() <= usize::MAX,
    ensures
        ({
            let z = alg.count(r.len() as usize);
            let u = alg.unit_sum(r, d_v)[c];
            &&& alg.finite(u)
            &&& alg.at_most(alg.mul(lo, z), u)
            &&& alg.at_most(u, alg.mul(hi, z))
        }),
    decreases r.len(),
{
    exact_constants(alg);
    exact_count(alg, 0, 1);
    exact_mul(alg, lo, alg.zero, alg.zero);
    exact_mul(alg, hi, alg.zero, alg.zero);
    exact_mul(alg, alg.zero, lo, lo);
    exact_mul(alg, alg.zero, hi, hi);
    exact_compare(alg, alg.zero, alg.zero);
    unit_sum_len(alg, r, d_v);
    if r.len() > 0 {
        init_finite(alg, r, d_v);
        let init = r.drop_last();
        assert(within(alg, init, c, lo, hi)) by {
            assert forall|n: int| 0 <= n < init.len() implies {
                &&& alg.at_most(lo, (#[trigger] init[n]).v[c])
                &&& alg.at_most(init[n].v[c], hi)
            } by {
                assert(init[n] == r[n]);
            }
        }
        unit_bounds(alg, init, d_v, c, lo, hi);
        unit_sum_len(alg, init, d_v);
        assert(r[r.len() - 1] == r.last());
        let x = r.last().v[c];
        let z = alg.count(init.len() as usize);
        let u = alg.unit_sum(init, d_v)[c];
        count_bounds(alg, init.len() as usize, init.len() as usize);
        exact_count(alg, init.len() as usize, r.len() as usize);
        bounds_step(alg, lo, z, u, hi, x, alg.one);
        exact_mul(alg, alg.one, x, x);
        exact_mul(alg, x, alg.one, alg.one);
        exact_add(alg, u, x, x);
    }
}

/// The quotient of a sum that lies between bounds times a positive scalar by that scalar lies
/// between the bounds.
proof fn quotient_bounds<T>(alg: Algebra<T>, lo: T, z: T, u: T, hi: T)
    requires
        alg.exact(),
        alg.finite(lo),
        alg.finite(z),
        alg.finite(u),
        alg.finite(hi),
        alg.gt(z, alg.zero),
        alg.at_most(alg.mul(lo, z), u),
        alg.at_most(u, alg.mul(hi, z)),
    ensures
        alg.at_most(lo, alg.div(u, z)),
        alg.at_most(alg.div(u, z), hi),
{
    exact_mul(alg, lo, z, z);
    exact_mul(alg, hi, z, z);
    at_most_div(alg, lo, lo, z);
    at_most_div(alg, hi, hi, z);
    at_most_div(alg, alg.mul(lo, z), u, z);
    at_most_div(alg, u, alg.mul(hi, z), z);
}

/// The output is a mean: where the values of the absorbed records stay between two bounds in
/// a component, so does the output row.
pub proof fn output_bounds<T>(
    alg: Algebra<T>,
    eps: Eps<T>,
    r: Seq<Record<T>>,
    d_v: nat,
    c: int,
    lo: T,
    hi: T,
)
    requires
        alg.exact(),
        alg.proper_eps(eps),
        alg.finite_records(r, d_v),
        0 < r.len() <= usize::MAX,
        0 <= c < d_v,
        alg.finite(lo),
        alg.finite(hi),
        within(alg, r, c, lo, hi),
    ensures
        AccView::absorb_all(alg, eps, d_v, r).finalize(alg) matches Some(row) && {
            &&& alg.at_most(lo, row[c])
            &&& alg.at_most(row[c], hi)
        },
{
    accumulated(alg, eps, r, d_v);
    best_is_maximum(alg, r, d_v);
    let acc = alg.summary(eps, r, d_v);
    proper_emptiness(alg, eps, d_v, acc);
    let m = alg.best(r);
    match eps {
        Eps::Zero => {
            let w = alg.winners(m, r);
            winners_among(alg, m, r, d_v);
            winners_count(alg, m, r);
            assert(within(alg, w, c, lo, hi)) by {
                assert forall|n: int| 0 <= n < w.len() implies {
                    &&& alg.at_most(lo, (#[trigger] w[n]).v[c])
                    &&& alg.at_most(w[n].v[c], hi)
                } by {
                    assert(r.contains(w[n]));
                    let i = choose|i: int| 0 <= i < r.len() && r[i] == w[n];
                    assert(alg.at_most(lo, r[i].v[c]));
                }
            }
            unit_bounds(alg, w, d_v, c, lo, hi);
        },
        Eps::Finite(e) => weighted_bounds(alg, e, m, r, d_v, c, lo, hi),
        Eps::Inf => unit_bounds(alg, r, d_v, c, lo, hi),
    }
    quotient_bounds(alg, lo, acc.z, acc.u[c], hi);
}

/// A record whose value is least in component `c`, and one whose value is greatest.
proof fn extreme_values<T>(alg: Algebra<T>, r: Seq<Record<T>>, d_v: nat, c: int) -> (ends: (
    int,
    int,
))
    requires
        alg.exact(),
        alg.finite_records(r, d_v),
        r.len() > 0,
        0 <= c < d_v,
    ensures
        0 <= ends.0 < r.len(),
        0 <= ends.1 < r.len(),
        within(alg, r, c, r[ends.0].v[c], r[ends.1].v[c]),
    decreases r.len(),
{
    init_finite(alg, r, d_v);
    let init = r.drop_last();
    let last = r.len() - 1;
    let x = r.last().v[c];
    assert(r[last] == r.last());
    exact_compare(alg, x, x);
    if init.len() == 0 {
        (0, 0)
    } else {
        let (i, j) = extreme_values(alg, init, d_v, c);
        let (lo, hi) = (init[i].v[c], init[j].v[c]);
        assert(init[i] == r[i] && init[j] == r[j]);
        exact_compare(alg, lo, x);
        exact_compare(alg, hi, x);
        exact_compare(alg, x, hi);
        let a = if alg.gt(lo, x) {
            last
        } else {
            i
        };
        let b = if alg.gt(x, hi) {
            last
        } else {
            j
        };
        assert forall|n: int| 0 <= n < r.len() implies {
            &&& alg.at_most(r[a].v[c], (#[trigger] r[n]).v[c])
            &&& alg.at_most(r[n].v[c], r[b].v[c])
        } by {
            if n < last {
                let y = init[n].v[c];
                assert(init[n] == r[n]);
                if a == last {
                    at_most_transitive(alg, x, lo, y);
                }
                if b == last {
                    at_most_transitive(alg, y, hi, x);
                }
            }
        }
        (a, b)
    }
}

/// What an accumulator gives out: nothing iff it absorbed nothing; otherwise `u / z`, a row
/// whose components each lie between the least and the greatest absorbed value.
pub proof fn finalized_row<T>(alg: Algebra<T>, eps: Eps<T>, r: Seq<Record<T>>, d_v: nat)
    requires
        alg.exact(),
        alg.proper_eps(eps),
        alg.finite_records(r, d_v),
        r.len() <= usize::MAX,
    ensures
        ({
            let acc = AccView::absorb_all(alg, eps, d_v, r);
            match acc.finalize(alg) {
                None => r.len() == 0,
                Some(row) => {
                    &&& r.len() > 0
                    &&& row.len() == d_v
                    &&& forall|c: int|
                        0 <= c < d_v ==> #[trigger] row[c] == alg.div(acc.u[c], acc.z)
                    &&& forall|c: int|
                        0 <= c < d_v ==> between_values(alg, r, c, #[trigger] row[c])
                },
            }
        }),
{
    let acc = AccView::absorb_all(alg, eps, d_v, r);
    proper_emptiness(alg, eps, d_v, acc);
    if r.len() > 0 {
        accumulated(alg, eps, r, d_v);
        let row = alg.vdiv(acc.u, acc.z);
        assert forall|c: int| 0 <= c < d_v implies between_values(alg, r, c, #[trigger] row[c]) by {
            let (i, j) = extreme_values(alg, r, d_v, c);
            let (lo, hi) = (r[i].v[c], r[j].v[c]);
            assert(alg.all_finite(r[i].v) && alg.all_finite(r[j].v));
            output_bounds(alg, eps, r, d_v, c, lo, hi);
        }
    }
}

/// `x` lies between the least and the greatest value of the records in component `c`.
pub open spec fn between_values<T>(alg: Algebra<T>, r: Seq<Record<T>>, c: int, x: T) -> bool {
    exists|i: int, j: int|
        {
            &&& 0 <= i < r.len()
            &&& 0 <= j < r.len()
            &&& within(alg, r, c, (#[trigger] r[i]).v[c], (#[trigger] r[j]).v[c])
            &&& alg.at_most(r[i].v[c], x)
            &&& alg.at_most(x, r[j].v[c])
        }
}

/// The attention is a mean: each of its components lies between the least and the greatest
/// value of the records.
pub proof fn attention_between<T>(
    alg: Algebra<T>,
    eps: Eps<T>,
    r: Seq<Record<T>>,
    d_v: nat,
    c: int,
)
    requires
        alg.exact(),
        alg.proper_eps(eps),
        alg.finite_records(r, d_v),
        0 < r.len() <= usize::MAX,
        0 <= c < d_v,
    ensures
        between_values(alg, r, c, alg.attention(eps, r, d_v)[c]),
{
    finalized_row(alg, eps, r, d_v);
    accumulated_output(alg, eps, r, d_v);
}

/// Masked attention gives means: each component of the output row of a query that some pair
/// mentions lies between the least and the greatest value that the query attends to.
pub proof fn masked_row_between<T>(
    p: Attend<T>,
    pairs: Seq<(usize, usize)>,
    accs: Seq<AccView<T>>,
    i: int,
    c: int,
)
    requires
        p.exact(),
        p.all_in_range(pairs),
        pairs.len() <= usize::MAX,
        p.outcome(pairs, accs),
        0 <= i < p.q.rows.len(),
        mentions(pairs, i),
        0 <= c < p.v.ncols,
    ensures
        between_values(p.alg, p.row_records(pairs, i), c, p.output(accs)[i][c]),
{
    outcome_is_fold(p, pairs, accs);
    fold_by_rows(p, pairs, i);
    row_records_mentioned(p, pairs, i);
    row_records_finite(p, pairs, i);
    finalized_row(p.alg, p.eps, p.row_records(pairs, i), p.v.ncols);
}

} // verus!
