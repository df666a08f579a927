//! What scores, weights and attention are, as formulas over the caller's operations.
//!
//! Unless they say otherwise these laws hold of every arithmetic, to the last bit.
use crate::accum::AccView;
use crate::arith::{Algebra, Eps, Sim, Term, Test};
use crate::closed_form::{fold_by_rows, unit_sum_len};
use crate::mask::{chunk_size, chunks_of, Attend, MergeTree, PAIR_PARALLEL_THRESHOLD};
use crate::matrix::MatrixView;
use crate::model::MemoryView;
use crate::query_laws::attention_len;
use crate::records::Record;
use vstd::prelude::*;

verus! {

/// Sum of the terms, from the left, starting at zero.
pub open spec fn total<T>(alg: Algebra<T>, terms: Seq<T>) -> T {
    terms.fold_left(alg.zero, |a: T, b: T| (alg.term)(Term::Add(a, b)))
}

/// A sum is the left fold of addition over its terms.
pub proof fn total_is_left_fold<T>(alg: Algebra<T>, terms: Seq<T>, last: T)
    ensures
        total(alg, terms) == terms.fold_left(
            alg.zero,
            |a: T, b: T| (alg.term)(Term::Add(a, b)),
        ),
        total(alg, Seq::empty()) == alg.zero,
        total(alg, terms.push(last)) == (alg.term)(Term::Add(total(alg, terms), last)),
{
    assert(terms.push(last).drop_last() =~= terms);
}

/// Square of the difference in coordinate `i`.
pub open spec fn square<T>(alg: Algebra<T>, x: Seq<T>, k: Seq<T>, i: int) -> T {
    let d = (alg.term)(Term::Sub(x[i], k[i]));
    (alg.term)(Term::Mul(d, d))
}

/// The squared distance is the sum of the squared differences of the coordinates.
proof fn distance_formula<T>(alg: Algebra<T>, x: Seq<T>, k: Seq<T>, n: nat)
    ensures
        alg.squared_distance(x, k, n) == total(
            alg,
            Seq::new(n, |i: int| square(alg, x, k, i)),
        ),
    decreases n,
{
    let terms = Seq::new(n, |i: int| square(alg, x, k, i));
    if n > 0 {
        let init = Seq::new((n - 1) as nat, |i: int| square(alg, x, k, i));
        distance_formula(alg, x, k, (n - 1) as nat);
        assert(terms.drop_last() =~= init);
    }
}

/// The three similarities: the inner product; minus one half times the sum over the
/// coordinates of `(x[i] - k[i]) * (x[i] - k[i])`; and zero or minus infinity as that sum
/// equals zero or not.
pub proof fn similarity_formulas<T>(alg: Algebra<T>, x: Seq<T>, k: Seq<T>)
    ensures
        alg.similarity(Sim::Dot, x, k) == (alg.inner)(x, k),
        alg.similarity(Sim::NegSquared, x, k) == (alg.term)(
            Term::Mul(
                alg.neg_half,
                Seq::new(
                    x.len(),
                    |i: int|
                        (alg.term)(
                            Term::Mul(
                                (alg.term)(Term::Sub(x[i], k[i])),
                                (alg.term)(Term::Sub(x[i], k[i])),
                            ),
                        ),
                ).fold_left(alg.zero, |a: T, b: T| (alg.term)(Term::Add(a, b))),
            ),
        ),
        alg.similarity(Sim::Indicator, x, k) == if (alg.test)(
            Test::Equal(
                Seq::new(
                    x.len(),
                    |i: int|
                        (alg.term)(
                            Term::Mul(
                                (alg.term)(Term::Sub(x[i], k[i])),
                                (alg.term)(Term::Sub(x[i], k[i])),
                            ),
                        ),
                ).fold_left(alg.zero, |a: T, b: T| (alg.term)(Term::Add(a, b))),
                alg.zero,
            ),
        ) {
            alg.zero
        } else {
            alg.neg_infinity
        },
{
    distance_formula(alg, x, k, x.len());
    let squares = Seq::new(x.len(), |i: int| square(alg, x, k, i));
    assert(squares =~= Seq::new(
        x.len(),
        |i: int|
            (alg.term)(
                Term::Mul(
                    (alg.term)(Term::Sub(x[i], k[i])),
                    (alg.term)(Term::Sub(x[i], k[i])),
                ),
            ),
    ));
}

/// The exponential weight of the score `s` relative to `base`.
pub open spec fn exponential<T>(alg: Algebra<T>, e: T, s: T, base: T) -> T {
    (alg.term)(Term::Exp((alg.term)(Term::Div((alg.term)(Term::Sub(s, base)), e))))
}

/// The largest score is found from the left, starting at minus infinity.
pub proof fn best_formula<T>(alg: Algebra<T>, r: Seq<Record<T>>)
    ensures
        alg.best(r) == r.fold_left(
            alg.neg_infinity,
            |m: T, x: Record<T>|
                if (alg.test)(Test::Greater(x.s, m)) {
                    x.s
                } else {
                    m
                },
        ),
    decreases r.len(),
{
    if r.len() > 0 {
        best_formula(alg, r.drop_last());
    }
}

/// The records with the score `base` are those whose score equals it and is finite.
pub proof fn winners_formula<T>(alg: Algebra<T>, base: T, r: Seq<Record<T>>)
    ensures
        alg.winners(base, r) == r.filter(
            |x: Record<T>|
                (alg.test)(Test::Equal(x.s, base)) && (alg.test)(Test::Finite(x.s)),
        ),
    decreases r.len(),
{
    reveal(Seq::filter);
    if r.len() > 0 {
        winners_formula(alg, base, r.drop_last());
    }
}

/// The sum of the weights.
proof fn weight_formula<T>(alg: Algebra<T>, e: T, base: T, r: Seq<Record<T>>)
    ensures
        alg.total_weight(e, base, r) == total(
            alg,
            Seq::new(r.len(), |t: int| exponential(alg, e, r[t].s, base)),
        ),
    decreases r.len(),
{
    let terms = Seq::new(r.len(), |t: int| exponential(alg, e, r[t].s, base));
    if r.len() > 0 {
        let init = r.drop_last();
        weight_formula(alg, e, base, init);
        assert(terms.drop_last() =~= Seq::new(
            init.len(),
            |t: int| exponential(alg, e, init[t].s, base),
        ));
    }
}

/// A component of the weighted sum of the values.
proof fn weighted_formula<T>(
    alg: Algebra<T>,
    e: T,
    base: T,
    r: Seq<Record<T>>,
    d_v: nat,
    c: int,
)
    requires
        0 <= c < d_v,
    ensures
        alg.weighted_value(e, base, r, d_v).len() == d_v,
        alg.weighted_value(e, base, r, d_v)[c] == total(
            alg,
            Seq::new(
                r.len(),
                |t: int|
                    (alg.term)(Term::Mul(exponential(alg, e, r[t].s, base), r[t].v[c])),
            ),
        ),
    decreases r.len(),
{
    let terms = Seq::new(
        r.len(),
        |t: int| (alg.term)(Term::Mul(exponential(alg, e, r[t].s, base), r[t].v[c])),
    );
    if r.len() > 0 {
        let init = r.drop_last();
        weighted_formula(alg, e, base, init, d_v, c);
        assert(terms.drop_last() =~= Seq::new(
            init.len(),
            |t: int|
                (alg.term)(Term::Mul(exponential(alg, e, init[t].s, base), init[t].v[c])),
        ));
    }
}

/// A component of the sum of the values.
pub proof fn unit_formula<T>(alg: Algebra<T>, r: Seq<Record<T>>, d_v: nat, c: int)
    requires
        0 <= c < d_v,
    ensures
        alg.unit_sum(r, d_v)[c] == total(
            alg,
            Seq::new(r.len(), |t: int| (alg.term)(Term::Mul(alg.one, r[t].v[c]))),
        ),
    decreases r.len(),
{
    let terms = Seq::new(r.len(), |t: int| (alg.term)(Term::Mul(alg.one, r[t].v[c])));
    unit_sum_len(alg, r, d_v);
    if r.len() > 0 {
        let init = r.drop_last();
        unit_sum_len(alg, init, d_v);
        unit_formula(alg, init, d_v, c);
        assert(terms.drop_last() =~= Seq::new(
            init.len(),
            |t: int| (alg.term)(Term::Mul(alg.one, init[t].v[c])),
        ));
    }
}

/// A component of the softmax mean: the sum of `exp((s - base) / e) * v[c]` over the sum of
/// `exp((s - base) / e)`.
pub open spec fn softmax_component<T>(
    alg: Algebra<T>,
    e: T,
    base: T,
    r: Seq<Record<T>>,
    c: int,
) -> T {
    let weights = Seq::new(
        r.len(),
        |t: int|
            (alg.term)(Term::Exp((alg.term)(Term::Div((alg.term)(Term::Sub(r[t].s, base)), e)))),
    );
    let add = |a: T, b: T| (alg.term)(Term::Add(a, b));
    (alg.term)(
        Term::Div(
            Seq::new(
                r.len(),
                |t: int| (alg.term)(Term::Mul(weights[t], r[t].v[c])),
            ).fold_left(alg.zero, add),
            weights.fold_left(alg.zero, add),
        ),
    )
}

/// A component of the plain mean of the values.
pub open spec fn mean_component<T>(alg: Algebra<T>, r: Seq<Record<T>>, c: int) -> T {
    (alg.term)(
        Term::Div(
            Seq::new(r.len(), |t: int| (alg.term)(Term::Mul(alg.one, r[t].v[c]))).fold_left(
                alg.zero,
                |a: T, b: T| (alg.term)(Term::Add(a, b)),
            ),
            (alg.term)(Term::Count(r.len() as usize)),
        ),
    )
}

/// What the attention over records is, component by component. At zero temperature: the mean
/// of the values of the records whose score is the largest and finite, and zero if there is
/// none. At a finite temperature, and at infinity with an infinite one: the softmax mean,
/// shifted by the largest score.
pub proof fn attention_formula<T>(
    alg: Algebra<T>,
    eps: Eps<T>,
    r: Seq<Record<T>>,
    d_v: nat,
    c: int,
)
    requires
        0 <= c < d_v,
    ensures
        alg.attention(eps, r, d_v).len() == d_v,
        ({
            let top = r.fold_left(
                alg.neg_infinity,
                |m: T, x: Record<T>|
                    if (alg.test)(Test::Greater(x.s, m)) {
                        x.s
                    } else {
                        m
                    },
            );
            let winners = r.filter(
                |x: Record<T>|
                    (alg.test)(Test::Equal(x.s, top)) && (alg.test)(Test::Finite(x.s)),
            );
            alg.attention(eps, r, d_v)[c] == match eps {
                Eps::Zero => if winners.len() == 0 {
                    alg.zero
                } else {
                    mean_component(alg, winners, c)
                },
                Eps::Finite(e) => softmax_component(alg, e, top, r, c),
                Eps::Inf => softmax_component(alg, alg.infinity, top, r, c),
            }
        }),
{
    let top = alg.best(r);
    let w = alg.winners(top, r);
    attention_len(alg, eps, r, d_v);
    best_formula(alg, r);
    winners_formula(alg, top, r);
    unit_sum_len(alg, w, d_v);
    unit_formula(alg, w, d_v, c);
    match eps {
        Eps::Zero => {},
        Eps::Finite(e) => softmax_sums(alg, e, top, r, d_v, c),
        Eps::Inf => softmax_sums(alg, alg.infinity, top, r, d_v, c),
    }
}

/// The sums of a softmax mean.
pub proof fn softmax_sums<T>(
    alg: Algebra<T>,
    e: T,
    base: T,
    r: Seq<Record<T>>,
    d_v: nat,
    c: int,
)
    requires
        0 <= c < d_v,
    ensures
        alg.div(
            alg.weighted_value(e, base, r, d_v)[c],
            alg.total_weight(e, base, r),
        ) == softmax_component(alg, e, base, r, c),
        alg.weighted_value(e, base, r, d_v).len() == d_v,
{
    weight_formula(alg, e, base, r);
    weighted_formula(alg, e, base, r, d_v, c);
    let weights = Seq::new(
        r.len(),
        |t: int|
            (alg.term)(Term::Exp((alg.term)(Term::Div((alg.term)(Term::Sub(r[t].s, base)), e)))),
    );
    assert(weights =~= Seq::new(r.len(), |t: int| exponential(alg, e, r[t].s, base)));
    assert(Seq::new(r.len(), |t: int| (alg.term)(Term::Mul(weights[t], r[t].v[c])))
        =~= Seq::new(
        r.len(),
        |t: int| (alg.term)(Term::Mul(exponential(alg, e, r[t].s, base), r[t].v[c])),
    ));
}

/// The two means, written out.
pub proof fn mean_formulas<T>(alg: Algebra<T>, e: T, base: T, r: Seq<Record<T>>, c: int)
    ensures
        softmax_component(alg, e, base, r, c) == (alg.term)(
            Term::Div(
                Seq::new(
                    r.len(),
                    |t: int|
                        (alg.term)(
                            Term::Mul(
                                (alg.term)(
                                    Term::Exp(
                                        (alg.term)(
                                            Term::Div((alg.term)(Term::Sub(r[t].s, base)), e),
                                        ),
                                    ),
                                ),
                                r[t].v[c],
                            ),
                        ),
                ).fold_left(alg.zero, |a: T, b: T| (alg.term)(Term::Add(a, b))),
                Seq::new(
                    r.len(),
                    |t: int|
                        (alg.term)(
                            Term::Exp(
                                (alg.term)(Term::Div((alg.term)(Term::Sub(r[t].s, base)), e)),
                            ),
                        ),
                ).fold_left(alg.zero, |a: T, b: T| (alg.term)(Term::Add(a, b))),
            ),
        ),
        mean_component(alg, r, c) == (alg.term)(
            Term::Div(
                Seq::new(
                    r.len(),
                    |t: int| (alg.term)(Term::Mul(alg.one, r[t].v[c])),
                ).fold_left(alg.zero, |a: T, b: T| (alg.term)(Term::Add(a, b))),
                (alg.term)(Term::Count(r.len() as usize)),
            ),
        ),
{
    let weights = Seq::new(
        r.len(),
        |t: int|
            (alg.term)(Term::Exp((alg.term)(Term::Div((alg.term)(Term::Sub(r[t].s, base)), e)))),
    );
    assert(Seq::new(r.len(), |t: int| (alg.term)(Term::Mul(weights[t], r[t].v[c])))
        =~= Seq::new(
        r.len(),
        |t: int|
            (alg.term)(
                Term::Mul(
                    (alg.term)(
                        Term::Exp(
                            (alg.term)(Term::Div((alg.term)(Term::Sub(r[t].s, base)), e)),
                        ),
                    ),
                    r[t].v[c],
                ),
            ),
    ));
}

/// The records that a query ranges over: one for each live row in insertion order, with the
/// similarity of the query and the key as score.
pub proof fn query_records<T>(
    m: MemoryView<T>,
    alg: Algebra<T>,
    sim: Sim,
    x: Seq<T>,
    ids: Seq<Seq<char>>,
)
    ensures
        m.records(alg, sim, x, ids) == ids.filter(
            |id: Seq<char>| m.rows.contains_key(id) && !m.rows[id].deleted,
        ).map_values(
            |id: Seq<char>|
                Record { s: alg.similarity(sim, x, m.rows[id].k), v: m.rows[id].v },
        ),
    decreases ids.len(),
{
    reveal(Seq::filter);
    let live = |id: Seq<char>| m.rows.contains_key(id) && !m.rows[id].deleted;
    let rec = |id: Seq<char>|
        Record { s: alg.similarity(sim, x, m.rows[id].k), v: m.rows[id].v };
    if ids.len() > 0 {
        query_records(m, alg, sim, x, ids.drop_last());
    }
    assert(m.records(alg, sim, x, ids) =~= ids.filter(live).map_values(rec));
}

/// What a query answers: nothing if its length is not that of the keys or no row is live,
/// and otherwise the attention over the live rows.
pub proof fn query_formula<T>(
    m: MemoryView<T>,
    alg: Algebra<T>,
    eps: Eps<T>,
    sim: Sim,
    x: Seq<T>,
)
    ensures
        ({
            let r = m.order.filter(
                |id: Seq<char>| m.rows.contains_key(id) && !m.rows[id].deleted,
            ).map_values(
                |id: Seq<char>|
                    Record { s: alg.similarity(sim, x, m.rows[id].k), v: m.rows[id].v },
            );
            m.attend(alg, eps, sim, x) == if x.len() != m.d_k || r.len() == 0 {
                None::<Seq<T>>
            } else {
                Some(alg.attention(eps, r, m.d_v))
            }
        }),
{
    query_records(m, alg, sim, x, m.order);
}

/// The records of a row of a mask: one for each of its pairs `(i, j)`, with the inner product
/// of query `i` and key `j` as score and the value row `j` as value.
pub proof fn mask_records<T>(p: Attend<T>, pairs: Seq<(usize, usize)>, i: int)
    ensures
        p.row_records(pairs, i) == pairs.filter(
            |x: (usize, usize)| x.0 == i,
        ).map_values(
            |x: (usize, usize)|
                Record {
                    s: (p.alg.inner)(p.q.rows[x.0 as int], p.k.rows[x.1 as int]),
                    v: p.v.rows[x.1 as int],
                },
        ),
    decreases pairs.len(),
{
    reveal(Seq::filter);
    let own = |x: (usize, usize)| x.0 == i;
    let rec = |x: (usize, usize)|
        Record {
            s: (p.alg.inner)(p.q.rows[x.0 as int], p.k.rows[x.1 as int]),
            v: p.v.rows[x.1 as int],
        };
    if pairs.len() > 0 {
        mask_records(p, pairs.drop_last(), i);
    }
    assert(p.row_records(pairs, i) =~= pairs.filter(own).map_values(rec));
}

/// Absorbing records one after the other is a left fold.
pub proof fn absorb_all_formula<T>(
    alg: Algebra<T>,
    eps: Eps<T>,
    d_v: nat,
    r: Seq<Record<T>>,
)
    ensures
        AccView::absorb_all(alg, eps, d_v, r) == r.fold_left(
            AccView {
                mu: alg.neg_infinity,
                z: alg.zero,
                u: Seq::new(d_v, |c: int| alg.zero),
            },
            |acc: AccView<T>, x: Record<T>| acc.absorb(alg, eps, x.s, x.v),
        ),
    decreases r.len(),
{
    if r.len() > 0 {
        absorb_all_formula(alg, eps, d_v, r.drop_last());
    }
}

/// A fold of a stream is a left fold in which the pair `(i, j)` makes row `i` absorb the
/// inner product of query `i` and key `j` with the value row `j`, whatever the number of
/// queries.
pub proof fn fold_formula<T>(p: Attend<T>, pairs: Seq<(usize, usize)>)
    ensures
        p.fold(pairs) == pairs.fold_left(
            Seq::new(
                p.q.rows.len(),
                |i: int|
                    AccView {
                        mu: p.alg.neg_infinity,
                        z: p.alg.zero,
                        u: Seq::new(p.v.ncols, |c: int| p.alg.zero),
                    },
            ),
            |accs: Seq<AccView<T>>, x: (usize, usize)|
                accs.update(
                    x.0 as int,
                    accs[x.0 as int].absorb(
                        p.alg,
                        p.eps,
                        (p.alg.inner)(p.q.rows[x.0 as int], p.k.rows[x.1 as int]),
                        p.v.rows[x.1 as int],
                    ),
                ),
        ),
    decreases pairs.len(),
{
    if pairs.len() > 0 {
        fold_formula(p, pairs.drop_last());
    } else {
        assert(p.fresh() =~= Seq::new(
            p.q.rows.len(),
            |i: int|
                AccView {
                    mu: p.alg.neg_infinity,
                    z: p.alg.zero,
                    u: Seq::new(p.v.ncols, |c: int| p.alg.zero),
                },
        ));
    }
}

/// The problem that query `i` poses alone.
pub open spec fn one_query<T>(p: Attend<T>, i: int) -> Attend<T> {
    Attend { q: MatrixView { ncols: p.q.ncols, rows: seq![p.q.rows[i]] }, ..p }
}

/// Queries do not disturb each other: row `i` of a fold is the one row of the fold in which
/// query `i` is alone and attends to the keys that its pairs name, in their order.
pub proof fn row_is_one_query<T>(p: Attend<T>, pairs: Seq<(usize, usize)>, i: int)
    requires
        p.all_in_range(pairs),
        0 <= i < p.q.rows.len(),
    ensures
        ({
            let own = pairs.filter(|x: (usize, usize)| x.0 == i).map_values(
                |x: (usize, usize)| (0usize, x.1),
            );
            let alone = Attend {
                alg: p.alg,
                q: MatrixView { ncols: p.q.ncols, rows: seq![p.q.rows[i]] },
                k: p.k,
                v: p.v,
                eps: p.eps,
            };
            p.fold(pairs)[i] == alone.fold(own)[0]
        }),
{
    let own = pairs.filter(|x: (usize, usize)| x.0 == i).map_values(
        |x: (usize, usize)| (0usize, x.1),
    );
    let alone = one_query(p, i);
    own_records(p, pairs, i);
    fold_by_rows(p, pairs, i);
    fold_by_rows(alone, own, 0);
}

proof fn own_records<T>(p: Attend<T>, pairs: Seq<(usize, usize)>, i: int)
    requires
        p.all_in_range(pairs),
        0 <= i < p.q.rows.len(),
    ensures
        ({
            let own = pairs.filter(|x: (usize, usize)| x.0 == i).map_values(
                |x: (usize, usize)| (0usize, x.1),
            );
            &&& one_query(p, i).all_in_range(own)
            &&& one_query(p, i).row_records(own, 0) == p.row_records(pairs, i)
        }),
    decreases pairs.len(),
{
    reveal(Seq::filter);
    let mine = |x: (usize, usize)| x.0 == i;
    let first = |x: (usize, usize)| (0usize, x.1);
    let own = pairs.filter(mine).map_values(first);
    let alone = one_query(p, i);
    if pairs.len() > 0 {
        let init = pairs.drop_last();
        let last = pairs.last();
        assert forall|n: int| 0 <= n < init.len() implies p.in_range(#[trigger] init[n]) by {
            assert(p.in_range(pairs[n]));
        }
        assert(p.in_range(pairs[pairs.len() - 1]));
        own_records(p, init, i);
        let before = init.filter(mine).map_values(first);
        if last.0 == i {
            assert(own =~= before.push((0usize, last.1)));
            assert(own.drop_last() =~= before);
            assert forall|n: int| 0 <= n < own.len() implies alone.in_range(
                #[trigger] own[n],
            ) by {
                if n < before.len() {
                    assert(own[n] == before[n]);
                }
            }
        } else {
            assert(own =~= before);
        }
    } else {
        assert(own =~= Seq::empty());
    }
}

/// The output rows: `u / z` of each accumulator, or zeros where `z` equals zero.
pub proof fn output_formula<T>(p: Attend<T>, accs: Seq<AccView<T>>, i: int)
    requires
        0 <= i < accs.len(),
    ensures
        p.output(accs).len() == accs.len(),
        if (p.alg.test)(Test::Equal(accs[i].z, p.alg.zero)) {
            p.output(accs)[i] == Seq::new(p.v.ncols, |c: int| p.alg.zero)
        } else {
            p.output(accs)[i] == Seq::new(
                accs[i].u.len(),
                |c: int| (p.alg.term)(Term::Div(accs[i].u[c], accs[i].z)),
            )
        },
{
    if (p.alg.test)(Test::Equal(accs[i].z, p.alg.zero)) {
        assert(p.output(accs)[i] =~= Seq::new(p.v.ncols, |c: int| p.alg.zero));
    } else {
        assert(p.output(accs)[i] =~= Seq::new(
            accs[i].u.len(),
            |c: int| (p.alg.term)(Term::Div(accs[i].u[c], accs[i].z)),
        ));
    }
}

/// What comes out of a masked fold: the fold from left to right of a short stream; of a long
/// one the folds of consecutive pieces of the stream, merged two by two in their order.
pub proof fn outcome_formula<T>(
    p: Attend<T>,
    pairs: Seq<(usize, usize)>,
    accs: Seq<AccView<T>>,
)
    requires
        p.outcome(pairs, accs),
    ensures
        pairs.len() < PAIR_PARALLEL_THRESHOLD ==> accs == p.fold(pairs),
        pairs.len() >= PAIR_PARALLEL_THRESHOLD ==> exists|tree: MergeTree|
            tree.chunks().flatten() == pairs && accs == #[trigger] p.reduce(tree),
{
    if pairs.len() >= PAIR_PARALLEL_THRESHOLD {
        parallel_formula(p, pairs, accs);
    }
}

/// What comes out of a parallel fold of any stream: the folds of consecutive pieces of the
/// stream, merged two by two in their order.
pub proof fn parallel_formula<T>(
    p: Attend<T>,
    pairs: Seq<(usize, usize)>,
    accs: Seq<AccView<T>>,
)
    requires
        p.parallel_outcome(pairs, accs),
    ensures
        exists|tree: MergeTree|
            tree.chunks().flatten() == pairs && accs == #[trigger] p.reduce(tree),
{
    let threads = choose|threads: usize| #[trigger]
        p.chunked_outcome(pairs, chunk_size(pairs.len(), threads), accs);
    let size = chunk_size(pairs.len(), threads);
    let tree = choose|tree: MergeTree|
        tree.chunks() == chunks_of(pairs, size) && accs == #[trigger] p.reduce(tree);
    let t: nat = if threads == 0 {
        1
    } else {
        threads as nat
    };
    if pairs.len() == 0 {
        assert(chunks_of(pairs, size).flatten() =~= pairs);
    } else {
        vstd::arithmetic::div_mod::lemma_fundamental_div_mod(pairs.len() as int, t as int);
        if size == 0 {
            assert(pairs.len() == t * (pairs.len() / t) + pairs.len() % t);
            assert(t * 0 == 0) by (nonlinear_arith);
        }
        pieces_flatten(pairs, size);
    }
    assert(tree.chunks().flatten() == pairs && accs == p.reduce(tree));
}

/// The pieces of a stream, one after the other, are the stream.
proof fn pieces_flatten(pairs: Seq<(usize, usize)>, size: nat)
    requires
        size > 0,
    ensures
        chunks_of(pairs, size).flatten() == pairs,
    decreases pairs.len(),
{
    let all = chunks_of(pairs, size);
    if pairs.len() == 0 {
        assert(all.flatten() =~= pairs);
    } else if pairs.len() <= size {
        assert(all.drop_first() =~= Seq::empty());
        assert(all.drop_first().flatten() =~= Seq::empty());
        assert(all.flatten() =~= pairs);
    } else {
        let tail = pairs.skip(size as int);
        pieces_flatten(tail, size);
        assert(all.drop_first() =~= chunks_of(tail, size));
        assert(all.first() == pairs.take(size as int));
        assert(all.flatten() =~= pairs);
    }
}

/// How pieces are put together: nothing is one fresh accumulator per query, a piece is its
/// fold, and two parts are merged row by row.
pub proof fn reduce_formulas<T>(
    p: Attend<T>,
    pairs: Seq<(usize, usize)>,
    l: MergeTree,
    r: MergeTree,
)
    ensures
        p.reduce(MergeTree::Identity) == p.fold(Seq::empty()),
        p.reduce(MergeTree::Chunk(pairs)) == p.fold(pairs),
        p.reduce(MergeTree::Node(Box::new(l), Box::new(r))) == Seq::new(
            p.reduce(l).len(),
            |i: int| p.reduce(l)[i].merge(p.alg, p.eps, p.reduce(r)[i]),
        ),
        MergeTree::Identity.chunks() == Seq::<Seq<(usize, usize)>>::empty(),
        MergeTree::Chunk(pairs).chunks() == seq![pairs],
        MergeTree::Node(Box::new(l), Box::new(r)).chunks() == l.chunks() + r.chunks(),
{
}

} // verus!
