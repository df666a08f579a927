//! What similarities and means are in exact arithmetic.
use crate::arith::{Algebra, Eps, Sim, Term};
use crate::closed_form::{best_is_maximum, softmax_shift, uniform_mean, unit_sum_len};
use crate::exact::{
    at_most_add, exact_add, exact_compare, exact_constants, exact_count,
    exact_difference_sign, exact_extreme_weight, exact_mul, exact_positive,
    exact_self_difference,
};
use crate::formulas::{
    attention_formula, mean_component, mean_formulas, unit_formula, winners_formula,
};
use crate::model::MemoryView;
use crate::records::Record;
use vstd::prelude::*;

verus! {

/// A square is not negative, and is zero only of zero.
proof fn square_sign<T>(alg: Algebra<T>, d: T)
    requires
        alg.exact(),
        alg.finite(d),
    ensures
        alg.finite(alg.mul(d, d)),
        d == alg.zero ==> alg.mul(d, d) == alg.zero,
        d != alg.zero ==> alg.gt(alg.mul(d, d), alg.zero),
{
    exact_constants(alg);
    exact_mul(alg, d, d, d);
    exact_compare(alg, d, alg.zero);
    if alg.gt(d, alg.zero) {
        exact_positive(alg, d, d);
    } else if d != alg.zero {
        let n = alg.sub(alg.zero, d);
        exact_difference_sign(alg, alg.zero, d);
        exact_compare(alg, alg.zero, d);
        exact_positive(alg, n, n);
        let (dd, nd, nn) = (alg.mul(d, d), alg.mul(n, d), alg.mul(n, n));
        exact_mul(alg, n, d, d);
        exact_mul(alg, n, d, n);
        exact_mul(alg, n, n, n);
        exact_mul(alg, d, n, n);
        exact_mul(alg, n, alg.zero, alg.zero);
        // n + d is zero, so n * d + d * d and n * n + d * n are.
        assert(alg.add(nd, dd) == alg.zero);
        assert(alg.add(nn, nd) == alg.zero);
        exact_add(alg, nn, nd, dd);
        exact_add(alg, nn, alg.zero, alg.zero);
        exact_add(alg, dd, alg.zero, alg.zero);
        assert(dd == nn);
    }
}

/// The squared distance of finite vectors is finite and not negative, and it is zero only of
/// equal vectors.
proof fn distance_sign<T>(alg: Algebra<T>, x: Seq<T>, k: Seq<T>, n: nat)
    requires
        alg.exact(),
        n <= x.len(),
        n <= k.len(),
        alg.all_finite(x),
        alg.all_finite(k),
    ensures
        alg.finite(alg.squared_distance(x, k, n)),
        alg.at_most(alg.zero, alg.squared_distance(x, k, n)),
        alg.squared_distance(x, k, n) == alg.zero <==> (forall|i: int|
            0 <= i < n ==> #[trigger] x[i] == k[i]),
    decreases n,
{
    exact_constants(alg);
    exact_compare(alg, alg.zero, alg.zero);
    if n > 0 {
        let p = alg.squared_distance(x, k, (n - 1) as nat);
        let d = alg.sub(x[n - 1], k[n - 1]);
        let q = alg.mul(d, d);
        distance_sign(alg, x, k, (n - 1) as nat);
        exact_difference_sign(alg, x[n - 1], k[n - 1]);
        exact_difference_sign(alg, k[n - 1], x[n - 1]);
        square_sign(alg, d);
        exact_add(alg, p, q, q);
        exact_add(alg, alg.zero, alg.zero, alg.zero);
        exact_add(alg, k[n - 1], alg.zero, alg.zero);
        exact_compare(alg, p, alg.zero);
        exact_compare(alg, q, alg.zero);
        exact_compare(alg, alg.zero, q);
        exact_compare(alg, alg.add(p, q), alg.zero);
        at_most_add(alg, alg.zero, p, alg.zero, q);
        if x[n - 1] == k[n - 1] {
            exact_self_difference(alg, x[n - 1]);
            exact_add(alg, p, alg.zero, alg.zero);
        } else {
            assert(d != alg.zero);
            // A positive term keeps the sum above zero.
            if p != alg.zero {
                exact_compare(alg, alg.zero, p);
                exact_positive(alg, p, q);
            } else {
                exact_add(alg, q, alg.zero, alg.zero);
            }
        }
    }
}

/// The indicator tells equality: it is zero if the query and the key agree in every
/// coordinate, and minus infinity if they differ in some.
pub proof fn indicator_is_equality<T>(alg: Algebra<T>, x: Seq<T>, k: Seq<T>)
    requires
        alg.exact(),
        x.len() == k.len(),
        alg.all_finite(x),
        alg.all_finite(k),
    ensures
        (forall|i: int| 0 <= i < x.len() ==> #[trigger] x[i] == k[i]) ==> alg.similarity(
            Sim::Indicator,
            x,
            k,
        ) == alg.zero,
        (exists|i: int| 0 <= i < x.len() && #[trigger] x[i] != k[i]) ==> alg.similarity(
            Sim::Indicator,
            x,
            k,
        ) == alg.neg_infinity,
{
    distance_sign(alg, x, k, x.len());
    exact_constants(alg);
    exact_compare(alg, alg.squared_distance(x, k, x.len()), alg.zero);
}

/// Where the query and the key agree but in coordinate `i`, their score is minus one half
/// times the square of the difference there; where they agree everywhere, it is minus one
/// half times zero.
pub proof fn distance_in_one_coordinate<T>(alg: Algebra<T>, x: Seq<T>, k: Seq<T>, i: int)
    requires
        alg.exact(),
        x.len() == k.len(),
        alg.all_finite(x),
        alg.all_finite(k),
        0 <= i < x.len(),
        forall|j: int| 0 <= j < x.len() && j != i ==> #[trigger] x[j] == k[j],
    ensures
        alg.similarity(Sim::NegSquared, x, k) == (alg.term)(
            Term::Mul(
                alg.neg_half,
                (alg.term)(
                    Term::Mul(
                        (alg.term)(Term::Sub(x[i], k[i])),
                        (alg.term)(Term::Sub(x[i], k[i])),
                    ),
                ),
            ),
        ),
{
    one_term(alg, x, k, i, x.len());
}

proof fn one_term<T>(alg: Algebra<T>, x: Seq<T>, k: Seq<T>, i: int, n: nat)
    requires
        alg.exact(),
        x.len() == k.len(),
        alg.all_finite(x),
        alg.all_finite(k),
        0 <= i < x.len(),
        n <= x.len(),
        forall|j: int| 0 <= j < x.len() && j != i ==> #[trigger] x[j] == k[j],
    ensures
        alg.squared_distance(x, k, n) == if i < n {
            alg.mul(alg.sub(x[i], k[i]), alg.sub(x[i], k[i]))
        } else {
            alg.zero
        },
    decreases n,
{
    exact_constants(alg);
    if n > 0 {
        one_term(alg, x, k, i, (n - 1) as nat);
        distance_sign(alg, x, k, (n - 1) as nat);
        let p = alg.squared_distance(x, k, (n - 1) as nat);
        let d = alg.sub(x[n - 1], k[n - 1]);
        exact_difference_sign(alg, x[n - 1], k[n - 1]);
        square_sign(alg, d);
        exact_add(alg, p, alg.zero, alg.zero);
        exact_add(alg, alg.mul(d, d), alg.zero, alg.zero);
        if n - 1 != i {
            exact_self_difference(alg, x[n - 1]);
        }
    }
}

/// At a finite temperature the attention is the quotient of the sums of `exp(s / e) * v[c]`
/// and of `exp(s / e)`.
pub proof fn softmax_unshifted<T>(
    alg: Algebra<T>,
    e: T,
    r: Seq<Record<T>>,
    d_v: nat,
    c: int,
)
    requires
        alg.exact(),
        alg.proper_eps(Eps::Finite(e)),
        alg.finite_records(r, d_v),
        r.len() > 0,
        0 <= c < d_v,
    ensures
        alg.attention(Eps::Finite(e), r, d_v)[c] == (alg.term)(
            Term::Div(
                Seq::new(
                    r.len(),
                    |t: int|
                        (alg.term)(
                            Term::Mul(
                                (alg.term)(Term::Exp((alg.term)(Term::Div(r[t].s, e)))),
                                r[t].v[c],
                            ),
                        ),
                ).fold_left(alg.zero, |a: T, b: T| (alg.term)(Term::Add(a, b))),
                Seq::new(
                    r.len(),
                    |t: int| (alg.term)(Term::Exp((alg.term)(Term::Div(r[t].s, e)))),
                ).fold_left(alg.zero, |a: T, b: T| (alg.term)(Term::Add(a, b))),
            ),
        ),
{
    exact_constants(alg);
    softmax_shift(alg, e, alg.zero, r, d_v);
    crate::formulas::softmax_sums(alg, e, alg.zero, r, d_v, c);
    mean_formulas(alg, e, alg.zero, r, c);
    let shifted = Seq::new(
        r.len(),
        |t: int|
            (alg.term)(
                Term::Exp((alg.term)(Term::Div((alg.term)(Term::Sub(r[t].s, alg.zero)), e))),
            ),
    );
    let plain = Seq::new(
        r.len(),
        |t: int| (alg.term)(Term::Exp((alg.term)(Term::Div(r[t].s, e)))),
    );
    assert forall|t: int| 0 <= t < r.len() implies #[trigger] shifted[t] == plain[t] by {
        exact_extreme_weight(alg, e, r[t].s, alg.zero);
        assert(shifted[t] == alg.weight(e, r[t].s, alg.zero));
        assert(plain[t] == alg.exp(alg.div(r[t].s, e)));
    }
    assert(shifted =~= plain);
    let shifted_values = Seq::new(
        r.len(),
        |t: int|
            (alg.term)(
                Term::Mul(
                    (alg.term)(
                        Term::Exp(
                            (alg.term)(Term::Div((alg.term)(Term::Sub(r[t].s, alg.zero)), e)),
                        ),
                    ),
                    r[t].v[c],
                ),
            ),
    );
    let plain_values = Seq::new(
        r.len(),
        |t: int|
            (alg.term)(
                Term::Mul(
                    (alg.term)(Term::Exp((alg.term)(Term::Div(r[t].s, e)))),
                    r[t].v[c],
                ),
            ),
    );
    assert forall|t: int| 0 <= t < r.len() implies #[trigger] shifted_values[t]
        == plain_values[t] by {
        assert(shifted[t] == plain[t]);
    }
    assert(shifted_values =~= plain_values);
}

/// At zero temperature the attention is the mean of the values of the records with the
/// largest score.
pub proof fn tropical_is_argmax_mean<T>(
    alg: Algebra<T>,
    m: T,
    r: Seq<Record<T>>,
    d_v: nat,
    c: int,
)
    requires
        alg.exact(),
        alg.finite_records(r, d_v),
        exists|n: int| 0 <= n < r.len() && (#[trigger] r[n]).s == m,
        forall|n: int| 0 <= n < r.len() ==> !alg.gt((#[trigger] r[n]).s, m),
        0 <= c < d_v,
    ensures
        alg.attention(Eps::Zero, r, d_v)[c] == mean_component(
            alg,
            r.filter(|x: Record<T>| x.s == m),
            c,
        ),
        r.filter(|x: Record<T>| x.s == m).len() > 0,
{
    best_is_maximum(alg, r, d_v);
    let b = alg.best(r);
    let i = choose|n: int| 0 <= n < r.len() && (#[trigger] r[n]).s == m;
    let j = choose|n: int| 0 <= n < r.len() && (#[trigger] r[n]).s == b;
    assert(alg.finite(r[i].s));
    assert(!alg.gt(r[j].s, m));
    exact_compare(alg, m, b);
    assert(m == b);
    equal_scores(alg, m, r, d_v);
    attention_formula(alg, Eps::Zero, r, d_v, c);
    winners_formula(alg, m, r);
    crate::formulas::best_formula(alg, r);
    crate::closed_form::winners_among(alg, m, r, d_v);
}

/// Among finite records, those whose score is `m` and finite are those whose score is `m`.
proof fn equal_scores<T>(alg: Algebra<T>, m: T, r: Seq<Record<T>>, d_v: nat)
    requires
        alg.exact(),
        alg.finite_records(r, d_v),
        alg.finite(m),
    ensures
        alg.winners(m, r) == r.filter(|x: Record<T>| x.s == m),
    decreases r.len(),
{
    reveal(Seq::filter);
    if r.len() > 0 {
        crate::closed_form::init_finite(alg, r, d_v);
        equal_scores(alg, m, r.drop_last(), d_v);
        exact_compare(alg, r.last().s, m);
    }
}

/// At infinite temperature the attention is the mean of the values of all records.
pub proof fn uniform_is_mean<T>(alg: Algebra<T>, r: Seq<Record<T>>, d_v: nat, c: int)
    requires
        alg.exact(),
        alg.finite_records(r, d_v),
        0 < r.len() <= usize::MAX,
        0 <= c < d_v,
    ensures
        alg.attention(Eps::Inf, r, d_v)[c] == mean_component(alg, r, c),
{
    uniform_mean(alg, r, d_v);
    unit_formula(alg, r, d_v, c);
    unit_sum_len(alg, r, d_v);
}

/// The values of the live rows among `ids` whose key is `x`, in the order of `ids`.
pub open spec fn matches_of<T>(m: MemoryView<T>, alg: Algebra<T>, x: Seq<T>, ids: Seq<
    Seq<char>,
>) -> Seq<Record<T>> {
    ids.filter(
        |id: Seq<char>| m.rows.contains_key(id) && !m.rows[id].deleted && m.rows[id].k == x,
    ).map_values(|id: Seq<char>| Record { s: alg.zero, v: m.rows[id].v })
}

/// The rows of the memory have the right dimensions and finite entries, and so has the query.
pub open spec fn finite_memory<T>(m: MemoryView<T>, alg: Algebra<T>, x: Seq<T>) -> bool {
    &&& x.len() == m.d_k
    &&& alg.all_finite(x)
    &&& forall|id: Seq<char>| #[trigger]
        m.rows.contains_key(id) ==> {
            &&& m.rows[id].k.len() == m.d_k
            &&& m.rows[id].v.len() == m.d_v
            &&& alg.all_finite(m.rows[id].k)
            &&& alg.all_finite(m.rows[id].v)
        }
}

/// What an indicator query finds among the rows `ids`.
proof fn indicator_records<T>(
    m: MemoryView<T>,
    alg: Algebra<T>,
    x: Seq<T>,
    ids: Seq<Seq<char>>,
)
    requires
        alg.exact(),
        alg.exact_below(),
        finite_memory(m, alg, x),
    ensures
        ({
            let r = m.records(alg, Sim::Indicator, x, ids);
            let hits = matches_of(m, alg, x, ids);
            &&& alg.best(r) == if hits.len() > 0 {
                alg.zero
            } else {
                alg.neg_infinity
            }
            &&& alg.winners(alg.zero, r) == hits
            &&& alg.winners(alg.neg_infinity, r).len() == 0 || hits.len() > 0
            &&& hits.len() <= r.len() <= ids.len()
            &&& alg.finite_records(hits, m.d_v)
        }),
    decreases ids.len(),
{
    reveal(Seq::filter);
    exact_constants(alg);
    exact_compare(alg, alg.zero, alg.zero);
    let hits = matches_of(m, alg, x, ids);
    if ids.len() > 0 {
        let init = ids.drop_last();
        let id = ids.last();
        let before = matches_of(m, alg, x, init);
        indicator_records(m, alg, x, init);
        if m.alive(id) {
            let k = m.rows[id].k;
            indicator_is_equality(alg, x, k);
            if k == x {
                assert(hits =~= before.push(Record { s: alg.zero, v: m.rows[id].v }));
            } else {
                assert(exists|i: int| 0 <= i < x.len() && #[trigger] x[i] != k[i]) by {
                    if forall|i: int| 0 <= i < x.len() ==> #[trigger] x[i] == k[i] {
                        assert(x =~= k);
                    }
                }
                assert(hits =~= before);
            }
        } else {
            assert(hits =~= before);
        }
        let r = m.records(alg, Sim::Indicator, x, ids);
        let r0 = m.records(alg, Sim::Indicator, x, init);
        if m.alive(id) {
            assert(r.drop_last() =~= r0);
        }
    } else {
        assert(hits =~= Seq::empty());
    }
}

/// An indicator query at zero temperature is a lookup by key: if some row is live, the answer
/// is the mean of the values of exactly the live rows whose key is the query, and zero if
/// there is none.
pub proof fn indicator_query_is_lookup<T>(
    m: MemoryView<T>,
    alg: Algebra<T>,
    x: Seq<T>,
    c: int,
)
    requires
        alg.exact(),
        alg.exact_below(),
        finite_memory(m, alg, x),
        0 <= c < m.d_v,
        exists|id: Seq<char>|
            m.order.contains(id) && m.rows.contains_key(id) && !(#[trigger] m.rows[id]).deleted,
    ensures
        ({
            let hits = m.order.filter(
                |id: Seq<char>|
                    m.rows.contains_key(id) && !m.rows[id].deleted && m.rows[id].k == x,
            ).map_values(|id: Seq<char>| Record { s: alg.zero, v: m.rows[id].v });
            m.attend(alg, Eps::Zero, Sim::Indicator, x) matches Some(out) && out[c]
                == if hits.len() == 0 {
                alg.zero
            } else {
                mean_component(alg, hits, c)
            }
        }),
{
    let r = m.records(alg, Sim::Indicator, x, m.order);
    let hits = matches_of(m, alg, x, m.order);
    indicator_records(m, alg, x, m.order);
    some_record(m, alg, x);
    unit_formula(alg, hits, m.d_v, c);
    unit_sum_len(alg, hits, m.d_v);
}

/// A live row is a record of a query.
proof fn some_record<T>(m: MemoryView<T>, alg: Algebra<T>, x: Seq<T>)
    requires
        exists|id: Seq<char>|
            m.order.contains(id) && m.rows.contains_key(id) && !(#[trigger] m.rows[id]).deleted,
    ensures
        m.records(alg, Sim::Indicator, x, m.order).len() > 0,
{
    let id = choose|id: Seq<char>|
        m.order.contains(id) && m.rows.contains_key(id) && !(#[trigger] m.rows[id]).deleted;
    crate::query_laws::alive_among_contains(m, m.order, id);
    crate::query_laws::records_of_snapshot(m, alg, Sim::Indicator, x);
}

/// The sums of an indicator query at a finite temperature.
proof fn indicator_sums<T>(
    m: MemoryView<T>,
    alg: Algebra<T>,
    e: T,
    x: Seq<T>,
    ids: Seq<Seq<char>>,
)
    requires
        alg.exact(),
        alg.exact_below(),
        alg.proper_eps(Eps::Finite(e)),
        finite_memory(m, alg, x),
        ids.len() <= usize::MAX,
    ensures
        ({
            let r = m.records(alg, Sim::Indicator, x, ids);
            let hits = matches_of(m, alg, x, ids);
            &&& alg.total_weight(e, alg.zero, r) == alg.count(hits.len() as usize)
            &&& alg.weighted_value(e, alg.zero, r, m.d_v) == alg.unit_sum(hits, m.d_v)
            &&& alg.finite(alg.count(hits.len() as usize))
            &&& alg.all_finite(alg.unit_sum(hits, m.d_v))
        }),
    decreases ids.len(),
{
    reveal(Seq::filter);
    exact_constants(alg);
    exact_count(alg, 0, 1);
    let hits = matches_of(m, alg, x, ids);
    if ids.len() > 0 {
        let init = ids.drop_last();
        let id = ids.last();
        let before = matches_of(m, alg, x, init);
        indicator_sums(m, alg, e, x, init);
        indicator_records(m, alg, x, init);
        let r = m.records(alg, Sim::Indicator, x, ids);
        let r0 = m.records(alg, Sim::Indicator, x, init);
        let u = alg.unit_sum(before, m.d_v);
        let z = alg.count(before.len() as usize);
        unit_sum_len(alg, before, m.d_v);
        if m.alive(id) {
            let k = m.rows[id].k;
            let v = m.rows[id].v;
            indicator_is_equality(alg, x, k);
            assert(r.drop_last() =~= r0);
            if k == x {
                assert(hits =~= before.push(Record { s: alg.zero, v }));
                assert(hits.drop_last() =~= before);
                crate::exact::exact_weight(alg, e, alg.zero, alg.zero, alg.zero);
                exact_count(alg, before.len() as usize, hits.len() as usize);
                exact_add(alg, z, alg.one, alg.one);
                assert forall|c: int| 0 <= c < m.d_v implies alg.finite(
                    #[trigger] alg.unit_sum(hits, m.d_v)[c],
                ) by {
                    exact_mul(alg, alg.one, v[c], v[c]);
                    exact_add(alg, u[c], alg.mul(alg.one, v[c]), alg.one);
                }
                unit_sum_len(alg, hits, m.d_v);
            } else {
                assert(exists|i: int| 0 <= i < x.len() && #[trigger] x[i] != k[i]) by {
                    if forall|i: int| 0 <= i < x.len() ==> #[trigger] x[i] == k[i] {
                        assert(x =~= k);
                    }
                }
                assert(hits =~= before);
                assert(alg.weight(e, alg.neg_infinity, alg.zero) == alg.zero);
                exact_add(alg, z, alg.zero, alg.zero);
                assert(alg.axpy(u, alg.zero, v) =~= u) by {
                    assert forall|c: int| 0 <= c < m.d_v implies #[trigger] alg.axpy(
                        u,
                        alg.zero,
                        v,
                    )[c] == u[c] by {
                        exact_mul(alg, v[c], alg.zero, alg.zero);
                        exact_add(alg, u[c], alg.zero, alg.zero);
                    }
                }
            }
        } else {
            assert(hits =~= before);
        }
    } else {
        assert(hits =~= Seq::empty());
        assert(alg.unit_sum(hits, m.d_v) =~= alg.zeros(m.d_v));
        assert(m.records(alg, Sim::Indicator, x, ids) =~= Seq::empty());
    }
}

/// Where some live row has the query as its key, an indicator query at a finite temperature
/// gives the same mean.
pub proof fn indicator_softmax_is_lookup<T>(
    m: MemoryView<T>,
    alg: Algebra<T>,
    e: T,
    x: Seq<T>,
    c: int,
)
    requires
        alg.exact(),
        alg.exact_below(),
        alg.proper_eps(Eps::Finite(e)),
        finite_memory(m, alg, x),
        m.order.len() <= usize::MAX,
        0 <= c < m.d_v,
        exists|id: Seq<char>|
            m.order.contains(id) && m.rows.contains_key(id) && !(#[trigger] m.rows[id]).deleted
                && m.rows[id].k == x,
    ensures
        ({
            let hits = m.order.filter(
                |id: Seq<char>|
                    m.rows.contains_key(id) && !m.rows[id].deleted && m.rows[id].k == x,
            ).map_values(|id: Seq<char>| Record { s: alg.zero, v: m.rows[id].v });
            m.attend(alg, Eps::Finite(e), Sim::Indicator, x) matches Some(out) && out[c]
                == mean_component(alg, hits, c)
        }),
{
    let hits = matches_of(m, alg, x, m.order);
    let id = choose|id: Seq<char>|
        m.order.contains(id) && m.rows.contains_key(id) && !(#[trigger] m.rows[id]).deleted
            && m.rows[id].k == x;
    assert(m.rows[id].deleted == m.rows[id].deleted);
    some_record(m, alg, x);
    indicator_records(m, alg, x, m.order);
    indicator_sums(m, alg, e, x, m.order);
    assert(hits.len() > 0) by {
        let hit = |id: Seq<char>|
            m.rows.contains_key(id) && !m.rows[id].deleted && m.rows[id].k == x;
        let i = choose|i: int| 0 <= i < m.order.len() && m.order[i] == id;
        m.order.lemma_filter_contains(hit, i);
        assert(m.order.filter(hit).contains(id));
    }
    unit_formula(alg, hits, m.d_v, c);
    unit_sum_len(alg, hits, m.d_v);
}

} // verus!
