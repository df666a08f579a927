//! Laws of snapshots and attention queries.
use crate::arith::{Algebra, Eps, Sim};
use crate::closed_form::{output_is_attention, row_records_mentioned};
use crate::mask::Attend;
use crate::mask_laws::range_refusal_none;
use crate::matrix::MatrixView;
use crate::model::{contains_after_push, MemoryView};
use crate::records::Record;
use vstd::prelude::*;

verus! {

/// A snapshot of the live rows lists an id iff its row is live.
pub proof fn snapshot_lists_alive<T>(m: MemoryView<T>, id: Seq<char>)
    requires
        m.wf(),
    ensures
        m.alive_order().contains(id) <==> m.alive(id),
{
    assert(m.rows.contains_key(id) <==> m.order.contains(id));
    alive_among_contains(m, m.order, id);
}

pub proof fn alive_among_contains<T>(m: MemoryView<T>, ids: Seq<Seq<char>>, id: Seq<char>)
    ensures
        m.alive_among(ids).contains(id) <==> ids.contains(id) && m.alive(id),
    decreases ids.len(),
{
    if ids.len() > 0 {
        let init = ids.drop_last();
        alive_among_contains(m, init, id);
        assert(init.push(ids.last()) =~= ids);
        contains_after_push(init, ids.last());
        contains_after_push(m.alive_among(init), ids.last());
    }
}

/// Where every id is listed once, a snapshot lists every live id once: it has as many rows as
/// there are live ones.
pub proof fn snapshot_counts_alive<T>(m: MemoryView<T>)
    requires
        m.wf(),
        m.order.no_duplicates(),
    ensures
        m.alive_order().no_duplicates(),
        m.alive_order().len() == m.alive_ids().len(),
{
    alive_among_distinct(m, m.order);
    assert forall|id: Seq<char>| #[trigger] m.alive_order().to_set().contains(id)
        == m.alive_ids().contains(id) by {
        snapshot_lists_alive(m, id);
    }
    assert(m.alive_order().to_set() =~= m.alive_ids());
    m.alive_order().unique_seq_to_set();
}

proof fn alive_among_distinct<T>(m: MemoryView<T>, ids: Seq<Seq<char>>)
    requires
        ids.no_duplicates(),
    ensures
        m.alive_among(ids).no_duplicates(),
    decreases ids.len(),
{
    if ids.len() > 0 {
        let init = ids.drop_last();
        assert(init.no_duplicates());
        alive_among_distinct(m, init);
        alive_among_contains(m, init, ids.last());
        if init.contains(ids.last()) {
            let i = choose|i: int| 0 <= i < init.len() && init[i] == ids.last();
            assert(ids[i] == ids[ids.len() - 1]);
        }
    }
}

/// The records that a query ranges over are the rows of the snapshot, in its order.
pub proof fn records_of_snapshot<T>(m: MemoryView<T>, alg: Algebra<T>, sim: Sim, x: Seq<T>)
    ensures
        m.records(alg, sim, x, m.order) == scored(
            alg,
            sim,
            x,
            m.keys_of(m.alive_order()),
            m.values_of(m.alive_order()),
        ),
{
    records_among(m, alg, sim, x, m.order);
}

/// The rows of a pair of matrices as records, scored against the query `x`.
pub open spec fn scored<T>(
    alg: Algebra<T>,
    sim: Sim,
    x: Seq<T>,
    ks: Seq<Seq<T>>,
    vs: Seq<Seq<T>>,
) -> Seq<Record<T>> {
    Seq::new(ks.len(), |i: int| Record { s: alg.similarity(sim, x, ks[i]), v: vs[i] })
}

proof fn records_among<T>(
    m: MemoryView<T>,
    alg: Algebra<T>,
    sim: Sim,
    x: Seq<T>,
    ids: Seq<Seq<char>>,
)
    ensures
        m.records(alg, sim, x, ids) == scored(
            alg,
            sim,
            x,
            m.keys_of(m.alive_among(ids)),
            m.values_of(m.alive_among(ids)),
        ),
    decreases ids.len(),
{
    if ids.len() > 0 {
        records_among(m, alg, sim, x, ids.drop_last());
    }
    assert(m.records(alg, sim, x, ids) =~= scored(
        alg,
        sim,
        x,
        m.keys_of(m.alive_among(ids)),
        m.values_of(m.alive_among(ids)),
    ));
}

/// When a query has an answer: the query has the dimension of the keys and some row is live.
/// The answer then has the dimension of the values.
pub proof fn query_answered_iff<T>(
    m: MemoryView<T>,
    alg: Algebra<T>,
    eps: Eps<T>,
    sim: Sim,
    x: Seq<T>,
)
    requires
        m.wf(),
    ensures
        m.attend(alg, eps, sim, x) is Some <==> x.len() == m.d_k && exists|id: Seq<char>|
            m.alive(id),
        m.attend(alg, eps, sim, x) matches Some(out) ==> out.len() == m.d_v,
{
    let r = m.records(alg, sim, x, m.order);
    let ids = m.alive_order();
    records_of_snapshot(m, alg, sim, x);
    assert(r.len() == ids.len());
    if ids.len() > 0 {
        assert(ids.contains(ids[0]));
        snapshot_lists_alive(m, ids[0]);
    }
    if exists|id: Seq<char>| m.alive(id) {
        let id = choose|id: Seq<char>| m.alive(id);
        snapshot_lists_alive(m, id);
    }
    attention_len(alg, eps, r, m.d_v);
}

/// The attention has the dimension of the values.
pub proof fn attention_len<T>(alg: Algebra<T>, eps: Eps<T>, r: Seq<Record<T>>, d_v: nat)
    ensures
        alg.attention(eps, r, d_v).len() == d_v,
{
    crate::closed_form::unit_sum_len(alg, alg.winners(alg.best(r), r), d_v);
    match eps {
        Eps::Zero => {},
        Eps::Finite(e) => weighted_value_len(alg, e, alg.best(r), r, d_v),
        Eps::Inf => weighted_value_len(alg, alg.infinity, alg.best(r), r, d_v),
    }
}

proof fn weighted_value_len<T>(alg: Algebra<T>, e: T, base: T, r: Seq<Record<T>>, d_v: nat)
    ensures
        alg.weighted_value(e, base, r, d_v).len() == d_v,
    decreases r.len(),
{
    if r.len() > 0 {
        weighted_value_len(alg, e, base, r.drop_last(), d_v);
    }
}

/// A query depends on the live rows and their order, and on nothing else of the memory.
pub proof fn query_depends_on_snapshot<T>(
    m: MemoryView<T>,
    n: MemoryView<T>,
    alg: Algebra<T>,
    eps: Eps<T>,
    sim: Sim,
    x: Seq<T>,
)
    requires
        m.d_k == n.d_k,
        m.d_v == n.d_v,
        m.keys_of(m.alive_order()) == n.keys_of(n.alive_order()),
        m.values_of(m.alive_order()) == n.values_of(n.alive_order()),
    ensures
        m.attend(alg, eps, sim, x) == n.attend(alg, eps, sim, x),
{
    records_of_snapshot(m, alg, sim, x);
    records_of_snapshot(n, alg, sim, x);
}

/// The ids other than `id`.
pub open spec fn others(ids: Seq<Seq<char>>, id: Seq<char>) -> Seq<Seq<char>> {
    ids.filter(|x: Seq<char>| x != id)
}

/// The memory as if the row `id` had never been there.
pub open spec fn without<T>(m: MemoryView<T>, id: Seq<char>) -> MemoryView<T> {
    MemoryView {
        rows: m.rows.remove(id),
        order: others(m.order, id),
        ..m
    }
}

/// Exact unlearning: after a delete every query is answered, to the last bit, as if the row
/// had never been there.
pub proof fn deleted_is_forgotten<T>(
    m: MemoryView<T>,
    id: Seq<char>,
    owner: Seq<char>,
    at: u64,
    alg: Algebra<T>,
    eps: Eps<T>,
    sim: Sim,
    x: Seq<T>,
)
    requires
        m.delete(id, owner, at) is Ok,
    ensures
        m.delete(id, owner, at)->Ok_0.attend(alg, eps, sim, x) == without(m, id).attend(
            alg,
            eps,
            sim,
            x,
        ),
{
    let n = m.delete(id, owner, at)->Ok_0;
    assert(n.rows.remove(id) =~= m.rows.remove(id));
    forgotten_records(m, n, id, alg, sim, x, m.order);
}

proof fn forgotten_records<T>(
    m: MemoryView<T>,
    n: MemoryView<T>,
    id: Seq<char>,
    alg: Algebra<T>,
    sim: Sim,
    x: Seq<T>,
    ids: Seq<Seq<char>>,
)
    requires
        !n.alive(id),
        n.rows.remove(id) == m.rows.remove(id),
    ensures
        n.records(alg, sim, x, ids) == without(m, id).records(
            alg,
            sim,
            x,
            others(ids, id),
        ),
    decreases ids.len(),
{
    reveal(Seq::filter);
    if ids.len() > 0 {
        let init = ids.drop_last();
        let last = ids.last();
        forgotten_records(m, n, id, alg, sim, x, init);
        if last != id {
            assert(others(ids, id) =~= others(init, id).push(last));
            assert(others(ids, id).drop_last() =~= others(init, id));
            assert(n.rows.remove(id).contains_key(last) == m.rows.remove(id).contains_key(last));
            assert(n.rows.remove(id)[last] == m.rows.remove(id)[last]);
            assert(without(m, id).alive(last) == n.alive(last));
        } else {
            assert(others(ids, id) =~= others(init, id));
        }
    }
}

/// A row that is written under a new id and then deleted leaves no trace in any query.
pub proof fn write_then_delete<T>(
    m: MemoryView<T>,
    id: Seq<char>,
    k: Seq<T>,
    v: Seq<T>,
    owner: Seq<char>,
    at: u64,
    later: u64,
    alg: Algebra<T>,
    eps: Eps<T>,
    sim: Sim,
    x: Seq<T>,
)
    requires
        m.wf(),
        !m.rows.contains_key(id),
        m.write(id, k, v, owner, at) is Ok,
    ensures
        m.write(id, k, v, owner, at)->Ok_0.delete(id, owner, later) matches Ok(n)
            && n.attend(alg, eps, sim, x) == m.attend(alg, eps, sim, x),
{
    let w = m.write(id, k, v, owner, at)->Ok_0;
    let n = w.delete(id, owner, later)->Ok_0;
    assert(n.order.drop_last() =~= m.order);
    assert(n.order.last() == id);
    untouched_records(m, n, id, alg, sim, x, m.order);
}

proof fn untouched_records<T>(
    m: MemoryView<T>,
    n: MemoryView<T>,
    id: Seq<char>,
    alg: Algebra<T>,
    sim: Sim,
    x: Seq<T>,
    ids: Seq<Seq<char>>,
)
    requires
        !m.alive(id),
        !n.alive(id),
        forall|y: Seq<char>|
            y != id ==> (#[trigger] n.rows.contains_key(y) <==> m.rows.contains_key(y))
                && n.rows[y] == m.rows[y],
    ensures
        n.records(alg, sim, x, ids) == m.records(alg, sim, x, ids),
    decreases ids.len(),
{
    if ids.len() > 0 {
        untouched_records(m, n, id, alg, sim, x, ids.drop_last());
        let y = ids.last();
        assert(n.rows.contains_key(y) || !n.rows.contains_key(y));
        assert(m.alive(y) == n.alive(y));
    }
}

/// The mask that lets one query attend to `n` rows.
pub open spec fn full_row(n: nat) -> Seq<(usize, usize)> {
    Seq::new(n, |j: int| (0usize, j as usize))
}

/// The masked problem of one query against the rows of a snapshot.
pub open spec fn snapshot_problem<T>(
    m: MemoryView<T>,
    alg: Algebra<T>,
    eps: Eps<T>,
    x: Seq<T>,
) -> Attend<T> {
    Attend {
        alg,
        q: MatrixView { ncols: m.d_k, rows: seq![x] },
        k: MatrixView { ncols: m.d_k, rows: m.keys_of(m.alive_order()) },
        v: MatrixView { ncols: m.d_v, rows: m.values_of(m.alive_order()) },
        eps,
    }
}

/// The two ways to attend agree: the answer to a query by inner product is the output of the
/// masked fold over the snapshot in which the one query attends to every row.
pub proof fn query_is_masked_row<T>(
    m: MemoryView<T>,
    alg: Algebra<T>,
    eps: Eps<T>,
    x: Seq<T>,
)
    requires
        snapshot_problem(m, alg, eps, x).exact(),
        x.len() == m.d_k,
        0 < m.alive_order().len() <= usize::MAX,
    ensures
        ({
            let p = snapshot_problem(m, alg, eps, x);
            let pairs = full_row(m.alive_order().len());
            &&& p.refusal(pairs) is None
            &&& m.attend(alg, eps, Sim::Dot, x) == Some(p.output(p.fold(pairs))[0])
        }),
{
    let p = snapshot_problem(m, alg, eps, x);
    let n = m.alive_order().len();
    let pairs = full_row(n);
    assert(p.all_in_range(pairs));
    range_refusal_none(p, pairs);
    full_row_records(p, n);
    records_of_snapshot(m, alg, Sim::Dot, x);
    assert(m.records(alg, Sim::Dot, x, m.order) =~= p.row_records(pairs, 0));
    row_records_mentioned(p, pairs, 0);
    output_is_attention(p, pairs, 0);
}

proof fn full_row_records<T>(p: Attend<T>, n: nat)
    requires
        n <= usize::MAX,
    ensures
        p.row_records(full_row(n), 0) == Seq::new(n, |j: int| p.record((0usize, j as usize))),
    decreases n,
{
    if n > 0 {
        let init = full_row((n - 1) as nat);
        assert(full_row(n).drop_last() =~= init);
        full_row_records(p, (n - 1) as nat);
    }
    assert(p.row_records(full_row(n), 0) =~= Seq::new(
        n,
        |j: int| p.record((0usize, j as usize)),
    ));
}

} // verus!
