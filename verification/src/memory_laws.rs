//! Laws of the memory: what reads give back of writes and deletes, who may do what, and what
//! every history of operations keeps.
use crate::error::{BruceError, ErrorView};
use crate::memory::{follows, log_view, texts_view, AuditEntry, Row};
use crate::model::{delete_keeps_wf, write_keeps_wf, AuditView, MemoryView, RowView};
use vstd::prelude::*;

verus! {

/// Lists of texts and of log entries are seen one by one, entries and rows field by field.
pub proof fn contents<T>(texts: Seq<String>, log: Seq<AuditEntry>, row: Row<T>, e: AuditEntry)
    ensures
        texts_view(texts).len() == texts.len(),
        forall|i: int| 0 <= i < texts.len() ==> #[trigger] texts_view(texts)[i] == texts[i]@,
        log_view(log).len() == log.len(),
        forall|i: int| 0 <= i < log.len() ==> #[trigger] log_view(log)[i] == log[i]@,
        row@.k == row.k@,
        row@.v == row.v@,
        row@.owner == row.owner@,
        row@.written_at == row.written_at,
        row@.deleted == row.deleted,
        e@.op == e.op@,
        e@.fact_id == e.fact_id@,
        e@.owner == e.owner@,
        e@.at == e.at,
{
}

/// An operation that follows the model returns what the model returns, leaves the model's
/// new state if it succeeds, and changes nothing if it does not.
pub proof fn following<T>(
    result: Result<(), BruceError>,
    before: MemoryView<T>,
    after: MemoryView<T>,
    model: Result<MemoryView<T>, ErrorView>,
)
    requires
        follows(result, before, after, model),
    ensures
        result is Ok <==> model is Ok,
        result is Ok ==> after == model->Ok_0,
        result matches Err(e) ==> model == Err::<MemoryView<T>, ErrorView>(e@) && after == before,
{
}

/// A memory starts without rows and without a log.
pub proof fn empty_memory<T>(d_k: nat, d_v: nat)
    ensures
        MemoryView::<T>::empty(d_k, d_v).d_k == d_k,
        MemoryView::<T>::empty(d_k, d_v).d_v == d_v,
        MemoryView::<T>::empty(d_k, d_v).rows == Map::<Seq<char>, RowView<T>>::empty(),
        MemoryView::<T>::empty(d_k, d_v).order.len() == 0,
        MemoryView::<T>::empty(d_k, d_v).log.len() == 0,
{
}

/// What a write does. It is refused for the length of the key, for the length of the value,
/// or because the row is a live one of somebody else, in this order. Otherwise the row holds
/// the key, the value, the owner and the time of this write and is live; a new id goes to the
/// end of the insertion order; and the log gets an entry with the same owner and time. Nothing
/// else changes.
pub proof fn write_effects<T>(
    m: MemoryView<T>,
    id: Seq<char>,
    k: Seq<T>,
    v: Seq<T>,
    owner: Seq<char>,
    at: u64,
)
    ensures
        match m.write(id, k, v, owner, at) {
            Ok(n) => {
                &&& k.len() == m.d_k
                &&& v.len() == m.d_v
                &&& m.rows.contains_key(id) && !m.rows[id].deleted ==> m.rows[id].owner == owner
                &&& n.d_k == m.d_k
                &&& n.d_v == m.d_v
                &&& n.rows.contains_key(id)
                &&& n.rows[id].k == k
                &&& n.rows[id].v == v
                &&& n.rows[id].owner == owner
                &&& n.rows[id].written_at == at
                &&& !n.rows[id].deleted
                &&& forall|x: Seq<char>|
                    x != id ==> (#[trigger] n.rows.contains_key(x) <==> m.rows.contains_key(x))
                        && (m.rows.contains_key(x) ==> n.rows[x] == m.rows[x])
                &&& m.rows.contains_key(id) ==> n.order == m.order
                &&& !m.rows.contains_key(id) ==> n.order == m.order.push(id)
                &&& n.log.len() == m.log.len() + 1
                &&& n.log.drop_last() == m.log
                &&& n.log.last().fact_id == id
                &&& n.log.last().owner == owner
                &&& n.log.last().at == at
                &&& m.rows.contains_key(id) ==> n.log.last().op == "update"@
                &&& !m.rows.contains_key(id) ==> n.log.last().op == "insert"@
            },
            Err(e) => if k.len() != m.d_k {
                e == (ErrorView::DimensionMismatch {
                    expected: m.d_k as int,
                    got: k.len() as int,
                })
            } else if v.len() != m.d_v {
                e == (ErrorView::DimensionMismatch {
                    expected: m.d_v as int,
                    got: v.len() as int,
                })
            } else {
                &&& m.rows.contains_key(id)
                &&& !m.rows[id].deleted
                &&& m.rows[id].owner != owner
                &&& e == ErrorView::PermissionDenied(id, m.rows[id].owner, owner)
            },
        },
{
    if let Ok(n) = m.write(id, k, v, owner, at) {
        assert(n.log.drop_last() =~= m.log);
    }
}

/// What a delete does. It is refused if there is no row, if the row belongs to somebody else,
/// or if it is deleted already, in this order. Otherwise the row is marked as deleted and the
/// log gets an entry with the owner and the time. Nothing else changes.
pub proof fn delete_effects<T>(m: MemoryView<T>, id: Seq<char>, owner: Seq<char>, at: u64)
    ensures
        match m.delete(id, owner, at) {
            Ok(n) => {
                &&& m.rows.contains_key(id)
                &&& !m.rows[id].deleted
                &&& m.rows[id].owner == owner
                &&& n.d_k == m.d_k
                &&& n.d_v == m.d_v
                &&& n.order == m.order
                &&& n.rows.contains_key(id)
                &&& n.rows[id].deleted
                &&& n.rows[id].k == m.rows[id].k
                &&& n.rows[id].v == m.rows[id].v
                &&& n.rows[id].owner == owner
                &&& n.rows[id].written_at == m.rows[id].written_at
                &&& forall|x: Seq<char>|
                    x != id ==> (#[trigger] n.rows.contains_key(x) <==> m.rows.contains_key(x))
                        && (m.rows.contains_key(x) ==> n.rows[x] == m.rows[x])
                &&& n.log.len() == m.log.len() + 1
                &&& n.log.drop_last() == m.log
                &&& n.log.last() == (AuditView { op: "delete"@, fact_id: id, owner, at })
            },
            Err(e) => if !m.rows.contains_key(id) {
                e == ErrorView::KeyNotFound(id)
            } else if m.rows[id].owner != owner {
                e == ErrorView::PermissionDenied(id, m.rows[id].owner, owner)
            } else {
                m.rows[id].deleted && e == ErrorView::KeyNotFound(id)
            },
        },
{
    if let Ok(n) = m.delete(id, owner, at) {
        assert(n.log.drop_last() =~= m.log);
    }
}

/// What reads see: the key and the value of a row that is there and not deleted. The live ids
/// are those of such rows, and a snapshot lists them in insertion order with their keys and
/// values.
pub proof fn reads<T>(m: MemoryView<T>, id: Seq<char>)
    ensures
        m.rows.contains_key(id) && !m.rows[id].deleted ==> m.read(id) == Some(
            (m.rows[id].k, m.rows[id].v),
        ),
        !m.rows.contains_key(id) || m.rows[id].deleted ==> m.read(id) is None,
        m.alive_ids().contains(id) <==> m.rows.contains_key(id) && !m.rows[id].deleted,
        m.alive_order() == m.order.filter(
            |x: Seq<char>| m.rows.contains_key(x) && !m.rows[x].deleted,
        ),
        forall|ids: Seq<Seq<char>>, i: int|
            0 <= i < ids.len() ==> #[trigger] m.keys_of(ids)[i] == m.rows[ids[i]].k,
        forall|ids: Seq<Seq<char>>, i: int|
            0 <= i < ids.len() ==> #[trigger] m.values_of(ids)[i] == m.rows[ids[i]].v,
        forall|ids: Seq<Seq<char>>|
            (#[trigger] m.keys_of(ids)).len() == ids.len(),
        forall|ids: Seq<Seq<char>>|
            (#[trigger] m.values_of(ids)).len() == ids.len(),
{
    alive_filter(m, m.order);
}

proof fn alive_filter<T>(m: MemoryView<T>, ids: Seq<Seq<char>>)
    ensures
        m.alive_among(ids) == ids.filter(
            |x: Seq<char>| m.rows.contains_key(x) && !m.rows[x].deleted,
        ),
    decreases ids.len(),
{
    reveal(Seq::filter);
    if ids.len() > 0 {
        alive_filter(m, ids.drop_last());
    }
}

/// What putting back a row and log entries does.
pub proof fn restore_effects<T>(
    m: MemoryView<T>,
    id: Seq<char>,
    row: RowView<T>,
    entries: Seq<AuditView>,
)
    ensures
        m.restore(id, row).d_k == m.d_k,
        m.restore(id, row).d_v == m.d_v,
        m.restore(id, row).rows == m.rows.insert(id, row),
        m.restore(id, row).order == m.order.push(id),
        m.restore(id, row).log == m.log,
        m.replay(entries).d_k == m.d_k,
        m.replay(entries).d_v == m.d_v,
        m.replay(entries).rows == m.rows,
        m.replay(entries).order == m.order,
        m.replay(entries).log == m.log + entries,
{
}

/// When a write succeeds: the dimensions agree, and the row is not a live row of somebody
/// else.
pub proof fn write_succeeds_iff<T>(
    m: MemoryView<T>,
    id: Seq<char>,
    k: Seq<T>,
    v: Seq<T>,
    owner: Seq<char>,
    at: u64,
)
    ensures
        m.write(id, k, v, owner, at) is Ok <==> {
            &&& k.len() == m.d_k
            &&& v.len() == m.d_v
            &&& m.alive(id) ==> m.rows[id].owner == owner
        },
{
}

/// When a delete succeeds: the row is live and belongs to the caller.
pub proof fn delete_succeeds_iff<T>(m: MemoryView<T>, id: Seq<char>, owner: Seq<char>, at: u64)
    ensures
        m.delete(id, owner, at) is Ok <==> m.alive(id) && m.rows[id].owner == owner,
{
}

/// A read gives back what was written, and a write changes no other read.
pub proof fn read_after_write<T>(
    m: MemoryView<T>,
    id: Seq<char>,
    k: Seq<T>,
    v: Seq<T>,
    owner: Seq<char>,
    at: u64,
    other: Seq<char>,
)
    requires
        m.write(id, k, v, owner, at) is Ok,
        other != id,
    ensures
        ({
            let n = m.write(id, k, v, owner, at)->Ok_0;
            &&& n.read(id) == Some((k, v))
            &&& n.rows[id].owner == owner
            &&& n.read(other) == m.read(other)
        }),
{
}

/// A deleted row cannot be read, and a delete changes no other read. The row itself stays,
/// marked as deleted.
pub proof fn read_after_delete<T>(
    m: MemoryView<T>,
    id: Seq<char>,
    owner: Seq<char>,
    at: u64,
    other: Seq<char>,
)
    requires
        m.delete(id, owner, at) is Ok,
        other != id,
    ensures
        ({
            let n = m.delete(id, owner, at)->Ok_0;
            &&& n.read(id) is None
            &&& n.rows[id] == (RowView { deleted: true, ..m.rows[id] })
            &&& n.read(other) == m.read(other)
        }),
{
}

/// Whoever does not own a live row can neither overwrite nor delete it.
pub proof fn strangers_are_refused<T>(
    m: MemoryView<T>,
    id: Seq<char>,
    k: Seq<T>,
    v: Seq<T>,
    caller: Seq<char>,
    at: u64,
)
    requires
        m.alive(id),
        m.rows[id].owner != caller,
        k.len() == m.d_k,
        v.len() == m.d_v,
    ensures
        m.write(id, k, v, caller, at) == Err::<MemoryView<T>, ErrorView>(
            ErrorView::PermissionDenied(id, m.rows[id].owner, caller),
        ),
        m.delete(id, caller, at) == Err::<MemoryView<T>, ErrorView>(
            ErrorView::PermissionDenied(id, m.rows[id].owner, caller),
        ),
{
}

/// A row is deleted once: the owner who deletes it again is told that it is not there.
pub proof fn delete_twice<T>(
    m: MemoryView<T>,
    id: Seq<char>,
    owner: Seq<char>,
    at: u64,
    later: u64,
)
    requires
        m.delete(id, owner, at) is Ok,
    ensures
        m.delete(id, owner, at)->Ok_0.delete(id, owner, later) == Err::<MemoryView<T>, ErrorView>(
            ErrorView::KeyNotFound(id),
        ),
{
}

/// A deleted row can be written anew by anybody, who then owns it. The id keeps its place in
/// the insertion order, and the log calls it an update.
pub proof fn write_after_delete<T>(
    m: MemoryView<T>,
    id: Seq<char>,
    owner: Seq<char>,
    at: u64,
    k: Seq<T>,
    v: Seq<T>,
    caller: Seq<char>,
    later: u64,
)
    requires
        m.delete(id, owner, at) is Ok,
        k.len() == m.d_k,
        v.len() == m.d_v,
    ensures
        m.delete(id, owner, at)->Ok_0.write(id, k, v, caller, later) matches Ok(n) && {
            &&& n.read(id) == Some((k, v))
            &&& n.rows[id].owner == caller
            &&& n.order == m.order
            &&& n.log.last() == (AuditView {
                op: "update"@,
                fact_id: id,
                owner: caller,
                at: later,
            })
        },
{
}

/// An operation on a memory.
pub ghost enum Op<T> {
    Write { id: Seq<char>, k: Seq<T>, v: Seq<T>, owner: Seq<char>, at: u64 },
    Delete { id: Seq<char>, owner: Seq<char>, at: u64 },
}

impl<T> Op<T> {
    /// What the operation gives on the memory `m`.
    pub open spec fn result(self, m: MemoryView<T>) -> Result<MemoryView<T>, ErrorView> {
        match self {
            Op::Write { id, k, v, owner, at } => m.write(id, k, v, owner, at),
            Op::Delete { id, owner, at } => m.delete(id, owner, at),
        }
    }

    /// The memory after the operation: as it was if the operation is refused.
    pub open spec fn apply(self, m: MemoryView<T>) -> MemoryView<T> {
        match self.result(m) {
            Ok(n) => n,
            Err(_) => m,
        }
    }

    /// The log entry that the operation leaves if it succeeds on the memory `m`.
    pub open spec fn entry(self, m: MemoryView<T>) -> AuditView {
        match self {
            Op::Write { id, k, v, owner, at } => AuditView {
                op: if m.rows.contains_key(id) {
                    "update"@
                } else {
                    "insert"@
                },
                fact_id: id,
                owner,
                at,
            },
            Op::Delete { id, owner, at } => AuditView { op: "delete"@, fact_id: id, owner, at },
        }
    }
}

/// The memory after the operations `ops`, from left to right.
pub open spec fn run<T>(m: MemoryView<T>, ops: Seq<Op<T>>) -> MemoryView<T>
    decreases ops.len(),
{
    if ops.len() == 0 {
        m
    } else {
        ops.last().apply(run(m, ops.drop_last()))
    }
}

/// How many of the operations `ops` succeed.
pub open spec fn successes<T>(m: MemoryView<T>, ops: Seq<Op<T>>) -> nat
    decreases ops.len(),
{
    if ops.len() == 0 {
        0
    } else {
        successes(m, ops.drop_last()) + if ops.last().result(run(m, ops.drop_last())) is Ok {
            1nat
        } else {
            0
        }
    }
}

/// What every history of operations keeps: the log grows by one entry per success and never
/// changes otherwise, the insertion order only grows, the dimensions stay, no row vanishes,
/// and the memory stays well-formed.
pub proof fn history_keeps<T>(m: MemoryView<T>, ops: Seq<Op<T>>)
    requires
        m.wf(),
    ensures
        ({
            let n = run(m, ops);
            &&& n.wf()
            &&& n.d_k == m.d_k && n.d_v == m.d_v
            &&& n.log.len() == m.log.len() + successes(m, ops)
            &&& n.log.take(m.log.len() as int) == m.log
            &&& n.order.len() >= m.order.len()
            &&& n.order.take(m.order.len() as int) == m.order
            &&& m.rows.dom().subset_of(n.rows.dom())
        }),
    decreases ops.len(),
{
    if ops.len() > 0 {
        let init = ops.drop_last();
        let n = run(m, init);
        history_keeps(m, init);
        step_keeps(n, ops.last());
        let after = run(m, ops);
        assert(after.log.take(m.log.len() as int) =~= n.log.take(m.log.len() as int));
        assert(after.order.take(m.order.len() as int) =~= n.order.take(m.order.len() as int));
    } else {
        assert(m.log.take(m.log.len() as int) =~= m.log);
        assert(m.order.take(m.order.len() as int) =~= m.order);
    }
}

/// What one operation keeps. A refused one changes nothing; one that succeeds leaves exactly
/// one log entry, which names the operation, the row and the caller.
pub proof fn step_keeps<T>(m: MemoryView<T>, op: Op<T>)
    requires
        m.wf(),
    ensures
        op.apply(m).wf(),
        op.result(m) is Err ==> op.apply(m) == m,
        op.result(m) is Ok ==> op.apply(m).log == m.log.push(op.entry(m)),
        op.apply(m).d_k == m.d_k,
        op.apply(m).d_v == m.d_v,
        op.apply(m).order.len() >= m.order.len(),
        op.apply(m).order.take(m.order.len() as int) == m.order,
        m.rows.dom().subset_of(op.apply(m).rows.dom()),
{
    assert(m.order.take(m.order.len() as int) =~= m.order);
    match op {
        Op::Write { id, k, v, owner, at } => {
            write_keeps_wf(m, id, k, v, owner, at);
            assert(m.order.push(id).take(m.order.len() as int) =~= m.order);
        },
        Op::Delete { id, owner, at } => {
            delete_keeps_wf(m, id, owner, at);
        },
    }
}

/// A memory built from the empty one by writes and deletes lists every id once.
pub proof fn order_is_distinct<T>(d_k: nat, d_v: nat, ops: Seq<Op<T>>)
    ensures
        run(MemoryView::<T>::empty(d_k, d_v), ops).wf(),
        run(MemoryView::<T>::empty(d_k, d_v), ops).order.no_duplicates(),
    decreases ops.len(),
{
    let empty = MemoryView::<T>::empty(d_k, d_v);
    assert(empty.wf());
    if ops.len() > 0 {
        let init = ops.drop_last();
        order_is_distinct::<T>(d_k, d_v, init);
        let m = run(empty, init);
        step_keeps(m, ops.last());
        if let Op::Write { id, k, v, owner, at } = ops.last() {
            if !m.rows.contains_key(id) {
                assert(!m.order.contains(id));
            }
        }
    }
}

/// The last log entry about the row `id`.
pub open spec fn last_entry(log: Seq<AuditView>, id: Seq<char>) -> Option<AuditView>
    decreases log.len(),
{
    if log.len() == 0 {
        None
    } else if log.last().fact_id == id {
        Some(log.last())
    } else {
        last_entry(log.drop_last(), id)
    }
}

/// The last log entry that writes the row `id`.
pub open spec fn last_write(log: Seq<AuditView>, id: Seq<char>) -> Option<AuditView>
    decreases log.len(),
{
    if log.len() == 0 {
        None
    } else if log.last().fact_id == id && log.last().op != "delete"@ {
        Some(log.last())
    } else {
        last_write(log.drop_last(), id)
    }
}

/// The ids of the "insert" entries, in the order of the log.
pub open spec fn inserted_ids(log: Seq<AuditView>) -> Seq<Seq<char>>
    decreases log.len(),
{
    if log.len() == 0 {
        seq![]
    } else {
        let init = inserted_ids(log.drop_last());
        if log.last().op == "insert"@ {
            init.push(log.last().fact_id)
        } else {
            init
        }
    }
}

/// The log tells the state of the row `id`: there is a row iff there is an entry about it,
/// the row is deleted iff the last such entry is a delete, its owner is the one who performed
/// that entry, and it was written at the time of the last entry that is not a delete.
pub open spec fn log_tells<T>(m: MemoryView<T>, id: Seq<char>) -> bool {
    match last_entry(m.log, id) {
        None => !m.rows.contains_key(id),
        Some(e) => {
            &&& m.rows.contains_key(id)
            &&& m.rows[id].deleted <==> e.op == "delete"@
            &&& m.rows[id].owner == e.owner
            &&& last_write(m.log, id) matches Some(w) && m.rows[id].written_at == w.at
                && m.rows[id].owner == w.owner
        },
    }
}

/// In a memory built from the empty one by writes and deletes, the log tells the state of
/// every row, and the insertion order is the order of the "insert" entries.
pub proof fn log_is_faithful<T>(d_k: nat, d_v: nat, ops: Seq<Op<T>>, id: Seq<char>)
    ensures
        log_tells(run(MemoryView::<T>::empty(d_k, d_v), ops), id),
        run(MemoryView::<T>::empty(d_k, d_v), ops).order == inserted_ids(
            run(MemoryView::<T>::empty(d_k, d_v), ops).log,
        ),
    decreases ops.len(),
{
    let empty = MemoryView::<T>::empty(d_k, d_v);
    if ops.len() > 0 {
        let init = ops.drop_last();
        log_is_faithful::<T>(d_k, d_v, init, id);
        order_is_distinct::<T>(d_k, d_v, init);
        let m = run(empty, init);
        let op = ops.last();
        step_keeps(m, op);
        reveal_strlit("insert");
        reveal_strlit("update");
        reveal_strlit("delete");
        assert("insert"@[0] != "delete"@[0]);
        assert("update"@[0] != "delete"@[0]);
        assert("insert"@[0] != "update"@[0]);
        if op.result(m) is Ok {
            let n = op.apply(m);
            assert(n.log.drop_last() =~= m.log);
            assert(n.log.last() == op.entry(m));
        }
    }
}

/// A write under a new id adds one row, which is live; one under a known id adds none.
pub proof fn write_counts<T>(
    m: MemoryView<T>,
    id: Seq<char>,
    k: Seq<T>,
    v: Seq<T>,
    owner: Seq<char>,
    at: u64,
)
    requires
        m.rows.dom().finite(),
        m.write(id, k, v, owner, at) is Ok,
    ensures
        ({
            let n = m.write(id, k, v, owner, at)->Ok_0;
            &&& n.rows.dom().len() == m.rows.dom().len() + if m.rows.contains_key(id) {
                0int
            } else {
                1
            }
            &&& n.alive_ids().len() == m.alive_ids().len() + if m.alive(id) {
                0int
            } else {
                1
            }
        }),
{
    let n = m.write(id, k, v, owner, at)->Ok_0;
    alive_ids_finite(m);
    assert(n.rows.dom() =~= m.rows.dom().insert(id));
    assert(n.alive_ids() =~= m.alive_ids().insert(id));
}

/// A delete removes no row, and takes one from the live ones.
pub proof fn delete_counts<T>(m: MemoryView<T>, id: Seq<char>, owner: Seq<char>, at: u64)
    requires
        m.rows.dom().finite(),
        m.delete(id, owner, at) is Ok,
    ensures
        ({
            let n = m.delete(id, owner, at)->Ok_0;
            &&& n.rows.dom().len() == m.rows.dom().len()
            &&& n.alive_ids().len() == m.alive_ids().len() - 1
        }),
{
    let n = m.delete(id, owner, at)->Ok_0;
    alive_ids_finite(m);
    assert(n.rows.dom() =~= m.rows.dom());
    assert(n.alive_ids() =~= m.alive_ids().remove(id));
}

proof fn alive_ids_finite<T>(m: MemoryView<T>)
    requires
        m.rows.dom().finite(),
    ensures
        m.alive_ids().finite(),
{
    assert(m.alive_ids().subset_of(m.rows.dom()));
    vstd::set_lib::lemma_set_subset_finite(m.rows.dom(), m.alive_ids());
}

} // verus!
