//! The key/value memory as a mathematical object.
use crate::arith::{Algebra, Eps, Sim};
use crate::error::ErrorView;
use crate::records::Record;
use vstd::prelude::*;

verus! {

/// Content of one audit-log entry.
#[verifier::ext_equal]
pub ghost struct AuditView {
    pub op: Seq<char>,
    pub fact_id: Seq<char>,
    pub owner: Seq<char>,
    pub at: u64,
}

/// Content of one row.
#[verifier::ext_equal]
pub ghost struct RowView<T> {
    pub k: Seq<T>,
    pub v: Seq<T>,
    pub owner: Seq<char>,
    pub written_at: u64,
    pub deleted: bool,
}

/// Content of a memory: its dimensions, its rows by id, the ids in the order in which they
/// came, and the audit log.
#[verifier::ext_equal]
#[verifier::reject_recursive_types(T)]
pub ghost struct MemoryView<T> {
    pub d_k: nat,
    pub d_v: nat,
    pub rows: Map<Seq<char>, RowView<T>>,
    pub order: Seq<Seq<char>>,
    pub log: Seq<AuditView>,
}

impl<T> MemoryView<T> {
    /// The memory without rows.
    pub open spec fn empty(d_k: nat, d_v: nat) -> MemoryView<T> {
        MemoryView { d_k, d_v, rows: Map::empty(), order: seq![], log: seq![] }
    }

    /// Every row has the dimensions of the memory, and the ids of the rows are those that
    /// came.
    pub open spec fn wf(self) -> bool {
        &&& forall|id: Seq<char>| #[trigger]
            self.rows.contains_key(id) ==> self.rows[id].k.len() == self.d_k
                && self.rows[id].v.len() == self.d_v
        &&& forall|id: Seq<char>| #[trigger]
            self.rows.contains_key(id) <==> self.order.contains(id)
    }

    /// There is a row under `id` and it was not deleted.
    pub open spec fn alive(self, id: Seq<char>) -> bool {
        self.rows.contains_key(id) && !self.rows[id].deleted
    }

    /// The ids of the live rows.
    pub open spec fn alive_ids(self) -> Set<Seq<char>> {
        Set::new(|id: Seq<char>| self.alive(id))
    }

    /// The ids of the live rows among `ids`, in the order of `ids`.
    pub open spec fn alive_among(self, ids: Seq<Seq<char>>) -> Seq<Seq<char>>
        decreases ids.len(),
    {
        if ids.len() == 0 {
            seq![]
        } else {
            let init = self.alive_among(ids.drop_last());
            if self.alive(ids.last()) {
                init.push(ids.last())
            } else {
                init
            }
        }
    }

    /// The ids of the live rows, in insertion order.
    pub open spec fn alive_order(self) -> Seq<Seq<char>> {
        self.alive_among(self.order)
    }

    /// Keys of the rows `ids`.
    pub open spec fn keys_of(self, ids: Seq<Seq<char>>) -> Seq<Seq<T>> {
        Seq::new(ids.len(), |i: int| self.rows[ids[i]].k)
    }

    /// Values of the rows `ids`.
    pub open spec fn values_of(self, ids: Seq<Seq<char>>) -> Seq<Seq<T>> {
        Seq::new(ids.len(), |i: int| self.rows[ids[i]].v)
    }

    /// What an exact read of `id` gives.
    pub open spec fn read(self, id: Seq<char>) -> Option<(Seq<T>, Seq<T>)> {
        if self.alive(id) {
            Some((self.rows[id].k, self.rows[id].v))
        } else {
            None
        }
    }

    /// Insert or update a row at time `at`. A live row is overwritten by its owner only; a
    /// deleted one by anybody.
    pub open spec fn write(
        self,
        id: Seq<char>,
        k: Seq<T>,
        v: Seq<T>,
        owner: Seq<char>,
        at: u64,
    ) -> Result<MemoryView<T>, ErrorView> {
        if k.len() != self.d_k {
            Err(ErrorView::DimensionMismatch { expected: self.d_k as int, got: k.len() as int })
        } else if v.len() != self.d_v {
            Err(ErrorView::DimensionMismatch { expected: self.d_v as int, got: v.len() as int })
        } else if self.alive(id) && self.rows[id].owner != owner {
            Err(ErrorView::PermissionDenied(id, self.rows[id].owner, owner))
        } else {
            let known = self.rows.contains_key(id);
            let op = if known {
                "update"@
            } else {
                "insert"@
            };
            Ok(
                MemoryView {
                    rows: self.rows.insert(
                        id,
                        RowView { k, v, owner, written_at: at, deleted: false },
                    ),
                    order: if known {
                        self.order
                    } else {
                        self.order.push(id)
                    },
                    log: self.log.push(AuditView { op, fact_id: id, owner, at }),
                    ..self
                },
            )
        }
    }

    /// Mark a row as deleted at time `at`. Only its owner may do so, and only once.
    pub open spec fn delete(self, id: Seq<char>, owner: Seq<char>, at: u64) -> Result<
        MemoryView<T>,
        ErrorView,
    > {
        if !self.rows.contains_key(id) {
            Err(ErrorView::KeyNotFound(id))
        } else if self.rows[id].owner != owner {
            Err(ErrorView::PermissionDenied(id, self.rows[id].owner, owner))
        } else if self.rows[id].deleted {
            Err(ErrorView::KeyNotFound(id))
        } else {
            Ok(
                MemoryView {
                    rows: self.rows.insert(id, RowView { deleted: true, ..self.rows[id] }),
                    log: self.log.push(AuditView { op: "delete"@, fact_id: id, owner, at }),
                    ..self
                },
            )
        }
    }

    /// Put back a row that a snapshot holds.
    pub open spec fn restore(self, id: Seq<char>, row: RowView<T>) -> MemoryView<T> {
        MemoryView { rows: self.rows.insert(id, row), order: self.order.push(id), ..self }
    }

    /// Put back the rows `rows` under the ids `ids`, from left to right.
    pub open spec fn restore_all(self, ids: Seq<Seq<char>>, rows: Seq<RowView<T>>) -> MemoryView<T>
        decreases ids.len(),
    {
        if ids.len() == 0 {
            self
        } else {
            self.restore_all(ids.drop_last(), rows.drop_last()).restore(ids.last(), rows.last())
        }
    }

    /// Put back the log entries that a snapshot holds.
    pub open spec fn replay(self, entries: Seq<AuditView>) -> MemoryView<T> {
        MemoryView { log: self.log + entries, ..self }
    }

    /// The live rows among `ids` as records, scored against the query `x`.
    pub open spec fn records(
        self,
        alg: Algebra<T>,
        sim: Sim,
        x: Seq<T>,
        ids: Seq<Seq<char>>,
    ) -> Seq<Record<T>>
        decreases ids.len(),
    {
        if ids.len() == 0 {
            seq![]
        } else {
            let init = self.records(alg, sim, x, ids.drop_last());
            if self.alive(ids.last()) {
                let row = self.rows[ids.last()];
                init.push(Record { s: alg.similarity(sim, x, row.k), v: row.v })
            } else {
                init
            }
        }
    }

    /// The attention over the live rows, if the query has the dimension of the keys and some
    /// row is live.
    pub open spec fn attend(self, alg: Algebra<T>, eps: Eps<T>, sim: Sim, x: Seq<T>) -> Option<
        Seq<T>,
    > {
        let r = self.records(alg, sim, x, self.order);
        if x.len() != self.d_k || r.len() == 0 {
            None
        } else {
            Some(alg.attention(eps, r, self.d_v))
        }
    }
}

/// A write keeps a memory well-formed.
pub proof fn write_keeps_wf<T>(
    m: MemoryView<T>,
    id: Seq<char>,
    k: Seq<T>,
    v: Seq<T>,
    owner: Seq<char>,
    at: u64,
)
    requires
        m.wf(),
    ensures
        m.write(id, k, v, owner, at) matches Ok(n) ==> n.wf(),
{
    if let Ok(n) = m.write(id, k, v, owner, at) {
        contains_after_push(m.order, id);
        assert forall|x: Seq<char>| #[trigger] n.rows.contains_key(x) <==> n.order.contains(x) by {
            assert(m.rows.contains_key(x) <==> m.order.contains(x));
        }
    }
}

/// Pushing an id adds that id and no other.
pub proof fn contains_after_push(ids: Seq<Seq<char>>, id: Seq<char>)
    ensures
        forall|x: Seq<char>| #[trigger] ids.push(id).contains(x) <==> x == id || ids.contains(x),
{
    let pushed = ids.push(id);
    assert forall|x: Seq<char>| #[trigger] pushed.contains(x) <==> x == id || ids.contains(x) by {
        if ids.contains(x) {
            let i = choose|i: int| 0 <= i < ids.len() && ids[i] == x;
            assert(pushed[i] == x);
        }
        assert(pushed[ids.len() as int] == id);
    }
}

/// A delete keeps a memory well-formed.
pub proof fn delete_keeps_wf<T>(m: MemoryView<T>, id: Seq<char>, owner: Seq<char>, at: u64)
    requires
        m.wf(),
    ensures
        m.delete(id, owner, at) matches Ok(n) ==> n.wf(),
{
    if let Ok(n) = m.delete(id, owner, at) {
        assert forall|x: Seq<char>| #[trigger] n.rows.contains_key(x) <==> n.order.contains(x) by {
            assert(m.rows.contains_key(x) <==> m.order.contains(x));
        }
    }
}

/// Putting back a row of the right dimensions keeps a memory well-formed.
pub proof fn restore_keeps_wf<T>(m: MemoryView<T>, id: Seq<char>, row: RowView<T>)
    requires
        m.wf(),
        row.k.len() == m.d_k,
        row.v.len() == m.d_v,
    ensures
        m.restore(id, row).wf(),
{
    let n = m.restore(id, row);
    contains_after_push(m.order, id);
    assert forall|x: Seq<char>| #[trigger] n.rows.contains_key(x) <==> n.order.contains(x) by {
        assert(m.rows.contains_key(x) <==> m.order.contains(x));
    }
}

} // verus!
