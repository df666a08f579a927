//! In-memory key/value store with owner-enforced delete and an audit log.
use crate::arith::copy_vec;
use crate::error::{BruceError, ErrorView};
use crate::matrix::{rows_view, Matrix, MatrixView};
use crate::model::{
    delete_keeps_wf, restore_keeps_wf, write_keeps_wf, AuditView, MemoryView, RowView,
};
use crate::outside::{
    clock_reading, clock_returned, index_get, index_insert, index_len, index_new, now, slots, timestamp,
};
use ahash::AHashMap;
use vstd::prelude::*;
use vstd::string::*;

verus! {

/// One audit-log entry. The log is an append-only history of every write and delete.
#[derive(Debug)]
pub struct AuditEntry {
    /// Operation: "insert", "update" or "delete".
    pub op: String,
    /// Fact identifier.
    pub fact_id: String,
    /// Owner that performed the operation.
    pub owner: String,
    /// Wall-clock time in Unix seconds, as the bits of a floating-point number.
    pub at: u64,
}

impl View for AuditEntry {
    type V = AuditView;

    open spec fn view(&self) -> AuditView {
        AuditView { op: self.op@, fact_id: self.fact_id@, owner: self.owner@, at: self.at }
    }
}

impl Clone for AuditEntry {
    fn clone(&self) -> (entry: Self)
        ensures
            entry@ == self@,
    {
        AuditEntry {
            op: self.op.clone(),
            fact_id: self.fact_id.clone(),
            owner: self.owner.clone(),
            at: self.at,
        }
    }
}

/// One row of the memory.
pub struct Row<T> {
    pub k: Vec<T>,
    pub v: Vec<T>,
    pub owner: String,
    /// Wall-clock time in Unix seconds, as the bits of a floating-point number.
    pub written_at: u64,
    pub deleted: bool,
}

impl<T> View for Row<T> {
    type V = RowView<T>;

    open spec fn view(&self) -> RowView<T> {
        RowView {
            k: self.k@,
            v: self.v@,
            owner: self.owner@,
            written_at: self.written_at,
            deleted: self.deleted,
        }
    }
}

/// Contents of a list of texts.
pub open spec fn texts_view(texts: Seq<String>) -> Seq<Seq<char>> {
    Seq::new(texts.len(), |i: int| texts[i]@)
}

/// Contents of a log.
pub open spec fn log_view(log: Seq<AuditEntry>) -> Seq<AuditView> {
    Seq::new(log.len(), |i: int| log[i]@)
}

/// Append-only key/value memory with owner-enforced delete and audit log.
pub struct KvMemory<T> {
    d_k: usize,
    d_v: usize,
    /// The slot of each id.
    index: AHashMap<String, usize>,
    /// The row in each slot.
    rows: Vec<Row<T>>,
    /// The id of each slot.
    ids: Ghost<Seq<Seq<char>>>,
    insertion_order: Vec<String>,
    log: Vec<AuditEntry>,
}

impl<T> View for KvMemory<T> {
    type V = MemoryView<T>;

    closed spec fn view(&self) -> MemoryView<T> {
        MemoryView {
            d_k: self.d_k as nat,
            d_v: self.d_v as nat,
            rows: Map::new(
                |id: Seq<char>| slots(self.index).contains_key(id),
                |id: Seq<char>| self.rows@[slots(self.index)[id] as int]@,
            ),
            order: texts_view(self.insertion_order@),
            log: log_view(self.log@),
        }
    }
}

/// The result and the new state of an operation are those of the model.
pub open spec fn follows<T>(
    result: Result<(), BruceError>,
    before: MemoryView<T>,
    after: MemoryView<T>,
    model: Result<MemoryView<T>, ErrorView>,
) -> bool {
    match (result, model) {
        (Ok(_), Ok(m)) => after == m,
        (Err(e), Err(f)) => e@ == f && after == before,
        _ => false,
    }
}

impl<T> KvMemory<T> {
    /// Ids and slots correspond one to one.
    pub closed spec fn indexed(self) -> bool {
        let idx = slots(self.index);
        &&& self.ids@.len() == self.rows@.len()
        &&& forall|id: Seq<char>| #[trigger]
            idx.contains_key(id) ==> idx[id] < self.rows@.len() && self.ids@[idx[id] as int] == id
        &&& forall|i: int|
            0 <= i < self.rows@.len() ==> idx.contains_key(#[trigger] self.ids@[i])
                && idx[self.ids@[i]] == i
    }

    /// The memory is well-formed.
    pub open spec fn wf(self) -> bool {
        self.indexed() && self@.wf()
    }
}

impl<T: Copy> KvMemory<T> {
    /// Create an empty memory for keys of length `d_k` and values of length `d_v`.
    pub fn new(d_k: usize, d_v: usize) -> (m: Self)
        ensures
            m.wf(),
            m@ == MemoryView::<T>::empty(d_k as nat, d_v as nat),
    {
        let m = KvMemory {
            d_k,
            d_v,
            index: index_new(),
            rows: Vec::new(),
            ids: Ghost(Seq::empty()),
            insertion_order: Vec::new(),
            log: Vec::new(),
        };
        assert(m@.rows =~= Map::empty());
        assert(m@.order =~= seq![]);
        assert(m@.log =~= seq![]);
        m
    }

    /// Insert or owner-update a record at the current time.
    pub fn write(&mut self, fact_id: &str, k: &[T], v: &[T], owner: &str) -> (result: Result<
        (),
        BruceError,
    >)
        requires
            old(self).wf(),
        ensures
            final(self).wf(),
            exists|reading: Option<(u64, u32)>|
                clock_returned(reading) && clock_reading(reading) && follows(
                    result,
                    old(self)@,
                    final(self)@,
                    old(self)@.write(fact_id@, k@, v@, owner@, #[trigger] timestamp(reading)),
                ),
    {
        let at: u64 = now();
        self.write_at(fact_id, k, v, owner, at)
    }

    /// Insert or owner-update a record at time `at`.
    pub fn write_at(&mut self, fact_id: &str, k: &[T], v: &[T], owner: &str, at: u64) -> (result:
        Result<(), BruceError>)
        requires
            old(self).wf(),
        ensures
            final(self).wf(),
            follows(
                result,
                old(self)@,
                final(self)@,
                old(self)@.write(fact_id@, k@, v@, owner@, at),
            ),
    {
        if k.len() != self.d_k {
            return Err(BruceError::DimensionMismatch { expected: self.d_k, got: k.len() });
        }
        if v.len() != self.d_v {
            return Err(BruceError::DimensionMismatch { expected: self.d_v, got: v.len() });
        }
        let row = Row {
            k: copy_vec(k),
            v: copy_vec(v),
            owner: owner.to_owned(),
            written_at: at,
            deleted: false,
        };
        let ghost before = *self;
        let op = match index_get(&self.index, fact_id) {
            Some(slot) => {
                let existing = &self.rows[slot];
                if !existing.deleted && !(existing.owner == row.owner) {
                    return Err(
                        BruceError::PermissionDenied(
                            fact_id.to_owned(),
                            existing.owner.clone(),
                            owner.to_owned(),
                        ),
                    );
                }
                self.rows.set(slot, row);
                "update"
            },
            None => {
                let slot: usize = self.rows.len();
                self.insertion_order.push(fact_id.to_owned());
                index_insert(&mut self.index, fact_id.to_owned(), slot);
                self.rows.push(row);
                proof {
                    self.ids@ = self.ids@.push(fact_id@);
                }
                "insert"
            },
        };
        self.log.push(
            AuditEntry {
                op: op.to_owned(),
                fact_id: fact_id.to_owned(),
                owner: owner.to_owned(),
                at,
            },
        );
        proof {
            let m = before@.write(fact_id@, k@, v@, owner@, at)->Ok_0;
            assert(self@.rows =~= m.rows);
            assert(self@.order =~= m.order);
            assert(self@.log =~= m.log);
            assert(self@ =~= m);
            write_keeps_wf(before@, fact_id@, k@, v@, owner@, at);
        }
        Ok(())
    }

    /// Delete (mark) a record at the current time. Only the owner may delete.
    pub fn delete(&mut self, fact_id: &str, owner: &str) -> (result: Result<(), BruceError>)
        requires
            old(self).wf(),
        ensures
            final(self).wf(),
            exists|reading: Option<(u64, u32)>|
                clock_returned(reading) && clock_reading(reading) && follows(
                    result,
                    old(self)@,
                    final(self)@,
                    old(self)@.delete(fact_id@, owner@, #[trigger] timestamp(reading)),
                ),
    {
        let at: u64 = now();
        self.delete_at(fact_id, owner, at)
    }

    /// Delete (mark) a record at time `at`. Only the owner may delete.
    pub fn delete_at(&mut self, fact_id: &str, owner: &str, at: u64) -> (result: Result<
        (),
        BruceError,
    >)
        requires
            old(self).wf(),
        ensures
            final(self).wf(),
            follows(result, old(self)@, final(self)@, old(self)@.delete(fact_id@, owner@, at)),
    {
        let caller = owner.to_owned();
        let slot: usize = match index_get(&self.index, fact_id) {
            Some(slot) => slot,
            None => {
                return Err(BruceError::KeyNotFound(fact_id.to_owned()));
            },
        };
        if !(self.rows[slot].owner == caller) {
            return Err(
                BruceError::PermissionDenied(
                    fact_id.to_owned(),
                    self.rows[slot].owner.clone(),
                    caller,
                ),
            );
        }
        if self.rows[slot].deleted {
            return Err(BruceError::KeyNotFound(fact_id.to_owned()));
        }
        let ghost before = *self;
        self.rows[slot].deleted = true;
        self.log.push(
            AuditEntry {
                op: "delete".to_owned(),
                fact_id: fact_id.to_owned(),
                owner: caller,
                at,
            },
        );
        proof {
            let m = before@.delete(fact_id@, owner@, at)->Ok_0;
            assert(self@.rows =~= m.rows);
            assert(self@.order =~= m.order);
            assert(self@.log =~= m.log);
            assert(self@ =~= m);
            delete_keeps_wf(before@, fact_id@, owner@, at);
        }
        Ok(())
    }

    /// Read: exact lookup by id. `None` if there is no live row.
    pub fn read_exact(&self, fact_id: &str) -> (found: Option<(&Vec<T>, &Vec<T>)>)
        requires
            self.wf(),
        ensures
            match found {
                Some((k, v)) => self@.read(fact_id@) == Some((k@, v@)),
                None => self@.read(fact_id@) is None,
            },
    {
        match index_get(&self.index, fact_id) {
            Some(slot) => {
                let row = &self.rows[slot];
                if row.deleted {
                    None
                } else {
                    Some((&row.k, &row.v))
                }
            },
            None => None,
        }
    }

    /// The row of the `n`-th id, deleted or not.
    pub fn known(&self, n: usize) -> (row: &Row<T>)
        requires
            self.wf(),
            n < self@.order.len(),
        ensures
            self@.rows.contains_key(self@.order[n as int]),
            row@ == self@.rows[self@.order[n as int]],
            row@.k.len() == self@.d_k,
            row@.v.len() == self@.d_v,
    {
        let id = &self.insertion_order[n];
        assert(self@.order.contains(self@.order[n as int]));
        assert(self@.rows.contains_key(id@));
        let slot: usize = index_get(&self.index, id.as_str()).unwrap();
        &self.rows[slot]
    }

    /// Number of rows including deleted ones.
    pub fn len_total(&self) -> (n: usize)
        requires
            self.wf(),
        ensures
            self@.rows.dom().finite(),
            n == self@.rows.dom().len(),
    {
        proof {
            self.lemma_ids();
            assert(self@.rows.dom() =~= slots(self.index).dom());
        }
        index_len(&self.index)
    }

    /// The ids of the slots are the ids of the rows.
    proof fn lemma_ids(&self)
        requires
            self.wf(),
        ensures
            self@.rows.dom() == self.ids@.to_set(),
            self@.rows.dom().finite(),
    {
        assert forall|id: Seq<char>| #[trigger] self@.rows.dom().contains(id)
            == self.ids@.to_set().contains(id) by {
            if self@.rows.dom().contains(id) {
                assert(slots(self.index).contains_key(id));
                assert(self.ids@[slots(self.index)[id] as int] == id);
            }
        }
        assert(self@.rows.dom() =~= self.ids@.to_set());
        vstd::seq_lib::seq_to_set_is_finite(self.ids@);
    }

    /// Number of live rows.
    pub fn len_alive(&self) -> (n: usize)
        requires
            self.wf(),
        ensures
            self@.alive_ids().finite(),
            n == self@.alive_ids().len(),
    {
        let mut n: usize = 0;
        let mut i: usize = 0;
        assert(self.alive_below(0) =~= Set::empty());
        while i < self.rows.len()
            invariant
                self.wf(),
                i <= self.rows@.len(),
                n <= i,
                self.alive_below(i as int).finite(),
                n == self.alive_below(i as int).len(),
            decreases self.rows@.len() - i,
        {
            proof {
                let id = self.ids@[i as int];
                assert(slots(self.index).contains_key(id) && slots(self.index)[id] == i);
                assert forall|x: Seq<char>| #[trigger]
                    slots(self.index).contains_key(x) && slots(self.index)[x] == i implies x
                    == id by {}
                if self.rows@[i as int].deleted {
                    assert(self.alive_below(i + 1) =~= self.alive_below(i as int));
                } else {
                    assert(self.alive_below(i + 1) =~= self.alive_below(i as int).insert(id));
                }
            }
            if !self.rows[i].deleted {
                n += 1;
            }
            i += 1;
        }
        assert(self.alive_below(i as int) =~= self@.alive_ids());
        n
    }

    /// The ids of the live rows in the first `i` slots.
    closed spec fn alive_below(self, i: int) -> Set<Seq<char>> {
        Set::new(|id: Seq<char>| self@.alive(id) && slots(self.index)[id] < i)
    }

    /// The ids, keys and values of the live rows, in insertion order.
    pub fn snapshot_alive(&self) -> (snapshot: (Vec<String>, Matrix<T>, Matrix<T>))
        requires
            self.wf(),
        ensures
            texts_view(snapshot.0@) == self@.alive_order(),
            snapshot.1@ == (MatrixView {
                ncols: self@.d_k,
                rows: self@.keys_of(self@.alive_order()),
            }),
            snapshot.2@ == (MatrixView {
                ncols: self@.d_v,
                rows: self@.values_of(self@.alive_order()),
            }),
    {
        let mut ids: Vec<String> = Vec::new();
        let mut ks: Vec<Vec<T>> = Vec::new();
        let mut vs: Vec<Vec<T>> = Vec::new();
        let mut n: usize = 0;
        while n < self.insertion_order.len()
            invariant
                self.wf(),
                n <= self.insertion_order@.len(),
                texts_view(ids@) == self@.alive_among(self@.order.take(n as int)),
                rows_view(ks@) == self@.keys_of(texts_view(ids@)),
                rows_view(vs@) == self@.values_of(texts_view(ids@)),
                forall|i: int| 0 <= i < ks@.len() ==> (#[trigger] ks@[i])@.len() == self.d_k,
                forall|i: int| 0 <= i < vs@.len() ==> (#[trigger] vs@[i])@.len() == self.d_v,
            decreases self.insertion_order@.len() - n,
        {
            let id = &self.insertion_order[n];
            proof {
                let done = self@.order.take(n as int);
                let more = self@.order.take(n + 1);
                assert(more.drop_last() =~= done);
                assert(more.last() == id@);
            }
            let row = self.known(n);
            if !row.deleted {
                let ghost before = texts_view(ids@);
                let ghost (ks0, vs0) = (rows_view(ks@), rows_view(vs@));
                ids.push(id.clone());
                ks.push(copy_vec(row.k.as_slice()));
                vs.push(copy_vec(row.v.as_slice()));
                proof {
                    assert(texts_view(ids@) =~= before.push(id@));
                    assert(rows_view(ks@) =~= ks0.push(row.k@));
                    assert(rows_view(vs@) =~= vs0.push(row.v@));
                    assert(rows_view(ks@) =~= self@.keys_of(texts_view(ids@)));
                    assert(rows_view(vs@) =~= self@.values_of(texts_view(ids@)));
                }
            }
            n += 1;
        }
        assert(self@.order.take(n as int) =~= self@.order);
        (ids, Matrix::of_rows(self.d_k, ks), Matrix::of_rows(self.d_v, vs))
    }

    /// Put back a row that a snapshot holds. A later row replaces an earlier one of the same
    /// id.
    pub fn restore_row(&mut self, id: String, row: Row<T>)
        requires
            old(self).wf(),
            row@.k.len() == old(self)@.d_k,
            row@.v.len() == old(self)@.d_v,
        ensures
            final(self).wf(),
            final(self)@ == old(self)@.restore(id@, row@),
    {
        let ghost before = *self;
        match index_get(&self.index, id.as_str()) {
            Some(slot) => {
                self.rows.set(slot, row);
            },
            None => {
                let slot: usize = self.rows.len();
                index_insert(&mut self.index, id.clone(), slot);
                self.rows.push(row);
                proof {
                    self.ids@ = self.ids@.push(id@);
                }
            },
        }
        self.insertion_order.push(id);
        proof {
            let m = before@.restore(id@, row@);
            assert(self@.rows =~= m.rows);
            assert(self@.order =~= m.order);
            assert(self@ =~= m);
            restore_keeps_wf(before@, id@, row@);
        }
    }

    /// Put back the log entries that a snapshot holds.
    pub fn replay(&mut self, entries: &[AuditEntry])
        requires
            old(self).wf(),
        ensures
            final(self).wf(),
            final(self)@ == old(self)@.replay(log_view(entries@)),
    {
        let ghost before = *self;
        let mut n: usize = 0;
        while n < entries.len()
            invariant
                n <= entries@.len(),
                self.wf(),
                self@.rows == before@.rows,
                self@ == before@.replay(log_view(entries@.take(n as int))),
            decreases entries@.len() - n,
        {
            let ghost prev = *self;
            self.log.push(entries[n].clone());
            proof {
                let done = log_view(entries@.take(n as int));
                let more = log_view(entries@.take(n + 1));
                assert(more =~= done.push(entries@[n as int]@));
                assert(self@.rows =~= prev@.rows);
                assert(self@.log =~= prev@.log.push(entries@[n as int]@));
                assert(self@.log =~= before@.log + more);
                assert(self@ =~= before@.replay(more));
            }
            n += 1;
        }
        assert(entries@.take(n as int) =~= entries@);
    }

    /// The full audit log.
    pub fn audit_log(&self) -> (log: &[AuditEntry])
        ensures
            log_view(log@) == self@.log,
    {
        self.log.as_slice()
    }

    /// Dimension of the keys.
    pub fn key_dim(&self) -> (d_k: usize)
        ensures
            d_k == self@.d_k,
    {
        self.d_k
    }

    /// Dimension of the values.
    pub fn value_dim(&self) -> (d_v: usize)
        ensures
            d_v == self@.d_v,
    {
        self.d_v
    }

    /// The ids in the order in which they came.
    pub fn ids(&self) -> (ids: &Vec<String>)
        ensures
            texts_view(ids@) == self@.order,
    {
        &self.insertion_order
    }
}

} // verus!
