//! Laws of snapshots: loading gives back what was saved.
use crate::error::ErrorView;
use crate::model::{MemoryView, RowView};
use crate::snapshot::{lists_fit, width_of, Batch, BatchView, FoundColumn};
use vstd::prelude::*;

verus! {

/// A batch is seen column by column, and a column entry by entry.
pub proof fn batch_columns<T>(b: Batch<T>)
    ensures
        b@.num_rows == b.num_rows,
        b@.fact_id is Some <==> b.fact_id is Some,
        b.fact_id matches Some(c) ==> b@.fact_id->0.len() == c@.len() && forall|i: int|
            0 <= i < c@.len() ==> #[trigger] b@.fact_id->0[i] == c@[i]@,
        b@.k is Some <==> b.k is Some,
        b.k matches Some(c) ==> (b@.k->0 is Some <==> c.rows is Some),
        b.k matches Some(c) ==> (c.rows matches Some(rows) ==> b@.k->0->0.len() == rows@.len()
            && forall|i: int| 0 <= i < rows@.len() ==> #[trigger] b@.k->0->0[i] == rows@[i]@),
        b@.v is Some <==> b.v is Some,
        b.v matches Some(c) ==> (b@.v->0 is Some <==> c.rows is Some),
        b.v matches Some(c) ==> (c.rows matches Some(rows) ==> b@.v->0->0.len() == rows@.len()
            && forall|i: int| 0 <= i < rows@.len() ==> #[trigger] b@.v->0->0[i] == rows@[i]@),
        b@.owner is Some <==> b.owner is Some,
        b.owner matches Some(c) ==> b@.owner->0.len() == c@.len() && forall|i: int|
            0 <= i < c@.len() ==> #[trigger] b@.owner->0[i] == c@[i]@,
        b@.written_at is Some <==> b.written_at is Some,
        b.written_at matches Some(c) ==> b@.written_at->0 == c@,
        b@.deleted is Some <==> b.deleted is Some,
        b.deleted matches Some(c) ==> b@.deleted->0 == c@,
{
}

/// What a snapshot holds: one row per id in insertion order, and in each row, entry by entry,
/// the key, the value, the owner, the time and the mark of the row under that id.
pub proof fn saved_entries<T>(m: MemoryView<T>, n: int)
    requires
        0 <= n < m.order.len(),
    ensures
        ({
            let b = m.batch();
            let row = m.rows[m.order[n]];
            &&& b.num_rows == m.order.len()
            &&& b.fact_id matches Some(c) && c.len() == m.order.len() && c[n] == m.order[n]
            &&& b.k matches Some(Some(c)) && c.len() == m.order.len() && c[n].len() == row.k.len()
                && forall|i: int| 0 <= i < row.k.len() ==> #[trigger] c[n][i] == row.k[i]
            &&& b.v matches Some(Some(c)) && c.len() == m.order.len() && c[n].len() == row.v.len()
                && forall|i: int| 0 <= i < row.v.len() ==> #[trigger] c[n][i] == row.v[i]
            &&& b.owner matches Some(c) && c.len() == m.order.len() && c[n] == row.owner
            &&& b.written_at matches Some(c) && c.len() == m.order.len() && c[n]
                == row.written_at
            &&& b.deleted matches Some(c) && c.len() == m.order.len() && c[n] == row.deleted
        }),
{
}

/// What a batch must look like to be loaded: every column that is there has one entry per
/// row, and every list has at least the entries of a key or a value.
pub proof fn fitting<T>(b: BatchView<T>, d_k: nat, d_v: nat)
    requires
        b.fact_id matches Some(c) ==> c.len() == b.num_rows,
        b.k matches Some(Some(c)) ==> c.len() == b.num_rows && forall|r: int|
            0 <= r < c.len() ==> (#[trigger] c[r]).len() >= d_k,
        b.v matches Some(Some(c)) ==> c.len() == b.num_rows && forall|r: int|
            0 <= r < c.len() ==> (#[trigger] c[r]).len() >= d_v,
        b.owner matches Some(c) ==> c.len() == b.num_rows,
        b.written_at matches Some(c) ==> c.len() == b.num_rows,
        b.deleted matches Some(c) ==> c.len() == b.num_rows,
    ensures
        b.fits(d_k, d_v),
{
}

/// Which batches are refused, and how: the first column that is missing is named, in the
/// order of the columns, and after that a list column whose items have the wrong type, if
/// there is a row.
pub proof fn refusals<T>(m: MemoryView<T>, b: BatchView<T>)
    ensures
        m.load(b) is Ok <==> {
            &&& b.fact_id is Some
            &&& b.k is Some
            &&& b.v is Some
            &&& b.owner is Some
            &&& b.written_at is Some
            &&& b.deleted is Some
            &&& b.num_rows > 0 ==> b.k->0 is Some && b.v->0 is Some
        },
        m.load(b) matches Err(e) ==> e == ErrorView::Other(
            if b.fact_id is None {
                "fact_id column"@
            } else if b.k is None {
                "k column"@
            } else if b.v is None {
                "v column"@
            } else if b.owner is None {
                "owner column"@
            } else if b.written_at is None {
                "at column"@
            } else if b.deleted is None {
                "deleted column"@
            } else if b.k->0 is None {
                "k inner"@
            } else {
                "v inner"@
            },
        ),
{
}

/// What loading a batch does: the ids go to the end of the insertion order; under each id
/// stands, entry by entry, what the last row of the batch with that id holds; no other row
/// changes, and the log does not.
pub proof fn loaded_entries<T>(m: MemoryView<T>, b: BatchView<T>, r: int, other: Seq<char>)
    requires
        b.fact_id matches Some(c) && c.len() == b.num_rows,
        b.k matches Some(Some(c)) && c.len() == b.num_rows && forall|t: int|
            0 <= t < c.len() ==> (#[trigger] c[t]).len() >= m.d_k,
        b.v matches Some(Some(c)) && c.len() == b.num_rows && forall|t: int|
            0 <= t < c.len() ==> (#[trigger] c[t]).len() >= m.d_v,
        b.owner matches Some(c) && c.len() == b.num_rows,
        b.written_at matches Some(c) && c.len() == b.num_rows,
        b.deleted matches Some(c) && c.len() == b.num_rows,
        0 <= r < b.num_rows,
        forall|t: int| r < t < b.num_rows ==> #[trigger] b.fact_id->0[t] != b.fact_id->0[r],
        forall|t: int| 0 <= t < b.num_rows ==> #[trigger] b.fact_id->0[t] != other,
    ensures
        m.load(b) matches Ok(n) && {
            &&& n.d_k == m.d_k && n.d_v == m.d_v
            &&& n.order == m.order + b.fact_id->0
            &&& n.log == m.log
            &&& n.rows.contains_key(b.fact_id->0[r])
            &&& n.rows[b.fact_id->0[r]].k.len() == m.d_k
            &&& forall|c: int|
                0 <= c < m.d_k ==> #[trigger] n.rows[b.fact_id->0[r]].k[c] == b.k->0->0[r][c]
            &&& n.rows[b.fact_id->0[r]].v.len() == m.d_v
            &&& forall|c: int|
                0 <= c < m.d_v ==> #[trigger] n.rows[b.fact_id->0[r]].v[c] == b.v->0->0[r][c]
            &&& n.rows[b.fact_id->0[r]].owner == b.owner->0[r]
            &&& n.rows[b.fact_id->0[r]].written_at == b.written_at->0[r]
            &&& n.rows[b.fact_id->0[r]].deleted == b.deleted->0[r]
            &&& n.rows.contains_key(other) <==> m.rows.contains_key(other)
            &&& m.rows.contains_key(other) ==> n.rows[other] == m.rows[other]
        },
{
    let ids = b.fact_id->0;
    let rows = b.rows(m.d_k, m.d_v);
    assert(ids.take(b.num_rows as int) =~= ids);
    restored_last(m, ids, rows, r);
    restored_frame(m, ids, rows, other);
    assert(b.k->0->0[r].len() >= m.d_k);
    assert(b.v->0->0[r].len() >= m.d_v);
    assert(rows[r].k == b.k->0->0[r].take(m.d_k as int));
    assert(rows[r].v == b.v->0->0[r].take(m.d_v as int));
}

/// Loading a batch without rows changes nothing.
pub proof fn nothing_to_load<T>(m: MemoryView<T>, b: BatchView<T>)
    requires
        b.num_rows == 0,
        m.load(b) is Ok,
    ensures
        m.load(b)->Ok_0 == m,
{
}

/// Putting back rows appends their ids and leaves other rows and the log alone.
pub proof fn restored_frame<T>(
    m: MemoryView<T>,
    ids: Seq<Seq<char>>,
    rows: Seq<RowView<T>>,
    other: Seq<char>,
)
    requires
        forall|t: int| 0 <= t < ids.len() ==> #[trigger] ids[t] != other,
    ensures
        ({
            let n = m.restore_all(ids, rows);
            &&& n.d_k == m.d_k && n.d_v == m.d_v && n.log == m.log
            &&& n.order == m.order + ids
            &&& n.rows.contains_key(other) <==> m.rows.contains_key(other)
            &&& m.rows.contains_key(other) ==> n.rows[other] == m.rows[other]
        }),
    decreases ids.len(),
{
    if ids.len() > 0 {
        let init = ids.drop_last();
        assert forall|t: int| 0 <= t < init.len() implies #[trigger] init[t] != other by {
            assert(ids[t] != other);
        }
        restored_frame(m, init, rows.drop_last(), other);
        assert(ids[ids.len() - 1] != other);
        assert(m.order + ids =~= (m.order + init).push(ids.last()));
    } else {
        assert(m.order + ids =~= m.order);
    }
}

/// Of the rows put back under one id the last one stays.
pub proof fn restored_last<T>(
    m: MemoryView<T>,
    ids: Seq<Seq<char>>,
    rows: Seq<RowView<T>>,
    r: int,
)
    requires
        ids.len() == rows.len(),
        0 <= r < ids.len(),
        forall|t: int| r < t < ids.len() ==> #[trigger] ids[t] != ids[r],
    ensures
        m.restore_all(ids, rows).rows.contains_key(ids[r]),
        m.restore_all(ids, rows).rows[ids[r]] == rows[r],
    decreases ids.len(),
{
    let init = ids.drop_last();
    if r < ids.len() - 1 {
        assert forall|t: int| r < t < init.len() implies #[trigger] init[t] != init[r] by {
            assert(ids[t] != ids[r]);
        }
        restored_last(m, init, rows.drop_last(), r);
        assert(ids[ids.len() - 1] != ids[r]);
    }
}

/// Saving and loading: the batch of a memory fits its dimensions, and loading it into an
/// empty memory of these dimensions and replaying the log gives back that very memory.
pub proof fn reload_restores<T>(m: MemoryView<T>)
    requires
        m.wf(),
    ensures
        m.batch().fits(m.d_k, m.d_v),
        MemoryView::<T>::empty(m.d_k, m.d_v).load(m.batch()) matches Ok(n) && n.replay(m.log) == m,
{
    let b = m.batch();
    let empty = MemoryView::<T>::empty(m.d_k, m.d_v);
    assert forall|i: int| 0 <= i < m.order.len() implies m.rows.contains_key(
        #[trigger] m.order[i],
    ) by {
        assert(m.order.contains(m.order[i]));
    }
    assert(lists_fit(b.k, b.num_rows, m.d_k)) by {
        assert forall|i: int| 0 <= i < m.order.len() implies (#[trigger] b.k->0->0[i]).len()
            >= m.d_k by {
            assert(m.rows.contains_key(m.order[i]));
        }
    }
    assert(lists_fit(b.v, b.num_rows, m.d_v)) by {
        assert forall|i: int| 0 <= i < m.order.len() implies (#[trigger] b.v->0->0[i]).len()
            >= m.d_v by {
            assert(m.rows.contains_key(m.order[i]));
        }
    }
    let rows = b.rows(m.d_k, m.d_v);
    assert forall|i: int| 0 <= i < m.order.len() implies #[trigger] rows[i]
        == m.rows[m.order[i]] by {
        let row = m.rows[m.order[i]];
        assert(m.rows.contains_key(m.order[i]));
        assert(row.k.take(m.d_k as int) =~= row.k);
        assert(row.v.take(m.d_v as int) =~= row.v);
        assert(rows[i] =~= row);
    }
    restored(m, rows, m.order.len());
    let n = empty.restore_all(m.order, rows);
    assert(m.order.take(m.order.len() as int) =~= m.order);
    assert(rows.take(m.order.len() as int) =~= rows);
    assert(n.rows =~= m.rows) by {
        assert forall|id: Seq<char>| #[trigger] n.rows.contains_key(id) == m.rows.contains_key(
            id,
        ) by {
            assert(m.rows.contains_key(id) <==> m.order.contains(id));
        }
        assert forall|id: Seq<char>| #[trigger] n.rows.contains_key(id) implies n.rows[id]
            == m.rows[id] by {}
    }
    assert(n.replay(m.log) =~= m);
}

/// Putting back the first `n` rows of `m` gives the rows of these ids.
proof fn restored<T>(m: MemoryView<T>, rows: Seq<RowView<T>>, n: nat)
    requires
        n <= m.order.len(),
        rows.len() == m.order.len(),
        forall|i: int| 0 <= i < m.order.len() ==> #[trigger] rows[i] == m.rows[m.order[i]],
    ensures
        ({
            let r = MemoryView::<T>::empty(m.d_k, m.d_v).restore_all(
                m.order.take(n as int),
                rows.take(n as int),
            );
            &&& r.d_k == m.d_k && r.d_v == m.d_v && r.log.len() == 0
            &&& r.order == m.order.take(n as int)
            &&& forall|id: Seq<char>| #[trigger]
                r.rows.contains_key(id) <==> m.order.take(n as int).contains(id)
            &&& forall|id: Seq<char>| #[trigger]
                r.rows.contains_key(id) ==> r.rows[id] == m.rows[id]
        }),
    decreases n,
{
    let ids = m.order.take(n as int);
    if n > 0 {
        let init = m.order.take(n - 1);
        restored(m, rows, (n - 1) as nat);
        assert(ids.drop_last() =~= init);
        assert(rows.take(n as int).drop_last() =~= rows.take(n - 1));
        assert(init.push(ids.last()) =~= ids);
        assert(rows[n - 1] == m.rows[m.order[n - 1]]);
        let before = MemoryView::<T>::empty(m.d_k, m.d_v).restore_all(init, rows.take(n - 1));
        let after = before.restore(ids.last(), rows[n - 1]);
        assert forall|id: Seq<char>| #[trigger] after.rows.contains_key(id) <==> ids.contains(
            id,
        ) by {
            if init.contains(id) {
                let i = choose|i: int| 0 <= i < init.len() && init[i] == id;
                assert(ids[i] == id);
            }
            assert(ids[n - 1] == ids.last());
            if ids.contains(id) && id != ids.last() {
                let i = choose|i: int| 0 <= i < ids.len() && ids[i] == id;
                assert(init[i] == id);
            }
        }
    }
}

/// Two complete batches as one.
pub open spec fn joined_batch<T>(a: BatchView<T>, b: BatchView<T>) -> BatchView<T> {
    BatchView {
        num_rows: a.num_rows + b.num_rows,
        fact_id: Some(a.fact_id->0 + b.fact_id->0),
        k: Some(Some(a.k->0->0 + b.k->0->0)),
        v: Some(Some(a.v->0->0 + b.v->0->0)),
        owner: Some(a.owner->0 + b.owner->0),
        written_at: Some(a.written_at->0 + b.written_at->0),
        deleted: Some(a.deleted->0 + b.deleted->0),
    }
}

/// The batch has every column, and its lists have the right items.
pub open spec fn complete<T>(b: BatchView<T>) -> bool {
    &&& b.refusal() is None
    &&& b.k->0 is Some
    &&& b.v->0 is Some
}

/// It does not matter how a snapshot is cut into batches: loading two batches one after the
/// other is loading them as one.
pub proof fn load_in_parts<T>(m: MemoryView<T>, a: BatchView<T>, b: BatchView<T>)
    requires
        complete(a),
        complete(b),
        a.fits(m.d_k, m.d_v),
        b.fits(m.d_k, m.d_v),
    ensures
        m.load(a) matches Ok(n) && n.load(b) == m.load(joined_batch(a, b)),
{
    let j = joined_batch(a, b);
    let ids_a = a.fact_id->0;
    let ids_b = b.fact_id->0;
    let rows_a = a.rows(m.d_k, m.d_v);
    let rows_b = b.rows(m.d_k, m.d_v);
    assert(ids_a.take(a.num_rows as int) =~= ids_a);
    assert(ids_b.take(b.num_rows as int) =~= ids_b);
    assert(j.fact_id->0.take(j.num_rows as int) =~= ids_a + ids_b);
    assert(j.rows(m.d_k, m.d_v) =~= rows_a + rows_b) by {
        assert forall|r: int| 0 <= r < j.num_rows implies #[trigger] j.rows(m.d_k, m.d_v)[r]
            == (rows_a + rows_b)[r] by {}
    }
    restore_concat(m, ids_a, rows_a, ids_b, rows_b);
    restore_keeps_dims(m, ids_a, rows_a);
}

proof fn restore_keeps_dims<T>(m: MemoryView<T>, ids: Seq<Seq<char>>, rows: Seq<RowView<T>>)
    ensures
        m.restore_all(ids, rows).d_k == m.d_k,
        m.restore_all(ids, rows).d_v == m.d_v,
    decreases ids.len(),
{
    if ids.len() > 0 {
        restore_keeps_dims(m, ids.drop_last(), rows.drop_last());
    }
}

proof fn restore_concat<T>(
    m: MemoryView<T>,
    ids_a: Seq<Seq<char>>,
    rows_a: Seq<RowView<T>>,
    ids_b: Seq<Seq<char>>,
    rows_b: Seq<RowView<T>>,
)
    requires
        ids_a.len() == rows_a.len(),
        ids_b.len() == rows_b.len(),
    ensures
        m.restore_all(ids_a + ids_b, rows_a + rows_b) == m.restore_all(
            ids_a,
            rows_a,
        ).restore_all(ids_b, rows_b),
    decreases ids_b.len(),
{
    if ids_b.len() == 0 {
        assert(ids_a + ids_b =~= ids_a);
        assert(rows_a + rows_b =~= rows_a);
    } else {
        assert((ids_a + ids_b).drop_last() =~= ids_a + ids_b.drop_last());
        assert((rows_a + rows_b).drop_last() =~= rows_a + rows_b.drop_last());
        restore_concat(m, ids_a, rows_a, ids_b.drop_last(), rows_b.drop_last());
    }
}

/// A dimension that fits in the width of a list column is read back from it.
pub proof fn width_round_trip(name: Seq<char>, d: usize)
    requires
        d <= i32::MAX,
    ensures
        width_of(name, FoundColumn::FixedSizeList(d as i32)) == Ok::<usize, ErrorView>(d),
{
}

} // verus!
