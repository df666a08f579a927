//! Snapshots of a memory as columns.
//!
//! A snapshot has one row per id, in insertion order: `fact_id`, the key `k` and the value
//! `v` as lists of fixed width, `owner`, `written_at` and `deleted`. Deleted rows are kept,
//! so that loading a snapshot gives back the memory that was saved.
use crate::arith::copy_vec;
use crate::error::{BruceError, ErrorView};
use crate::matrix::rows_view;
use crate::memory::{follows, texts_view, KvMemory, Row};
use crate::model::{MemoryView, RowView};
use vstd::prelude::*;
use vstd::string::*;

verus! {

/// Type of a column.
pub enum ColumnType {
    Utf8,
    Float64,
    Boolean,
    /// Lists of `width` floating-point items.
    FixedSizeList { item: String, item_nullable: bool, width: i32 },
}

/// A column of the snapshot: its name, its type, and whether it may hold nulls.
pub struct ColumnSpec {
    pub name: String,
    pub kind: ColumnType,
    pub nullable: bool,
}

/// The mathematical content of a [`ColumnType`].
pub ghost enum TypeView {
    Utf8,
    Float64,
    Boolean,
    FixedSizeList { item: Seq<char>, item_nullable: bool, width: i32 },
}

/// The mathematical content of a [`ColumnSpec`].
pub ghost struct ColumnView {
    pub name: Seq<char>,
    pub kind: TypeView,
    pub nullable: bool,
}

impl View for ColumnType {
    type V = TypeView;

    open spec fn view(&self) -> TypeView {
        match *self {
            ColumnType::Utf8 => TypeView::Utf8,
            ColumnType::Float64 => TypeView::Float64,
            ColumnType::Boolean => TypeView::Boolean,
            ColumnType::FixedSizeList { item, item_nullable, width } => TypeView::FixedSizeList {
                item: item@,
                item_nullable,
                width,
            },
        }
    }
}

impl View for ColumnSpec {
    type V = ColumnView;

    open spec fn view(&self) -> ColumnView {
        ColumnView { name: self.name@, kind: self.kind@, nullable: self.nullable }
    }
}

/// Contents of a schema.
pub open spec fn schema_view(schema: Seq<ColumnSpec>) -> Seq<ColumnView> {
    Seq::new(schema.len(), |i: int| schema[i]@)
}

/// A column without nulls.
pub open spec fn column(name: Seq<char>, kind: TypeView) -> ColumnView {
    ColumnView { name, kind, nullable: false }
}

/// Lists of `d` items. The width is a 32-bit number: a dimension beyond that is truncated.
pub open spec fn list_type(d: usize) -> TypeView {
    TypeView::FixedSizeList { item: "item"@, item_nullable: true, width: d as i32 }
}

/// The columns of the snapshot of a memory with keys of length `d_k` and values of length
/// `d_v`.
pub open spec fn schema_of(d_k: usize, d_v: usize) -> Seq<ColumnView> {
    seq![
        column("fact_id"@, TypeView::Utf8),
        column("k"@, list_type(d_k)),
        column("v"@, list_type(d_v)),
        column("owner"@, TypeView::Utf8),
        column("written_at"@, TypeView::Float64),
        column("deleted"@, TypeView::Boolean),
    ]
}

/// Lists of `d` items.
fn list_of(d: usize) -> (kind: ColumnType)
    ensures
        kind@ == list_type(d),
{
    let width: i32 = d as i32;
    ColumnType::FixedSizeList { item: "item".to_owned(), item_nullable: true, width }
}

/// A column without nulls.
fn plain_column(name: &str, kind: ColumnType) -> (spec: ColumnSpec)
    ensures
        spec@ == column(name@, kind@),
{
    ColumnSpec { name: name.to_owned(), kind, nullable: false }
}

/// The columns of the snapshot of a memory with keys of length `d_k` and values of length
/// `d_v`.
pub fn arrow_schema(d_k: usize, d_v: usize) -> (schema: Vec<ColumnSpec>)
    ensures
        schema_view(schema@) == schema_of(d_k, d_v),
        schema@.len() == 6,
        forall|i: int| 0 <= i < 6 ==> !(#[trigger] schema@[i]).nullable,
        schema@[0].name@ == "fact_id"@ && schema@[0].kind is Utf8,
        schema@[1].name@ == "k"@,
        schema@[1].kind matches ColumnType::FixedSizeList { item, item_nullable, width }
            && item@ == "item"@ && item_nullable && width == d_k as i32,
        schema@[2].name@ == "v"@,
        schema@[2].kind matches ColumnType::FixedSizeList { item, item_nullable, width }
            && item@ == "item"@ && item_nullable && width == d_v as i32,
        schema@[3].name@ == "owner"@ && schema@[3].kind is Utf8,
        schema@[4].name@ == "written_at"@ && schema@[4].kind is Float64,
        schema@[5].name@ == "deleted"@ && schema@[5].kind is Boolean,
{
    let mut schema: Vec<ColumnSpec> = Vec::new();
    schema.push(plain_column("fact_id", ColumnType::Utf8));
    schema.push(plain_column("k", list_of(d_k)));
    schema.push(plain_column("v", list_of(d_v)));
    schema.push(plain_column("owner", ColumnType::Utf8));
    schema.push(plain_column("written_at", ColumnType::Float64));
    schema.push(plain_column("deleted", ColumnType::Boolean));
    assert(schema_view(schema@) =~= schema_of(d_k, d_v));
    schema
}

/// What a file holds under the name of a list column.
pub enum FoundColumn {
    /// Nothing, with the reason in words.
    Missing(String),
    /// Lists of this width.
    FixedSizeList(i32),
    /// Something else, with its type in words.
    Other(String),
}

/// The width of a list column, or why there is none.
pub open spec fn width_of(name: Seq<char>, found: FoundColumn) -> Result<usize, ErrorView> {
    match found {
        FoundColumn::Missing(reason) => Err(ErrorView::Other("schema: "@ + reason@)),
        FoundColumn::FixedSizeList(n) => Ok(n as usize),
        FoundColumn::Other(kind) => Err(
            ErrorView::Other("expected "@ + name + " as FixedSizeList, got "@ + kind@),
        ),
    }
}

/// The dimension that the list column `name` of a file has.
pub fn list_width(name: &str, found: FoundColumn) -> (width: Result<usize, BruceError>)
    ensures
        match (width, width_of(name@, found)) {
            (Ok(d), Ok(e)) => d == e,
            (Err(e), Err(f)) => e@ == f,
            _ => false,
        },
        match found {
            FoundColumn::FixedSizeList(n) => width matches Ok(d) && d == n as usize,
            FoundColumn::Missing(reason) => width matches Err(e) && e@ == ErrorView::Other(
                "schema: "@ + reason@,
            ),
            FoundColumn::Other(kind) => width matches Err(e) && e@ == ErrorView::Other(
                "expected "@ + name@ + " as FixedSizeList, got "@ + kind@,
            ),
        },
{
    match found {
        FoundColumn::Missing(reason) => {
            let mut text = "schema: ".to_owned();
            text.append(reason.as_str());
            Err(BruceError::Other(text))
        },
        FoundColumn::FixedSizeList(n) => {
            let d: usize = n as usize;
            Ok(d)
        },
        FoundColumn::Other(kind) => {
            let mut text = "expected ".to_owned();
            text.append(name);
            text.append(" as FixedSizeList, got ");
            text.append(kind.as_str());
            Err(BruceError::Other(text))
        },
    }
}

/// A list column: its rows, or nothing if its items are not floating-point numbers.
pub struct Lists<T> {
    pub rows: Option<Vec<Vec<T>>>,
}

/// Rows of a snapshot, by columns. A column is `None` if it is missing or has another type.
pub struct Batch<T> {
    pub num_rows: usize,
    pub fact_id: Option<Vec<String>>,
    pub k: Option<Lists<T>>,
    pub v: Option<Lists<T>>,
    pub owner: Option<Vec<String>>,
    pub written_at: Option<Vec<u64>>,
    pub deleted: Option<Vec<bool>>,
}

/// The mathematical content of a [`Batch`].
pub ghost struct BatchView<T> {
    pub num_rows: nat,
    pub fact_id: Option<Seq<Seq<char>>>,
    pub k: Option<Option<Seq<Seq<T>>>>,
    pub v: Option<Option<Seq<Seq<T>>>>,
    pub owner: Option<Seq<Seq<char>>>,
    pub written_at: Option<Seq<u64>>,
    pub deleted: Option<Seq<bool>>,
}

impl<T> View for Lists<T> {
    type V = Option<Seq<Seq<T>>>;

    open spec fn view(&self) -> Option<Seq<Seq<T>>> {
        match self.rows {
            Some(rows) => Some(rows_view(rows@)),
            None => None,
        }
    }
}

impl<T> View for Batch<T> {
    type V = BatchView<T>;

    open spec fn view(&self) -> BatchView<T> {
        BatchView {
            num_rows: self.num_rows as nat,
            fact_id: match self.fact_id {
                Some(texts) => Some(texts_view(texts@)),
                None => None,
            },
            k: match self.k {
                Some(lists) => Some(lists@),
                None => None,
            },
            v: match self.v {
                Some(lists) => Some(lists@),
                None => None,
            },
            owner: match self.owner {
                Some(texts) => Some(texts_view(texts@)),
                None => None,
            },
            written_at: match self.written_at {
                Some(times) => Some(times@),
                None => None,
            },
            deleted: match self.deleted {
                Some(flags) => Some(flags@),
                None => None,
            },
        }
    }
}

/// Every list of the column has at least `d` items, and there are `n` lists.
pub open spec fn lists_fit<T>(lists: Option<Option<Seq<Seq<T>>>>, n: nat, d: nat) -> bool {
    match lists {
        Some(Some(rows)) => {
            &&& rows.len() == n
            &&& forall|r: int| 0 <= r < n ==> (#[trigger] rows[r]).len() >= d
        },
        _ => true,
    }
}

impl<T> BatchView<T> {
    /// The columns that are there have one entry per row, and the lists are long enough for
    /// keys of length `d_k` and values of length `d_v`.
    pub open spec fn fits(self, d_k: nat, d_v: nat) -> bool {
        &&& self.fact_id matches Some(c) ==> c.len() == self.num_rows
        &&& lists_fit(self.k, self.num_rows, d_k)
        &&& lists_fit(self.v, self.num_rows, d_v)
        &&& self.owner matches Some(c) ==> c.len() == self.num_rows
        &&& self.written_at matches Some(c) ==> c.len() == self.num_rows
        &&& self.deleted matches Some(c) ==> c.len() == self.num_rows
    }

    /// Why the batch cannot be loaded, if it cannot: the first column that is missing, or a
    /// list column whose items have the wrong type.
    pub open spec fn refusal(self) -> Option<ErrorView> {
        if self.fact_id is None {
            Some(ErrorView::Other("fact_id column"@))
        } else if self.k is None {
            Some(ErrorView::Other("k column"@))
        } else if self.v is None {
            Some(ErrorView::Other("v column"@))
        } else if self.owner is None {
            Some(ErrorView::Other("owner column"@))
        } else if self.written_at is None {
            Some(ErrorView::Other("at column"@))
        } else if self.deleted is None {
            Some(ErrorView::Other("deleted column"@))
        } else if self.num_rows > 0 && self.k->0 is None {
            Some(ErrorView::Other("k inner"@))
        } else if self.num_rows > 0 && self.v->0 is None {
            Some(ErrorView::Other("v inner"@))
        } else {
            None
        }
    }

    /// The rows of a complete batch, with keys of length `d_k` and values of length `d_v`.
    pub open spec fn rows(self, d_k: nat, d_v: nat) -> Seq<RowView<T>> {
        Seq::new(
            self.num_rows,
            |r: int|
                RowView {
                    k: self.k->0->0[r].take(d_k as int),
                    v: self.v->0->0[r].take(d_v as int),
                    owner: self.owner->0[r],
                    written_at: self.written_at->0[r],
                    deleted: self.deleted->0[r],
                },
        )
    }
}

impl<T> MemoryView<T> {
    /// The memory with the rows of a batch put back, or why the batch cannot be loaded.
    pub open spec fn load(self, batch: BatchView<T>) -> Result<MemoryView<T>, ErrorView> {
        match batch.refusal() {
            Some(e) => Err(e),
            None => Ok(
                self.restore_all(
                    batch.fact_id->0.take(batch.num_rows as int),
                    batch.rows(self.d_k, self.d_v),
                ),
            ),
        }
    }

    /// The rows of the memory as one batch, in insertion order.
    pub open spec fn batch(self) -> BatchView<T> {
        let n = self.order.len();
        BatchView {
            num_rows: n,
            fact_id: Some(self.order),
            k: Some(Some(self.keys_of(self.order))),
            v: Some(Some(self.values_of(self.order))),
            owner: Some(Seq::new(n, |i: int| self.rows[self.order[i]].owner)),
            written_at: Some(Seq::new(n, |i: int| self.rows[self.order[i]].written_at)),
            deleted: Some(Seq::new(n, |i: int| self.rows[self.order[i]].deleted)),
        }
    }
}

impl<T: Copy> KvMemory<T> {
    /// The rows of the memory as one batch, in insertion order. Deleted rows are in it.
    pub fn to_batch(&self) -> (batch: Batch<T>)
        requires
            self.wf(),
        ensures
            batch@ == self@.batch(),
            batch.num_rows == self@.order.len(),
    {
        let mut ids: Vec<String> = Vec::new();
        let mut ks: Vec<Vec<T>> = Vec::new();
        let mut vs: Vec<Vec<T>> = Vec::new();
        let mut owners: Vec<String> = Vec::new();
        let mut times: Vec<u64> = Vec::new();
        let mut flags: Vec<bool> = Vec::new();
        let mut n: usize = 0;
        let ghost m = self@;
        while n < self.ids().len()
            invariant
                self.wf(),
                m == self@,
                n <= m.order.len(),
                ids@.len() == ks@.len() == vs@.len() == owners@.len() == times@.len()
                    == flags@.len() == n,
                forall|i: int| 0 <= i < n ==> (#[trigger] ids@[i])@ == m.order[i],
                forall|i: int| 0 <= i < n ==> (#[trigger] ks@[i])@ == m.rows[m.order[i]].k,
                forall|i: int| 0 <= i < n ==> (#[trigger] vs@[i])@ == m.rows[m.order[i]].v,
                forall|i: int| 0 <= i < n ==> (#[trigger] owners@[i])@ == m.rows[m.order[i]].owner,
                forall|i: int| 0 <= i < n ==> #[trigger] times@[i] == m.rows[m.order[i]].written_at,
                forall|i: int| 0 <= i < n ==> #[trigger] flags@[i] == m.rows[m.order[i]].deleted,
            decreases m.order.len() - n,
        {
            let id = &self.ids()[n];
            assert(id@ == m.order[n as int]);
            let row = self.known(n);
            ids.push(id.clone());
            ks.push(copy_vec(row.k.as_slice()));
            vs.push(copy_vec(row.v.as_slice()));
            owners.push(row.owner.clone());
            times.push(row.written_at);
            flags.push(row.deleted);
            n += 1;
        }
        let batch = Batch {
            num_rows: n,
            fact_id: Some(ids),
            k: Some(Lists { rows: Some(ks) }),
            v: Some(Lists { rows: Some(vs) }),
            owner: Some(owners),
            written_at: Some(times),
            deleted: Some(flags),
        };
        proof {
            let b = m.batch();
            assert(batch@.fact_id->0 =~= b.fact_id->0);
            assert(batch@.k->0->0 =~= b.k->0->0);
            assert(batch@.v->0->0 =~= b.v->0->0);
            assert(batch@.owner->0 =~= b.owner->0);
            assert(batch@.written_at->0 =~= b.written_at->0);
            assert(batch@.deleted->0 =~= b.deleted->0);
        }
        batch
    }

    /// Put back the rows of a batch. If the batch cannot be loaded, nothing changes.
    pub fn load_batch(&mut self, batch: Batch<T>) -> (result: Result<(), BruceError>)
        requires
            old(self).wf(),
            batch@.fits(old(self)@.d_k, old(self)@.d_v),
        ensures
            final(self).wf(),
            follows(result, old(self)@, final(self)@, old(self)@.load(batch@)),
    {
        let ghost view = batch@;
        let ghost before = self@;
        let ids = match batch.fact_id {
            Some(column) => column,
            None => {
                return Err(BruceError::Other("fact_id column".to_owned()));
            },
        };
        let ks = match batch.k {
            Some(column) => column.rows,
            None => {
                return Err(BruceError::Other("k column".to_owned()));
            },
        };
        let vs = match batch.v {
            Some(column) => column.rows,
            None => {
                return Err(BruceError::Other("v column".to_owned()));
            },
        };
        let owners = match batch.owner {
            Some(column) => column,
            None => {
                return Err(BruceError::Other("owner column".to_owned()));
            },
        };
        let times = match batch.written_at {
            Some(column) => column,
            None => {
                return Err(BruceError::Other("at column".to_owned()));
            },
        };
        let flags = match batch.deleted {
            Some(column) => column,
            None => {
                return Err(BruceError::Other("deleted column".to_owned()));
            },
        };
        if batch.num_rows == 0 {
            assert(view.fact_id->0.take(0) =~= seq![]);
            return Ok(());
        }
        let ks = match ks {
            Some(rows) => rows,
            None => {
                return Err(BruceError::Other("k inner".to_owned()));
            },
        };
        let vs = match vs {
            Some(rows) => rows,
            None => {
                return Err(BruceError::Other("v inner".to_owned()));
            },
        };
        let ghost all = view.rows(before.d_k, before.d_v);
        let ghost names = texts_view(ids@);
        let mut r: usize = 0;
        assert(names.take(0) =~= seq![]);
        while r < ids.len()
            invariant
                self.wf(),
                before.d_k == self@.d_k,
                before.d_v == self@.d_v,
                view.refusal() is None,
                view.fits(before.d_k, before.d_v),
                view.fact_id == Some(names),
                names == texts_view(ids@),
                view.k == Some(Some(rows_view(ks@))),
                view.v == Some(Some(rows_view(vs@))),
                view.owner == Some(texts_view(owners@)),
                view.written_at == Some(times@),
                view.deleted == Some(flags@),
                all == view.rows(before.d_k, before.d_v),
                r <= ids@.len(),
                self@ == before.restore_all(names.take(r as int), all.take(r as int)),
            decreases ids@.len() - r,
        {
            proof {
                assert(rows_view(ks@)[r as int].len() >= before.d_k);
                assert(rows_view(vs@)[r as int].len() >= before.d_v);
            }
            let row = Row {
                k: prefix(ks[r].as_slice(), self.key_dim()),
                v: prefix(vs[r].as_slice(), self.value_dim()),
                owner: owners[r].clone(),
                written_at: times[r],
                deleted: flags[r],
            };
            proof {
                assert(row@ =~= all[r as int]);
                assert(names.take(r + 1).drop_last() =~= names.take(r as int));
                assert(all.take(r + 1).drop_last() =~= all.take(r as int));
            }
            self.restore_row(ids[r].clone(), row);
            r += 1;
        }
        assert(all.take(r as int) =~= all);
        Ok(())
    }
}

/// The first `n` entries of a vector.
fn prefix<T: Copy>(a: &[T], n: usize) -> (r: Vec<T>)
    requires
        n <= a@.len(),
    ensures
        r@ == a@.take(n as int),
{
    let mut r: Vec<T> = Vec::new();
    while r.len() < n
        invariant
            r@.len() <= n <= a@.len(),
            r@ == a@.take(r@.len() as int),
        decreases n - r@.len(),
    {
        let c: usize = r.len();
        r.push(a[c]);
        assert(a@.take(c + 1) =~= a@.take(c as int).push(a@[c as int]));
    }
    r
}

} // verus!
