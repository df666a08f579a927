//! Dense matrices, stored by rows.
use vstd::prelude::*;

verus! {

/// A dense matrix. It has a width even if it has no row.
pub struct Matrix<T> {
    ncols: usize,
    rows: Vec<Vec<T>>,
}

/// The mathematical content of a [`Matrix`].
#[verifier::ext_equal]
pub ghost struct MatrixView<T> {
    pub ncols: nat,
    pub rows: Seq<Seq<T>>,
}

impl<T> MatrixView<T> {
    /// Every row has the width of the matrix.
    pub open spec fn wf(self) -> bool {
        forall|i: int| 0 <= i < self.rows.len() ==> (#[trigger] self.rows[i]).len() == self.ncols
    }
}

impl<T> View for Matrix<T> {
    type V = MatrixView<T>;

    closed spec fn view(&self) -> MatrixView<T> {
        MatrixView {
            ncols: self.ncols as nat,
            rows: Seq::new(self.rows@.len(), |i: int| self.rows@[i]@),
        }
    }
}

/// Contents of a list of rows.
pub open spec fn rows_view<T>(rows: Seq<Vec<T>>) -> Seq<Seq<T>> {
    Seq::new(rows.len(), |i: int| rows[i]@)
}

impl<T> Matrix<T> {
    #[verifier::type_invariant]
    spec fn rectangular(self) -> bool {
        forall|i: int|
            0 <= i < self.rows@.len() ==> (#[trigger] self.rows@[i])@.len() == self.ncols
    }

    /// The matrix of the given width and rows, or `None` if some row has another length.
    pub fn from_rows(ncols: usize, rows: Vec<Vec<T>>) -> (m: Option<Self>)
        ensures
            match m {
                Some(m) => {
                    &&& m@ == (MatrixView { ncols: ncols as nat, rows: rows_view(rows@) })
                    &&& m@.wf()
                    &&& m@.ncols == ncols
                    &&& m@.rows.len() == rows@.len()
                    &&& forall|i: int|
                        0 <= i < rows@.len() ==> #[trigger] m@.rows[i] == rows@[i]@
                    &&& forall|i: int|
                        0 <= i < rows@.len() ==> (#[trigger] rows@[i])@.len() == ncols
                },
                None => exists|i: int|
                    0 <= i < rows@.len() && (#[trigger] rows@[i])@.len() != ncols,
            },
    {
        let mut i: usize = 0;
        while i < rows.len()
            invariant
                i <= rows@.len(),
                forall|j: int| 0 <= j < i ==> (#[trigger] rows@[j])@.len() == ncols,
            decreases rows@.len() - i,
        {
            if rows[i].len() != ncols {
                return None;
            }
            i += 1;
        }
        Some(Matrix::of_rows(ncols, rows))
    }

    /// The matrix of the given width and rows.
    pub fn of_rows(ncols: usize, rows: Vec<Vec<T>>) -> (m: Self)
        requires
            forall|i: int| 0 <= i < rows@.len() ==> (#[trigger] rows@[i])@.len() == ncols,
        ensures
            m@ == (MatrixView { ncols: ncols as nat, rows: rows_view(rows@) }),
            m@.wf(),
            m@.ncols == ncols,
            m@.rows.len() == rows@.len(),
            forall|i: int| 0 <= i < rows@.len() ==> #[trigger] m@.rows[i] == rows@[i]@,
    {
        Matrix { ncols, rows }
    }

    /// Number of rows.
    pub fn nrows(&self) -> (n: usize)
        ensures
            n == self@.rows.len(),
    {
        self.rows.len()
    }

    /// Number of columns, which is the length of every row.
    pub fn ncols(&self) -> (n: usize)
        ensures
            n == self@.ncols,
            self@.wf(),
    {
        proof {
            use_type_invariant(self);
        }
        self.ncols
    }

    /// Row `i`.
    pub fn row(&self, i: usize) -> (row: &[T])
        requires
            i < self@.rows.len(),
        ensures
            row@ == self@.rows[i as int],
            row@.len() == self@.ncols,
    {
        proof {
            use_type_invariant(self);
        }
        self.rows[i].as_slice()
    }
}

impl<T: Copy> Matrix<T> {
    /// Entry `c` of row `i`.
    pub fn at(&self, i: usize, c: usize) -> (entry: T)
        requires
            i < self@.rows.len(),
            c < self@.ncols,
        ensures
            entry == self@.rows[i as int][c as int],
    {
        self.row(i)[c]
    }
}

} // verus!
