//! Per-row accumulator of the masked fold.
use crate::arith::{copy_vec, Algebra, Arithmetic, Eps, Term, Test};
use vstd::prelude::*;

verus! {

/// Per-row accumulator in the max-shifted representation.
///
/// In exact arithmetic, after absorbing a set of records it holds, at a finite temperature,
/// the largest score `mu`, the sum `z` of the weights relative to `mu`, and the weighted sum
/// `u` of the values. In the tropical limit `z` counts the argmax set and `u` sums its
/// values; in the uniform limit `z` counts the records and `u` sums their values.
pub struct RowAcc<T> {
    pub mu: T,
    pub z: T,
    pub u: Vec<T>,
}

/// The mathematical content of a [`RowAcc`].
#[verifier::ext_equal]
pub ghost struct AccView<T> {
    pub mu: T,
    pub z: T,
    pub u: Seq<T>,
}

impl<T> View for RowAcc<T> {
    type V = AccView<T>;

    open spec fn view(&self) -> AccView<T> {
        AccView { mu: self.mu, z: self.z, u: self.u@ }
    }
}

/// An accumulator is seen as its three fields.
pub proof fn acc_fields<T>(acc: RowAcc<T>)
    ensures
        acc@.mu == acc.mu,
        acc@.z == acc.z,
        acc@.u == acc.u@,
{
}

impl<T> AccView<T> {
    /// The accumulator that has absorbed nothing, for values of length `d_v`.
    pub open spec fn fresh(alg: Algebra<T>, d_v: nat) -> AccView<T> {
        AccView { mu: alg.neg_infinity, z: alg.zero, u: alg.zeros(d_v) }
    }

    /// No record was absorbed.
    pub open spec fn is_empty(self, alg: Algebra<T>) -> bool {
        alg.eq(self.z, alg.zero)
    }

    /// Absorbs one record with score `s` and value `v`.
    pub open spec fn absorb(self, alg: Algebra<T>, eps: Eps<T>, s: T, v: Seq<T>) -> AccView<T> {
        let only = AccView { mu: s, z: alg.one, u: v };
        let also = AccView { mu: self.mu, z: alg.add(self.z, alg.one), u: alg.vadd(self.u, v) };
        match eps {
            Eps::Zero => if alg.gt(s, self.mu) {
                only
            } else if alg.eq(s, self.mu) {
                also
            } else {
                self
            },
            Eps::Inf => also,
            Eps::Finite(e) => if self.is_empty(alg) {
                only
            } else {
                let top = alg.max(self.mu, s);
                let scale = alg.weight(e, self.mu, top);
                let w = alg.weight(e, s, top);
                AccView {
                    mu: top,
                    z: alg.add(alg.mul(self.z, scale), w),
                    u: alg.blend(self.u, scale, w, v),
                }
            },
        }
    }

    /// Merges the accumulators of two disjoint sets of records.
    pub open spec fn merge(self, alg: Algebra<T>, eps: Eps<T>, other: AccView<T>) -> AccView<T> {
        let both = AccView {
            mu: self.mu,
            z: alg.add(self.z, other.z),
            u: alg.vadd(self.u, other.u),
        };
        if other.is_empty(alg) {
            self
        } else if self.is_empty(alg) {
            other
        } else {
            match eps {
                Eps::Zero => if alg.gt(other.mu, self.mu) {
                    other
                } else if alg.eq(other.mu, self.mu) {
                    both
                } else {
                    self
                },
                Eps::Inf => both,
                Eps::Finite(e) => {
                    let top = alg.max(self.mu, other.mu);
                    let p = alg.weight(e, self.mu, top);
                    let q = alg.weight(e, other.mu, top);
                    AccView {
                        mu: top,
                        z: alg.add(alg.mul(self.z, p), alg.mul(other.z, q)),
                        u: alg.rebase(self.u, p, other.u, q),
                    }
                },
            }
        }
    }

    /// The output row, or nothing where no record was absorbed.
    pub open spec fn finalize(self, alg: Algebra<T>) -> Option<Seq<T>> {
        if self.is_empty(alg) {
            None
        } else {
            Some(alg.vdiv(self.u, self.z))
        }
    }
}

impl<T: Copy> RowAcc<T> {
    /// The accumulator that has absorbed nothing.
    pub fn new<F, G, D>(d_v: usize, ar: &Arithmetic<T, F, G, D>) -> (acc: Self) where
        F: Fn(Term<T>) -> T,
        G: Fn(Test<T>) -> bool,
        D: Fn(&[T], &[T]) -> T,

        requires
            ar.wf(),
        ensures
            acc@ == AccView::fresh(ar@, d_v as nat),
            acc.mu == ar@.neg_infinity,
            acc.z == ar@.zero,
            acc.u@.len() == d_v,
            forall|c: int| 0 <= c < d_v ==> #[trigger] acc.u@[c] == ar@.zero,
    {
        RowAcc { mu: ar.neg_infinity, z: ar.zero, u: ar.zeros(d_v) }
    }

    /// Whether no record was absorbed.
    pub fn is_empty<F, G, D>(&self, ar: &Arithmetic<T, F, G, D>) -> (empty: bool) where
        F: Fn(Term<T>) -> T,
        G: Fn(Test<T>) -> bool,
        D: Fn(&[T], &[T]) -> T,

        requires
            ar.wf(),
        ensures
            empty == self@.is_empty(ar@),
            empty == (ar@.test)(Test::Equal(self.z, ar@.zero)),
    {
        ar.eq(self.z, ar.zero)
    }

    /// Absorbs one record with score `s` and value row `v_row`.
    pub fn absorb<F, G, D>(
        &mut self,
        s: T,
        v_row: &[T],
        eps: Eps<T>,
        ar: &Arithmetic<T, F, G, D>,
    ) where F: Fn(Term<T>) -> T, G: Fn(Test<T>) -> bool, D: Fn(&[T], &[T]) -> T
        requires
            ar.wf(),
            v_row@.len() == old(self)@.u.len(),
        ensures
            final(self)@ == old(self)@.absorb(ar@, eps, s, v_row@),
            final(self).u@.len() == v_row@.len(),
            ({
                let only = {
                    &&& final(self).mu == s
                    &&& final(self).z == ar@.one
                    &&& final(self).u@ == v_row@
                };
                let also = {
                    &&& final(self).mu == old(self).mu
                    &&& final(self).z == (ar@.term)(Term::Add(old(self).z, ar@.one))
                    &&& forall|c: int|
                        0 <= c < v_row@.len() ==> #[trigger] final(self).u@[c] == (ar@.term)(
                            Term::Add(old(self).u@[c], v_row@[c]),
                        )
                };
                match eps {
                    Eps::Zero => if (ar@.test)(Test::Greater(s, old(self).mu)) {
                        only
                    } else if (ar@.test)(Test::Equal(s, old(self).mu)) {
                        also
                    } else {
                        *final(self) == *old(self)
                    },
                    Eps::Inf => also,
                    Eps::Finite(e) => if (ar@.test)(Test::Equal(old(self).z, ar@.zero)) {
                        only
                    } else {
                        let top = (ar@.term)(Term::Max(old(self).mu, s));
                        let scale = (ar@.term)(
                            Term::Exp(
                                (ar@.term)(
                                    Term::Div((ar@.term)(Term::Sub(old(self).mu, top)), e),
                                ),
                            ),
                        );
                        let w = (ar@.term)(
                            Term::Exp(
                                (ar@.term)(Term::Div((ar@.term)(Term::Sub(s, top)), e)),
                            ),
                        );
                        &&& final(self).mu == top
                        &&& final(self).z == (ar@.term)(
                            Term::Add((ar@.term)(Term::Mul(old(self).z, scale)), w),
                        )
                        &&& forall|c: int|
                            0 <= c < v_row@.len() ==> #[trigger] final(self).u@[c] == (ar@.term)(
                                Term::Add(
                                    (ar@.term)(Term::Mul(old(self).u@[c], scale)),
                                    (ar@.term)(Term::Mul(w, v_row@[c])),
                                ),
                            )
                    },
                }
            }),
    {
        match eps {
            Eps::Zero => {
                if ar.gt(s, self.mu) {
                    self.restart(s, v_row, ar);
                } else if ar.eq(s, self.mu) {
                    self.z = ar.add(self.z, ar.one);
                    ar.vadd(&mut self.u, v_row);
                }
            },
            Eps::Inf => {
                self.z = ar.add(self.z, ar.one);
                ar.vadd(&mut self.u, v_row);
            },
            Eps::Finite(e) => {
                if self.is_empty(ar) {
                    self.restart(s, v_row, ar);
                } else {
                    let top: T = ar.max(self.mu, s);
                    let scale: T = ar.weight(e, self.mu, top);
                    let w: T = ar.weight(e, s, top);
                    ar.blend(&mut self.u, scale, w, v_row);
                    self.z = ar.add(ar.mul(self.z, scale), w);
                    self.mu = top;
                }
            },
        }
    }

    /// Forgets what was absorbed and takes the one record `(s, v_row)`.
    fn restart<F, G, D>(&mut self, s: T, v_row: &[T], ar: &Arithmetic<T, F, G, D>) where
        F: Fn(Term<T>) -> T,
        G: Fn(Test<T>) -> bool,
        D: Fn(&[T], &[T]) -> T,

        requires
            ar.wf(),
        ensures
            final(self)@ == (AccView { mu: s, z: ar@.one, u: v_row@ }),
    {
        self.mu = s;
        self.z = ar.one;
        self.u = copy_vec(v_row);
    }

    /// Merges the accumulator of a disjoint set of records into this one.
    pub fn merge<F, G, D>(
        &mut self,
        other: &RowAcc<T>,
        eps: Eps<T>,
        ar: &Arithmetic<T, F, G, D>,
    ) where F: Fn(Term<T>) -> T, G: Fn(Test<T>) -> bool, D: Fn(&[T], &[T]) -> T
        requires
            ar.wf(),
            other@.u.len() == old(self)@.u.len(),
        ensures
            final(self)@ == old(self)@.merge(ar@, eps, other@),
            final(self).u@.len() == other.u@.len(),
            ({
                let kept = final(self)@ == old(self)@;
                let taken = {
                    &&& final(self).mu == other.mu
                    &&& final(self).z == other.z
                    &&& final(self).u@ == other.u@
                };
                let both = {
                    &&& final(self).mu == old(self).mu
                    &&& final(self).z == (ar@.term)(Term::Add(old(self).z, other.z))
                    &&& forall|c: int|
                        0 <= c < other.u@.len() ==> #[trigger] final(self).u@[c] == (ar@.term)(
                            Term::Add(old(self).u@[c], other.u@[c]),
                        )
                };
                if (ar@.test)(Test::Equal(other.z, ar@.zero)) {
                    kept
                } else if (ar@.test)(Test::Equal(old(self).z, ar@.zero)) {
                    taken
                } else {
                    match eps {
                        Eps::Zero => if (ar@.test)(Test::Greater(other.mu, old(self).mu)) {
                            taken
                        } else if (ar@.test)(Test::Equal(other.mu, old(self).mu)) {
                            both
                        } else {
                            kept
                        },
                        Eps::Inf => both,
                        Eps::Finite(e) => {
                            let top = (ar@.term)(Term::Max(old(self).mu, other.mu));
                            let p = (ar@.term)(
                                Term::Exp(
                                    (ar@.term)(
                                        Term::Div((ar@.term)(Term::Sub(old(self).mu, top)), e),
                                    ),
                                ),
                            );
                            let q = (ar@.term)(
                                Term::Exp(
                                    (ar@.term)(
                                        Term::Div((ar@.term)(Term::Sub(other.mu, top)), e),
                                    ),
                                ),
                            );
                            &&& final(self).mu == top
                            &&& final(self).z == (ar@.term)(
                                Term::Add(
                                    (ar@.term)(Term::Mul(old(self).z, p)),
                                    (ar@.term)(Term::Mul(other.z, q)),
                                ),
                            )
                            &&& forall|c: int|
                                0 <= c < other.u@.len() ==> #[trigger] final(self).u@[c] == (
                                ar@.term)(
                                    Term::Add(
                                        (ar@.term)(Term::Mul(old(self).u@[c], p)),
                                        (ar@.term)(Term::Mul(other.u@[c], q)),
                                    ),
                                )
                        },
                    }
                }
            }),
    {
        if other.is_empty(ar) {
            return;
        }
        if self.is_empty(ar) {
            self.adopt(other);
            return;
        }
        match eps {
            Eps::Zero => {
                if ar.gt(other.mu, self.mu) {
                    self.adopt(other);
                } else if ar.eq(other.mu, self.mu) {
                    self.z = ar.add(self.z, other.z);
                    ar.vadd(&mut self.u, other.u.as_slice());
                }
            },
            Eps::Inf => {
                self.z = ar.add(self.z, other.z);
                ar.vadd(&mut self.u, other.u.as_slice());
            },
            Eps::Finite(e) => {
                let top: T = ar.max(self.mu, other.mu);
                let p: T = ar.weight(e, self.mu, top);
                let q: T = ar.weight(e, other.mu, top);
                ar.rebase(&mut self.u, p, other.u.as_slice(), q);
                self.z = ar.add(ar.mul(self.z, p), ar.mul(other.z, q));
                self.mu = top;
            },
        }
    }

    /// Takes over the content of `other`.
    fn adopt(&mut self, other: &RowAcc<T>)
        ensures
            final(self)@ == other@,
    {
        self.mu = other.mu;
        self.z = other.z;
        self.u = copy_vec(other.u.as_slice());
    }

    /// The output row `u / z`, or `None` if no record was absorbed.
    pub fn finalize<F, G, D>(&self, ar: &Arithmetic<T, F, G, D>) -> (row: Option<Vec<T>>) where
        F: Fn(Term<T>) -> T,
        G: Fn(Test<T>) -> bool,
        D: Fn(&[T], &[T]) -> T,

        requires
            ar.wf(),
        ensures
            match row {
                Some(r) => self@.finalize(ar@) == Some(r@),
                None => self@.finalize(ar@) is None,
            },
            match row {
                Some(r) => {
                    &&& !(ar@.test)(Test::Equal(self.z, ar@.zero))
                    &&& r@.len() == self.u@.len()
                    &&& forall|c: int|
                        0 <= c < r@.len() ==> #[trigger] r@[c] == (ar@.term)(
                            Term::Div(self.u@[c], self.z),
                        )
                },
                None => (ar@.test)(Test::Equal(self.z, ar@.zero)),
            },
    {
        if self.is_empty(ar) {
            None
        } else {
            Some(ar.vdiv(&self.u, self.z))
        }
    }
}

} // verus!
