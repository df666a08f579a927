//! The scalar arithmetic that the attention code runs on.
//!
//! The algorithms of this library are generic over the scalar type `T`. A caller brings the
//! operations as three functions, bundled in an [`Arithmetic`]; nothing is assumed of them
//! but that they are total and that equal arguments give equal results. In particular no
//! contract assumes that addition is associative, so the contracts hold of floating-point
//! scalars as they are.
//!
//! Every contract speaks of the [`Algebra`] that the operations compute. [`Arithmetic::new`]
//! takes the functions that the operations happen to be; verified code that knows what its
//! operations compute can fill the fields itself and name the functions.
use vstd::prelude::*;

verus! {

/// An operation that yields a scalar.
pub enum Term<T> {
    Add(T, T),
    Sub(T, T),
    Mul(T, T),
    Div(T, T),
    Max(T, T),
    Exp(T),
    /// A count as a scalar.
    Count(usize),
}

/// A question about scalars.
pub enum Test<T> {
    Greater(T, T),
    Equal(T, T),
    Finite(T),
}

/// Similarity between a query and a key.
#[derive(Clone, Copy, Debug, PartialEq, Eq, Structural)]
pub enum Sim {
    /// Inner product.
    Dot,
    /// Minus half the squared distance.
    NegSquared,
    /// Zero on equal vectors, minus infinity elsewhere.
    Indicator,
}

/// Temperature of the attention operator.
pub enum Eps<T> {
    /// The tropical limit: mean over the argmax set.
    Zero,
    /// A finite positive temperature: softmax.
    Finite(T),
    /// The uniform limit: plain mean.
    Inf,
}

impl<T: Copy> Clone for Eps<T> {
    fn clone(&self) -> (eps: Self)
        ensures
            eps == *self,
    {
        *self
    }
}

impl<T: Copy> Copy for Eps<T> {

}

/// Scalars with their operations, as mathematical functions.
#[verifier::reject_recursive_types(T)]
pub ghost struct Algebra<T> {
    pub zero: T,
    pub one: T,
    pub neg_half: T,
    pub infinity: T,
    pub neg_infinity: T,
    pub term: spec_fn(Term<T>) -> T,
    pub test: spec_fn(Test<T>) -> bool,
    pub inner: spec_fn(Seq<T>, Seq<T>) -> T,
}

impl<T> Algebra<T> {
    pub open spec fn add(self, a: T, b: T) -> T {
        (self.term)(Term::Add(a, b))
    }

    pub open spec fn sub(self, a: T, b: T) -> T {
        (self.term)(Term::Sub(a, b))
    }

    pub open spec fn mul(self, a: T, b: T) -> T {
        (self.term)(Term::Mul(a, b))
    }

    pub open spec fn div(self, a: T, b: T) -> T {
        (self.term)(Term::Div(a, b))
    }

    pub open spec fn max(self, a: T, b: T) -> T {
        (self.term)(Term::Max(a, b))
    }

    pub open spec fn exp(self, a: T) -> T {
        (self.term)(Term::Exp(a))
    }

    pub open spec fn count(self, n: usize) -> T {
        (self.term)(Term::Count(n))
    }

    pub open spec fn gt(self, a: T, b: T) -> bool {
        (self.test)(Test::Greater(a, b))
    }

    pub open spec fn eq(self, a: T, b: T) -> bool {
        (self.test)(Test::Equal(a, b))
    }

    pub open spec fn finite(self, a: T) -> bool {
        (self.test)(Test::Finite(a))
    }

    /// Inner product of two vectors of one length.
    pub open spec fn dot(self, a: Seq<T>, b: Seq<T>) -> T {
        (self.inner)(a, b)
    }

    /// Weight of a record with score `s` relative to the base `base` at temperature `e`.
    pub open spec fn weight(self, e: T, s: T, base: T) -> T {
        self.exp(self.div(self.sub(s, base), e))
    }

    /// The vector of `n` zeros.
    pub open spec fn zeros(self, n: nat) -> Seq<T> {
        Seq::new(n, |c: int| self.zero)
    }

    /// Componentwise sum.
    pub open spec fn vadd(self, a: Seq<T>, b: Seq<T>) -> Seq<T> {
        Seq::new(a.len(), |c: int| self.add(a[c], b[c]))
    }

    /// `a + w * b`, componentwise.
    pub open spec fn axpy(self, a: Seq<T>, w: T, b: Seq<T>) -> Seq<T> {
        Seq::new(a.len(), |c: int| self.add(a[c], self.mul(w, b[c])))
    }

    /// `a * p + q * b`, componentwise.
    pub open spec fn blend(self, a: Seq<T>, p: T, q: T, b: Seq<T>) -> Seq<T> {
        Seq::new(a.len(), |c: int| self.add(self.mul(a[c], p), self.mul(q, b[c])))
    }

    /// `a * p + b * q`, componentwise.
    pub open spec fn rebase(self, a: Seq<T>, p: T, b: Seq<T>, q: T) -> Seq<T> {
        Seq::new(a.len(), |c: int| self.add(self.mul(a[c], p), self.mul(b[c], q)))
    }

    /// `a / s`, componentwise.
    pub open spec fn vdiv(self, a: Seq<T>, s: T) -> Seq<T> {
        Seq::new(a.len(), |c: int| self.div(a[c], s))
    }
}

/// The operations on scalars that a caller brings, with the mathematical functions that they
/// compute.
#[verifier::reject_recursive_types(T)]
pub struct Arithmetic<T, F, G, D> {
    pub zero: T,
    pub one: T,
    /// Minus one half.
    pub neg_half: T,
    pub infinity: T,
    pub neg_infinity: T,
    /// Evaluates a [`Term`].
    pub term: F,
    /// Answers a [`Test`].
    pub test: G,
    /// Inner product of two vectors of one length.
    pub inner: D,
    pub algebra: Ghost<Algebra<T>>,
}

impl<T, F, G, D> View for Arithmetic<T, F, G, D> {
    type V = Algebra<T>;

    open spec fn view(&self) -> Algebra<T> {
        self.algebra@
    }
}

/// The operations are total, and equal arguments give equal results. The inner product is
/// asked only of vectors of one length.
pub open spec fn repeatable<T, F, G, D>(term: F, test: G, inner: D) -> bool where
    F: Fn(Term<T>) -> T,
    G: Fn(Test<T>) -> bool,
    D: Fn(&[T], &[T]) -> T,
 {
    &&& forall|t: Term<T>| call_requires(term, (t,))
    &&& forall|t: Test<T>| call_requires(test, (t,))
    &&& forall|x: &[T], y: &[T]| x@.len() == y@.len() ==> call_requires(inner, (x, y))
    &&& forall|t: Term<T>, r: T, s: T| #[trigger]
        call_ensures(term, (t,), r) && #[trigger] call_ensures(term, (t,), s) ==> r == s
    &&& forall|t: Test<T>, r: bool, s: bool| #[trigger]
        call_ensures(test, (t,), r) && #[trigger] call_ensures(test, (t,), s) ==> r == s
    &&& forall|x: &[T], y: &[T], x2: &[T], y2: &[T], r: T, s: T|
        x@ == x2@ && y@ == y2@ && #[trigger] call_ensures(inner, (x, y), r)
            && #[trigger] call_ensures(inner, (x2, y2), s) ==> r == s
}

/// When operations are repeatable: they accept every argument, the inner product vectors of
/// one length, and equal arguments give equal results.
pub proof fn repeatable_means<T, F, G, D>(term: F, test: G, inner: D) where
    F: Fn(Term<T>) -> T,
    G: Fn(Test<T>) -> bool,
    D: Fn(&[T], &[T]) -> T,

    requires
        forall|t: Term<T>| call_requires(term, (t,)),
        forall|t: Test<T>| call_requires(test, (t,)),
        forall|x: &[T], y: &[T]| x@.len() == y@.len() ==> call_requires(inner, (x, y)),
        forall|t: Term<T>, r: T, s: T| #[trigger]
            call_ensures(term, (t,), r) && #[trigger] call_ensures(term, (t,), s) ==> r == s,
        forall|t: Test<T>, r: bool, s: bool| #[trigger]
            call_ensures(test, (t,), r) && #[trigger] call_ensures(test, (t,), s) ==> r == s,
        forall|x: &[T], y: &[T], x2: &[T], y2: &[T], r: T, s: T|
            x@ == x2@ && y@ == y2@ && #[trigger] call_ensures(inner, (x, y), r)
                && #[trigger] call_ensures(inner, (x2, y2), s) ==> r == s,
    ensures
        repeatable(term, test, inner),
{
}

/// When an arithmetic is well-formed: its constants are those of its algebra, and its
/// operations accept every argument (the inner product: vectors of one length) and return
/// what the functions of the algebra give on that argument.
pub proof fn well_formed_means<T, F, G, D>(ar: Arithmetic<T, F, G, D>) where
    T: Copy,
    F: Fn(Term<T>) -> T,
    G: Fn(Test<T>) -> bool,
    D: Fn(&[T], &[T]) -> T,

    ensures
        ar@ == ar.algebra@,
        ar.wf() <==> {
            &&& ar.zero == ar.algebra@.zero
            &&& ar.one == ar.algebra@.one
            &&& ar.neg_half == ar.algebra@.neg_half
            &&& ar.infinity == ar.algebra@.infinity
            &&& ar.neg_infinity == ar.algebra@.neg_infinity
            &&& forall|t: Term<T>| call_requires(ar.term, (t,))
            &&& forall|t: Test<T>| call_requires(ar.test, (t,))
            &&& forall|x: &[T], y: &[T]| x@.len() == y@.len() ==> call_requires(ar.inner, (x, y))
            &&& forall|t: Term<T>, r: T| #[trigger]
                call_ensures(ar.term, (t,), r) ==> r == (ar.algebra@.term)(t)
            &&& forall|t: Test<T>, r: bool| #[trigger]
                call_ensures(ar.test, (t,), r) ==> r == (ar.algebra@.test)(t)
            &&& forall|x: &[T], y: &[T], r: T| #[trigger]
                call_ensures(ar.inner, (x, y), r) ==> r == (ar.algebra@.inner)(x@, y@)
        },
{
}

/// What `inner` returns on vectors that hold `a` and `b`.
spec fn inner_result<T, D: Fn(&[T], &[T]) -> T>(inner: D, a: Seq<T>, b: Seq<T>) -> T {
    let (x, y, r) = choose|x: &[T], y: &[T], r: T|
        x@ == a && y@ == b && #[trigger] call_ensures(inner, (x, y), r);
    r
}

impl<T, F, G, D> Arithmetic<T, F, G, D> where
    T: Copy,
    F: Fn(Term<T>) -> T,
    G: Fn(Test<T>) -> bool,
    D: Fn(&[T], &[T]) -> T,
 {
    /// The constants are those of the algebra, and the operations are total and compute its
    /// functions. The inner product is asked only of vectors of one length.
    pub open spec fn wf(&self) -> bool {
        &&& self.zero == self@.zero
        &&& self.one == self@.one
        &&& self.neg_half == self@.neg_half
        &&& self.infinity == self@.infinity
        &&& self.neg_infinity == self@.neg_infinity
        &&& forall|t: Term<T>| call_requires(self.term, (t,))
        &&& forall|t: Test<T>| call_requires(self.test, (t,))
        &&& forall|x: &[T], y: &[T]| x@.len() == y@.len() ==> call_requires(self.inner, (x, y))
        &&& forall|t: Term<T>, r: T| #[trigger]
            call_ensures(self.term, (t,), r) ==> r == (self@.term)(t)
        &&& forall|t: Test<T>, r: bool| #[trigger]
            call_ensures(self.test, (t,), r) ==> r == (self@.test)(t)
        &&& forall|x: &[T], y: &[T], r: T| #[trigger]
            call_ensures(self.inner, (x, y), r) ==> r == (self@.inner)(x@, y@)
    }

    /// The arithmetic of the given constants and operations.
    pub fn new(
        zero: T,
        one: T,
        neg_half: T,
        infinity: T,
        neg_infinity: T,
        term: F,
        test: G,
        inner: D,
    ) -> (ar: Self)
        ensures
            ar.zero == zero,
            ar.one == one,
            ar.neg_half == neg_half,
            ar.infinity == infinity,
            ar.neg_infinity == neg_infinity,
            ar.term == term,
            ar.test == test,
            ar.inner == inner,
            repeatable(term, test, inner) ==> ar.wf(),
            ar@.zero == zero,
            ar@.one == one,
            ar@.neg_half == neg_half,
            ar@.infinity == infinity,
            ar@.neg_infinity == neg_infinity,
    {
        let ghost algebra = Algebra {
            zero,
            one,
            neg_half,
            infinity,
            neg_infinity,
            term: |t: Term<T>| choose|r: T| call_ensures(term, (t,), r),
            test: |t: Test<T>| choose|r: bool| call_ensures(test, (t,), r),
            inner: |a: Seq<T>, b: Seq<T>| inner_result(inner, a, b),
        };
        Arithmetic {
            zero,
            one,
            neg_half,
            infinity,
            neg_infinity,
            term,
            test,
            inner,
            algebra: Ghost(algebra),
        }
    }

    pub fn add(&self, a: T, b: T) -> (r: T)
        requires
            self.wf(),
        ensures
            r == self@.add(a, b),
            r == (self@.term)(Term::Add(a, b)),
    {
        (self.term)(Term::Add(a, b))
    }

    pub fn sub(&self, a: T, b: T) -> (r: T)
        requires
            self.wf(),
        ensures
            r == self@.sub(a, b),
            r == (self@.term)(Term::Sub(a, b)),
    {
        (self.term)(Term::Sub(a, b))
    }

    pub fn mul(&self, a: T, b: T) -> (r: T)
        requires
            self.wf(),
        ensures
            r == self@.mul(a, b),
            r == (self@.term)(Term::Mul(a, b)),
    {
        (self.term)(Term::Mul(a, b))
    }

    pub fn div(&self, a: T, b: T) -> (r: T)
        requires
            self.wf(),
        ensures
            r == self@.div(a, b),
            r == (self@.term)(Term::Div(a, b)),
    {
        (self.term)(Term::Div(a, b))
    }

    pub fn max(&self, a: T, b: T) -> (r: T)
        requires
            self.wf(),
        ensures
            r == self@.max(a, b),
            r == (self@.term)(Term::Max(a, b)),
    {
        (self.term)(Term::Max(a, b))
    }

    pub fn exp(&self, a: T) -> (r: T)
        requires
            self.wf(),
        ensures
            r == self@.exp(a),
            r == (self@.term)(Term::Exp(a)),
    {
        (self.term)(Term::Exp(a))
    }

    pub fn count(&self, n: usize) -> (r: T)
        requires
            self.wf(),
        ensures
            r == self@.count(n),
            r == (self@.term)(Term::Count(n)),
    {
        (self.term)(Term::Count(n))
    }

    pub fn gt(&self, a: T, b: T) -> (r: bool)
        requires
            self.wf(),
        ensures
            r == self@.gt(a, b),
            r == (self@.test)(Test::Greater(a, b)),
    {
        (self.test)(Test::Greater(a, b))
    }

    pub fn eq(&self, a: T, b: T) -> (r: bool)
        requires
            self.wf(),
        ensures
            r == self@.eq(a, b),
            r == (self@.test)(Test::Equal(a, b)),
    {
        (self.test)(Test::Equal(a, b))
    }

    pub fn finite(&self, a: T) -> (r: bool)
        requires
            self.wf(),
        ensures
            r == self@.finite(a),
            r == (self@.test)(Test::Finite(a)),
    {
        (self.test)(Test::Finite(a))
    }

    pub fn dot(&self, a: &[T], b: &[T]) -> (r: T)
        requires
            self.wf(),
            a@.len() == b@.len(),
        ensures
            r == self@.dot(a@, b@),
            r == (self@.inner)(a@, b@),
    {
        (self.inner)(a, b)
    }

    /// Weight of a record with score `s` relative to `base` at temperature `e`.
    pub fn weight(&self, e: T, s: T, base: T) -> (r: T)
        requires
            self.wf(),
        ensures
            r == self@.weight(e, s, base),
            r == (self@.term)(
                Term::Exp(
                    (self@.term)(Term::Div((self@.term)(Term::Sub(s, base)), e)),
                ),
            ),
    {
        self.exp(self.div(self.sub(s, base), e))
    }

    /// The vector of `n` zeros.
    pub fn zeros(&self, n: usize) -> (r: Vec<T>)
        requires
            self.wf(),
        ensures
            r@ == self@.zeros(n as nat),
            r@.len() == n,
            forall|c: int| 0 <= c < n ==> #[trigger] r@[c] == self.zero,
    {
        let mut r: Vec<T> = Vec::new();
        while r.len() < n
            invariant
                self.wf(),
                r@.len() <= n,
                r@ == self@.zeros(r@.len()),
            decreases n - r@.len(),
        {
            r.push(self.zero);
        }
        r
    }

    /// Adds `b` to `a`, componentwise.
    pub fn vadd(&self, a: &mut Vec<T>, b: &[T])
        requires
            self.wf(),
            old(a)@.len() == b@.len(),
        ensures
            final(a)@ == self@.vadd(old(a)@, b@),
            final(a)@.len() == old(a)@.len(),
            forall|c: int|
                0 <= c < old(a)@.len() ==> #[trigger] final(a)@[c] == (self@.term)(
                    Term::Add(old(a)@[c], b@[c]),
                ),
    {
        let ghost start = a@;
        let n: usize = a.len();
        let mut c: usize = 0;
        while c < n
            invariant
                self.wf(),
                a@.len() == start.len() == b@.len() == n,
                c <= n,
                forall|d: int| 0 <= d < c ==> a@[d] == self@.add(start[d], b@[d]),
                forall|d: int| c <= d < n ==> a@[d] == start[d],
            decreases n - c,
        {
            let sum: T = self.add(a[c], b[c]);
            a.set(c, sum);
            c += 1;
        }
    }

    /// Adds `w * b` to `a`, componentwise.
    pub fn axpy(&self, a: &mut Vec<T>, w: T, b: &[T])
        requires
            self.wf(),
            old(a)@.len() == b@.len(),
        ensures
            final(a)@ == self@.axpy(old(a)@, w, b@),
            final(a)@.len() == old(a)@.len(),
            forall|c: int|
                0 <= c < old(a)@.len() ==> #[trigger] final(a)@[c] == (self@.term)(
                    Term::Add(old(a)@[c], (self@.term)(Term::Mul(w, b@[c]))),
                ),
    {
        let ghost start = a@;
        let n: usize = a.len();
        let mut c: usize = 0;
        while c < n
            invariant
                self.wf(),
                a@.len() == start.len() == b@.len() == n,
                c <= n,
                forall|d: int|
                    0 <= d < c ==> a@[d] == self@.add(start[d], self@.mul(w, b@[d])),
                forall|d: int| c <= d < n ==> a@[d] == start[d],
            decreases n - c,
        {
            let sum: T = self.add(a[c], self.mul(w, b[c]));
            a.set(c, sum);
            c += 1;
        }
    }

    /// Replaces `a` by `a * p + q * b`, componentwise.
    pub fn blend(&self, a: &mut Vec<T>, p: T, q: T, b: &[T])
        requires
            self.wf(),
            old(a)@.len() == b@.len(),
        ensures
            final(a)@ == self@.blend(old(a)@, p, q, b@),
            final(a)@.len() == old(a)@.len(),
            forall|c: int|
                0 <= c < old(a)@.len() ==> #[trigger] final(a)@[c] == (self@.term)(
                    Term::Add((self@.term)(Term::Mul(old(a)@[c], p)), (self@.term)(Term::Mul(q, b@[c]))),
                ),
    {
        let ghost start = a@;
        let n: usize = a.len();
        let mut c: usize = 0;
        while c < n
            invariant
                self.wf(),
                a@.len() == start.len() == b@.len() == n,
                c <= n,
                forall|d: int|
                    0 <= d < c ==> a@[d] == self@.add(
                        self@.mul(start[d], p),
                        self@.mul(q, b@[d]),
                    ),
                forall|d: int| c <= d < n ==> a@[d] == start[d],
            decreases n - c,
        {
            let sum: T = self.add(self.mul(a[c], p), self.mul(q, b[c]));
            a.set(c, sum);
            c += 1;
        }
    }

    /// Replaces `a` by `a * p + b * q`, componentwise.
    pub fn rebase(&self, a: &mut Vec<T>, p: T, b: &[T], q: T)
        requires
            self.wf(),
            old(a)@.len() == b@.len(),
        ensures
            final(a)@ == self@.rebase(old(a)@, p, b@, q),
            final(a)@.len() == old(a)@.len(),
            forall|c: int|
                0 <= c < old(a)@.len() ==> #[trigger] final(a)@[c] == (self@.term)(
                    Term::Add((self@.term)(Term::Mul(old(a)@[c], p)), (self@.term)(Term::Mul(b@[c], q))),
                ),
    {
        let ghost start = a@;
        let n: usize = a.len();
        let mut c: usize = 0;
        while c < n
            invariant
                self.wf(),
                a@.len() == start.len() == b@.len() == n,
                c <= n,
                forall|d: int|
                    0 <= d < c ==> a@[d] == self@.add(
                        self@.mul(start[d], p),
                        self@.mul(b@[d], q),
                    ),
                forall|d: int| c <= d < n ==> a@[d] == start[d],
            decreases n - c,
        {
            let sum: T = self.add(self.mul(a[c], p), self.mul(b[c], q));
            a.set(c, sum);
            c += 1;
        }
    }

    /// `a / s`, componentwise.
    pub fn vdiv(&self, a: &Vec<T>, s: T) -> (r: Vec<T>)
        requires
            self.wf(),
        ensures
            r@ == self@.vdiv(a@, s),
            r@.len() == a@.len(),
            forall|c: int|
                0 <= c < a@.len() ==> #[trigger] r@[c] == (self@.term)(Term::Div(a@[c], s)),
    {
        let mut r: Vec<T> = Vec::new();
        while r.len() < a.len()
            invariant
                self.wf(),
                r@.len() <= a@.len(),
                forall|c: int| 0 <= c < r@.len() ==> r@[c] == self@.div(a@[c], s),
            decreases a@.len() - r@.len(),
        {
            let c: usize = r.len();
            r.push(self.div(a[c], s));
        }
        r
    }
}

/// A copy of a vector of scalars.
pub fn copy_vec<T: Copy>(a: &[T]) -> (r: Vec<T>)
    ensures
        r@ == a@,
{
    let mut r: Vec<T> = Vec::new();
    while r.len() < a.len()
        invariant
            r@.len() <= a@.len(),
            r@ == a@.take(r@.len() as int),
        decreases a@.len() - r@.len(),
    {
        let c: usize = r.len();
        r.push(a[c]);
    }
    r
}

} // verus!
