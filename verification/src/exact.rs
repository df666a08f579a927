//! Exact arithmetic, and the accumulator as a commutative monoid.
//!
//! Floating-point addition is not associative, so the result of a fold depends on the order
//! of the records by rounding errors. Unless they say otherwise, the laws of this module say
//! what the folds compute apart from rounding: they hold of every arithmetic that is exact on
//! its finite scalars.
use crate::accum::AccView;
use crate::arith::{Algebra, Eps};
use vstd::prelude::*;

verus! {

impl<T> Algebra<T> {
    /// Equality and order are those of a total order in which minus infinity lies below
    /// every finite scalar.
    pub open spec fn exact_order(self) -> bool {
        &&& forall|a: T, b: T|
            self.finite(a) && self.finite(b) ==> (#[trigger] self.eq(a, b) <==> a == b)
        &&& forall|a: T| self.finite(a) ==> !(#[trigger] self.gt(a, a))
        &&& forall|a: T, b: T|
            self.finite(a) && self.finite(b) && a != b ==> #[trigger] self.gt(a, b) != self.gt(
                b,
                a,
            )
        &&& forall|a: T, b: T, c: T|
            self.finite(a) && self.finite(b) && self.finite(c) && #[trigger] self.gt(a, b)
                && #[trigger] self.gt(b, c) ==> self.gt(a, c)
        &&& forall|a: T| self.finite(a) ==> #[trigger] self.gt(a, self.neg_infinity)
        &&& forall|a: T, b: T|
            self.finite(a) && self.finite(b) ==> #[trigger] self.max(a, b) == (if self.gt(a, b) {
                a
            } else {
                b
            })
    }

    /// Sums do not depend on the order of their two terms.
    pub open spec fn addition_commutes(self) -> bool {
        forall|a: T, b: T| #[trigger] self.add(a, b) == self.add(b, a)
    }

    /// Addition is commutative and associative, with neutral element zero, and keeps the
    /// order.
    pub open spec fn exact_sum(self) -> bool {
        &&& self.finite(self.zero)
        &&& forall|a: T, b: T|
            self.finite(a) && self.finite(b) ==> self.finite(#[trigger] self.add(a, b))
        &&& self.addition_commutes()
        &&& forall|a: T, b: T, c: T|
            self.finite(a) && self.finite(b) && self.finite(c) ==> #[trigger] self.add(
                self.add(a, b),
                c,
            ) == self.add(a, self.add(b, c))
        &&& forall|a: T| self.finite(a) ==> #[trigger] self.add(a, self.zero) == a
        &&& forall|a: T, b: T, c: T|
            self.finite(a) && self.finite(b) && self.finite(c) && self.gt(a, b) ==> self.gt(
                #[trigger] self.add(a, c),
                #[trigger] self.add(b, c),
            )
    }

    /// Multiplication is commutative and associative, with neutral element one, and
    /// distributes over addition; division by a positive scalar distributes too, cancels
    /// positive factors and keeps the order.
    pub open spec fn exact_product(self) -> bool {
        &&& self.finite(self.one)
        &&& forall|a: T, b: T|
            self.finite(a) && self.finite(b) ==> self.finite(#[trigger] self.mul(a, b))
        &&& forall|a: T, b: T|
            self.finite(a) && self.finite(b) ==> #[trigger] self.mul(a, b) == self.mul(b, a)
        &&& forall|a: T, b: T, c: T|
            self.finite(a) && self.finite(b) && self.finite(c) ==> #[trigger] self.mul(
                self.mul(a, b),
                c,
            ) == self.mul(a, self.mul(b, c))
        &&& forall|a: T| self.finite(a) ==> #[trigger] self.mul(a, self.one) == a
        &&& forall|a: T| self.finite(a) ==> #[trigger] self.mul(self.zero, a) == self.zero
        &&& forall|a: T, b: T, c: T|
            self.finite(a) && self.finite(b) && self.finite(c) ==> #[trigger] self.mul(
                self.add(a, b),
                c,
            ) == self.add(self.mul(a, c), self.mul(b, c))
        &&& forall|a: T, e: T|
            self.finite(a) && self.finite(e) && self.gt(e, self.zero) ==> self.finite(
                #[trigger] self.div(a, e),
            )
        &&& forall|a: T, b: T, e: T|
            self.finite(a) && self.finite(b) && self.finite(e) && self.gt(e, self.zero)
                ==> #[trigger] self.div(self.add(a, b), e) == self.add(
                self.div(a, e),
                self.div(b, e),
            )
        &&& forall|e: T|
            self.finite(e) && self.gt(e, self.zero) ==> #[trigger] self.div(self.zero, e)
                == self.zero
        &&& forall|a: T, b: T, e: T|
            self.finite(a) && self.finite(b) && self.finite(e) && self.gt(b, self.zero) && self.gt(
                e,
                self.zero,
            ) ==> #[trigger] self.div(self.mul(a, e), self.mul(b, e)) == self.div(a, b)
        &&& forall|a: T, e: T|
            self.finite(a) && self.finite(e) && self.gt(e, self.zero) ==> #[trigger] self.div(
                self.mul(a, e),
                e,
            ) == a
        &&& forall|a: T, b: T, e: T|
            self.finite(a) && self.finite(b) && self.finite(e) && self.gt(e, self.zero) && self.gt(
                a,
                b,
            ) ==> self.gt(#[trigger] self.div(a, e), #[trigger] self.div(b, e))
    }

    /// Dividing by infinity gives zero, and counts are sums of ones.
    pub open spec fn exact_extremes(self) -> bool {
        &&& forall|a: T| self.finite(a) ==> #[trigger] self.div(a, self.infinity) == self.zero
        &&& self.count(0) == self.zero
        &&& forall|n: usize, m: usize|
            m == n + 1 ==> #[trigger] self.count(m) == self.add(#[trigger] self.count(n), self.one)
    }

    /// Differences telescope, and the difference to zero changes nothing.
    pub open spec fn exact_difference(self) -> bool {
        &&& forall|a: T, b: T|
            self.finite(a) && self.finite(b) ==> self.finite(#[trigger] self.sub(a, b))
        &&& forall|a: T| self.finite(a) ==> #[trigger] self.sub(a, a) == self.zero
        &&& forall|a: T| self.finite(a) ==> #[trigger] self.sub(a, self.zero) == a
        &&& forall|a: T, b: T, c: T|
            self.finite(a) && self.finite(b) && self.finite(c) ==> self.add(
                #[trigger] self.sub(a, b),
                #[trigger] self.sub(b, c),
            ) == self.sub(a, c)
    }

    /// The exponential turns sums into products, is positive, and exceeds one only above
    /// zero; positive scalars are closed under sum and product.
    pub open spec fn exact_exponential(self) -> bool {
        &&& self.exp(self.zero) == self.one
        &&& forall|a: T|
            self.finite(a) ==> self.finite(#[trigger] self.exp(a)) && self.gt(
                self.exp(a),
                self.zero,
            )
        &&& forall|a: T, b: T|
            self.finite(a) && self.finite(b) ==> #[trigger] self.exp(self.add(a, b)) == self.mul(
                self.exp(a),
                self.exp(b),
            )
        &&& forall|a: T|
            self.finite(a) && !self.gt(a, self.zero) ==> !self.gt(
                #[trigger] self.exp(a),
                self.one,
            )
        &&& self.gt(self.one, self.zero)
        &&& forall|a: T, b: T|
            self.finite(a) && self.finite(b) && self.gt(a, self.zero) && self.gt(b, self.zero)
                ==> self.gt(#[trigger] self.add(a, b), self.zero)
        &&& forall|a: T, b: T|
            self.finite(a) && self.finite(b) && self.gt(a, self.zero) && self.gt(b, self.zero)
                ==> self.gt(#[trigger] self.mul(a, b), self.zero)
    }

    /// Minus infinity is below every other scalar, stays itself when it is shifted or scaled by
    /// finite scalars, and has the exponential zero.
    pub open spec fn exact_below(self) -> bool {
        &&& !self.finite(self.neg_infinity)
        &&& !self.gt(self.neg_infinity, self.neg_infinity)
        &&& forall|a: T| self.finite(a) ==> !(#[trigger] self.gt(self.neg_infinity, a))
        &&& forall|a: T|
            self.finite(a) ==> #[trigger] self.sub(self.neg_infinity, a) == self.neg_infinity
        &&& forall|e: T|
            self.finite(e) && self.gt(e, self.zero) ==> #[trigger] self.div(self.neg_infinity, e)
                == self.neg_infinity
        &&& self.exp(self.neg_infinity) == self.zero
    }

    /// The arithmetic is exact on its finite scalars.
    #[verifier::opaque]
    pub open spec fn exact(self) -> bool {
        &&& self.exact_order()
        &&& self.exact_sum()
        &&& self.exact_product()
        &&& self.exact_difference()
        &&& self.exact_exponential()
        &&& self.exact_extremes()
    }

    /// `a` does not exceed `b`.
    pub open spec fn at_most(self, a: T, b: T) -> bool {
        !self.gt(a, b)
    }

    /// The temperature is zero, infinite, or finite and positive.
    pub open spec fn proper_eps(self, eps: Eps<T>) -> bool {
        match eps {
            Eps::Finite(e) => self.finite(e) && self.gt(e, self.zero),
            _ => true,
        }
    }

    /// Every component is finite.
    pub open spec fn all_finite(self, v: Seq<T>) -> bool {
        forall|c: int| 0 <= c < v.len() ==> self.finite(#[trigger] v[c])
    }
}

/// Zero and one are finite and differ.
pub proof fn exact_constants<T>(alg: Algebra<T>)
    requires
        alg.exact(),
    ensures
        alg.finite(alg.zero),
        alg.finite(alg.one),
        alg.gt(alg.one, alg.zero),
        alg.eq(alg.zero, alg.zero),
        !alg.eq(alg.one, alg.zero),
{
    reveal(Algebra::exact);
}

/// Facts about sums of finite scalars.
pub proof fn exact_add<T>(alg: Algebra<T>, a: T, b: T, c: T)
    requires
        alg.exact(),
        alg.finite(a),
        alg.finite(b),
        alg.finite(c),
    ensures
        alg.finite(alg.add(a, b)),
        alg.add(a, b) == alg.add(b, a),
        alg.add(alg.add(a, b), c) == alg.add(a, alg.add(b, c)),
        alg.add(a, alg.zero) == a,
        alg.add(alg.zero, a) == a,
{
    reveal(Algebra::exact);
    assert(alg.add(a, alg.zero) == alg.add(alg.zero, a));
}

/// Facts about products of finite scalars.
pub proof fn exact_mul<T>(alg: Algebra<T>, a: T, b: T, c: T)
    requires
        alg.exact(),
        alg.finite(a),
        alg.finite(b),
        alg.finite(c),
    ensures
        alg.finite(alg.mul(a, b)),
        alg.mul(a, b) == alg.mul(b, a),
        alg.mul(alg.mul(a, b), c) == alg.mul(a, alg.mul(b, c)),
        alg.mul(a, alg.one) == a,
        alg.mul(alg.one, a) == a,
        alg.mul(alg.zero, a) == alg.zero,
        alg.mul(alg.add(a, b), c) == alg.add(alg.mul(a, c), alg.mul(b, c)),
{
    reveal(Algebra::exact);
    assert(alg.mul(a, alg.one) == alg.mul(alg.one, a));
}

/// Facts about the order of finite scalars.
pub proof fn exact_compare<T>(alg: Algebra<T>, a: T, b: T)
    requires
        alg.exact(),
        alg.finite(a),
        alg.finite(b),
    ensures
        alg.eq(a, b) <==> a == b,
        !alg.gt(a, a),
        a != b ==> alg.gt(a, b) != alg.gt(b, a),
        alg.gt(a, alg.neg_infinity),
        alg.max(a, b) == (if alg.gt(a, b) {
            a
        } else {
            b
        }),
{
    reveal(Algebra::exact);
}

/// The order of finite scalars is transitive.
pub proof fn exact_transitive<T>(alg: Algebra<T>, a: T, b: T, c: T)
    requires
        alg.exact(),
        alg.finite(a),
        alg.finite(b),
        alg.finite(c),
        alg.gt(a, b),
        alg.gt(b, c),
    ensures
        alg.gt(a, c),
{
    reveal(Algebra::exact);
}

/// Sums and products of positive scalars are positive.
pub proof fn exact_positive<T>(alg: Algebra<T>, a: T, b: T)
    requires
        alg.exact(),
        alg.finite(a),
        alg.finite(b),
        alg.gt(a, alg.zero),
        alg.gt(b, alg.zero),
    ensures
        alg.gt(alg.add(a, b), alg.zero),
        alg.gt(alg.mul(a, b), alg.zero),
{
    reveal(Algebra::exact);
}

/// Weights of finite scores are positive, and compose.
pub proof fn exact_weight<T>(alg: Algebra<T>, e: T, a: T, b: T, c: T)
    requires
        alg.exact(),
        alg.proper_eps(Eps::Finite(e)),
        alg.finite(a),
        alg.finite(b),
        alg.finite(c),
    ensures
        alg.finite(alg.weight(e, a, b)),
        alg.gt(alg.weight(e, a, b), alg.zero),
        alg.weight(e, a, a) == alg.one,
        alg.mul(alg.weight(e, a, b), alg.weight(e, b, c)) == alg.weight(e, a, c),
{
    reveal(Algebra::exact);
    let x = alg.sub(a, b);
    let y = alg.sub(b, c);
    assert(alg.add(x, y) == alg.sub(a, c));
    assert(alg.div(alg.add(x, y), e) == alg.add(alg.div(x, e), alg.div(y, e)));
    assert(alg.finite(alg.div(x, e)) && alg.finite(alg.div(y, e)));
    assert(alg.exp(alg.add(alg.div(x, e), alg.div(y, e))) == alg.mul(
        alg.exp(alg.div(x, e)),
        alg.exp(alg.div(y, e)),
    ));
    assert(alg.sub(a, a) == alg.zero);
    assert(alg.div(alg.zero, e) == alg.zero);
}

/// A positive factor cancels from a quotient.
pub proof fn exact_cancel<T>(alg: Algebra<T>, a: T, b: T, e: T)
    requires
        alg.exact(),
        alg.finite(a),
        alg.finite(b),
        alg.finite(e),
        alg.gt(b, alg.zero),
        alg.gt(e, alg.zero),
    ensures
        alg.div(alg.mul(a, e), alg.mul(b, e)) == alg.div(a, b),
{
    reveal(Algebra::exact);
}

/// Counts are sums of ones.
pub proof fn exact_count<T>(alg: Algebra<T>, n: usize, m: usize)
    requires
        alg.exact(),
        m == n + 1,
    ensures
        alg.count(0) == alg.zero,
        alg.count(m) == alg.add(alg.count(n), alg.one),
{
    reveal(Algebra::exact);
}

/// At infinite temperature the weight of a finite score is one; relative to zero the weight
/// is the exponential of the score over the temperature.
pub proof fn exact_extreme_weight<T>(alg: Algebra<T>, e: T, s: T, base: T)
    requires
        alg.exact(),
        alg.finite(s),
        alg.finite(base),
    ensures
        alg.weight(alg.infinity, s, base) == alg.one,
        alg.weight(e, s, alg.zero) == alg.exp(alg.div(s, e)),
{
    reveal(Algebra::exact);
    let d = alg.sub(s, base);
    assert(alg.finite(d));
    assert(alg.div(d, alg.infinity) == alg.zero);
    assert(alg.sub(s, alg.zero) == s);
}

/// On finite scalars, not exceeding is reflexive and transitive.
pub proof fn at_most_transitive<T>(alg: Algebra<T>, a: T, b: T, c: T)
    requires
        alg.exact(),
        alg.finite(a),
        alg.finite(b),
        alg.finite(c),
        alg.at_most(a, b),
        alg.at_most(b, c),
    ensures
        alg.at_most(a, a),
        alg.at_most(a, c),
{
    exact_compare(alg, a, b);
    exact_compare(alg, b, c);
    if alg.gt(a, c) && b != c {
        exact_transitive(alg, a, c, b);
    }
}

/// Larger terms have a larger sum.
pub proof fn at_most_add<T>(alg: Algebra<T>, a: T, b: T, c: T, d: T)
    requires
        alg.exact(),
        alg.finite(a),
        alg.finite(b),
        alg.finite(c),
        alg.finite(d),
        alg.at_most(a, b),
        alg.at_most(c, d),
    ensures
        alg.at_most(alg.add(a, c), alg.add(b, d)),
{
    exact_add(alg, a, c, c);
    exact_add(alg, b, c, c);
    exact_add(alg, b, d, d);
    exact_compare(alg, a, b);
    exact_compare(alg, c, d);
    exact_compare(alg, alg.add(a, c), alg.add(b, c));
    exact_compare(alg, alg.add(b, c), alg.add(b, d));
    assert(alg.at_most(alg.add(a, c), alg.add(b, c))) by {
        if a != b {
            reveal(Algebra::exact);
            assert(alg.gt(b, a));
        }
    }
    assert(alg.at_most(alg.add(b, c), alg.add(b, d))) by {
        if c != d {
            reveal(Algebra::exact);
            assert(alg.gt(d, c));
            assert(alg.gt(alg.add(d, b), alg.add(c, b)));
        }
    }
    at_most_transitive(alg, alg.add(a, c), alg.add(b, c), alg.add(b, d));
}

/// The difference of a scalar to itself is zero.
pub proof fn exact_self_difference<T>(alg: Algebra<T>, a: T)
    requires
        alg.exact(),
        alg.finite(a),
    ensures
        alg.sub(a, a) == alg.zero,
{
    reveal(Algebra::exact);
}

/// A difference exceeds zero iff its first term exceeds the second, and adding the second
/// term gives back the first.
pub proof fn exact_difference_sign<T>(alg: Algebra<T>, a: T, b: T)
    requires
        alg.exact(),
        alg.finite(a),
        alg.finite(b),
    ensures
        alg.finite(alg.sub(a, b)),
        alg.add(alg.sub(a, b), b) == a,
        alg.gt(alg.sub(a, b), alg.zero) <==> alg.gt(a, b),
{
    let d = alg.sub(a, b);
    exact_constants(alg);
    assert(alg.finite(d) && alg.add(d, b) == a) by {
        reveal(Algebra::exact);
        assert(alg.sub(b, alg.zero) == b);
        assert(alg.sub(a, alg.zero) == a);
    }
    exact_add(alg, b, b, b);
    exact_compare(alg, a, b);
    exact_compare(alg, d, alg.zero);
    if alg.gt(d, alg.zero) {
        assert(alg.gt(alg.add(d, b), alg.add(alg.zero, b))) by {
            reveal(Algebra::exact);
        }
    } else {
        exact_compare(alg, b, b);
        at_most_add(alg, d, alg.zero, b, b);
    }
}

/// Multiplying by a positive scalar keeps the order.
pub proof fn at_most_mul<T>(alg: Algebra<T>, a: T, b: T, w: T)
    requires
        alg.exact(),
        alg.finite(a),
        alg.finite(b),
        alg.finite(w),
        alg.gt(w, alg.zero),
        alg.at_most(a, b),
    ensures
        alg.at_most(alg.mul(a, w), alg.mul(b, w)),
{
    let d = alg.sub(b, a);
    exact_difference_sign(alg, b, a);
    exact_constants(alg);
    exact_compare(alg, a, b);
    exact_mul(alg, a, w, w);
    exact_mul(alg, b, w, w);
    exact_compare(alg, alg.mul(a, w), alg.mul(a, w));
    if a != b {
        exact_positive(alg, d, w);
        exact_mul(alg, d, w, w);
        exact_mul(alg, d, a, w);
        let (x, y) = (alg.mul(d, w), alg.mul(a, w));
        exact_compare(alg, x, alg.zero);
        exact_compare(alg, alg.zero, x);
        exact_add(alg, y, alg.zero, alg.zero);
        exact_compare(alg, y, y);
        at_most_add(alg, alg.zero, x, y, y);
    }
}

/// Dividing by a positive scalar keeps the order and undoes multiplying by it.
pub proof fn at_most_div<T>(alg: Algebra<T>, a: T, b: T, e: T)
    requires
        alg.exact(),
        alg.finite(a),
        alg.finite(b),
        alg.finite(e),
        alg.gt(e, alg.zero),
    ensures
        alg.div(alg.mul(a, e), e) == a,
        alg.finite(alg.div(a, e)),
        alg.at_most(a, b) ==> alg.at_most(alg.div(a, e), alg.div(b, e)),
{
    exact_compare(alg, a, b);
    reveal(Algebra::exact);
    if alg.at_most(a, b) && a != b {
        assert(alg.gt(b, a));
        assert(alg.gt(alg.div(b, e), alg.div(a, e)));
    }
}

/// A score that does not exceed the base has a weight of at most one.
pub proof fn weight_at_most_one<T>(alg: Algebra<T>, e: T, s: T, base: T)
    requires
        alg.exact(),
        alg.proper_eps(Eps::Finite(e)),
        alg.finite(s),
        alg.finite(base),
        alg.at_most(s, base),
    ensures
        alg.at_most(alg.weight(e, s, base), alg.one),
{
    let d = alg.sub(s, base);
    exact_constants(alg);
    exact_difference_sign(alg, s, base);
    at_most_div(alg, d, alg.zero, e);
    assert(alg.div(alg.zero, e) == alg.zero && !alg.gt(alg.exp(alg.div(d, e)), alg.one)) by {
        reveal(Algebra::exact);
    }
}

/// `(x * p + y * q) * r == x * (p * r) + y * (q * r)`.
pub proof fn exact_rescale<T>(alg: Algebra<T>, x: T, p: T, y: T, q: T, r: T)
    requires
        alg.exact(),
        alg.finite(x),
        alg.finite(p),
        alg.finite(y),
        alg.finite(q),
        alg.finite(r),
    ensures
        alg.mul(alg.add(alg.mul(x, p), alg.mul(y, q)), r) == alg.add(
            alg.mul(x, alg.mul(p, r)),
            alg.mul(y, alg.mul(q, r)),
        ),
{
    exact_mul(alg, x, p, r);
    exact_mul(alg, y, q, r);
    exact_mul(alg, alg.mul(x, p), alg.mul(y, q), r);
}

impl<T> AccView<T> {
    /// What an exact fold of records with values of length `d_v` can hold: nothing, or a
    /// positive normaliser with finite entries and, below infinite temperature, a finite
    /// score.
    pub open spec fn proper(self, alg: Algebra<T>, eps: Eps<T>, d_v: nat) -> bool {
        ||| self == AccView::fresh(alg, d_v)
        ||| self.loaded(alg, eps, d_v)
    }

    /// A proper accumulator that has absorbed something.
    pub open spec fn loaded(self, alg: Algebra<T>, eps: Eps<T>, d_v: nat) -> bool {
        &&& self.u.len() == d_v
        &&& alg.all_finite(self.u)
        &&& alg.finite(self.z)
        &&& alg.gt(self.z, alg.zero)
        &&& if eps is Inf {
            self.mu == alg.neg_infinity
        } else {
            alg.finite(self.mu)
        }
    }
}

/// A fresh accumulator is empty and a loaded one is not.
pub proof fn proper_emptiness<T>(alg: Algebra<T>, eps: Eps<T>, d_v: nat, a: AccView<T>)
    requires
        alg.exact(),
    ensures
        AccView::fresh(alg, d_v).is_empty(alg),
        a.loaded(alg, eps, d_v) ==> !a.is_empty(alg),
{
    exact_constants(alg);
    if a.loaded(alg, eps, d_v) {
        exact_compare(alg, a.z, alg.zero);
    }
}

/// A fresh accumulator is neutral for merging. This asks of the arithmetic only that zero
/// equals itself, and of the accumulator that it is fresh or not empty.
pub proof fn merge_identity<T>(alg: Algebra<T>, eps: Eps<T>, d_v: nat, a: AccView<T>)
    requires
        alg.eq(alg.zero, alg.zero),
        a == AccView::fresh(alg, d_v) || !a.is_empty(alg),
    ensures
        a.merge(alg, eps, AccView::fresh(alg, d_v)) == a,
        AccView::fresh(alg, d_v).merge(alg, eps, a) == a,
{
}

/// What an exact fold holds is fresh or not empty, so that a fresh accumulator is neutral for
/// merging with it.
pub proof fn proper_identity<T>(alg: Algebra<T>, eps: Eps<T>, d_v: nat, a: AccView<T>)
    requires
        alg.exact(),
        a.proper(alg, eps, d_v),
    ensures
        alg.eq(alg.zero, alg.zero),
        a == AccView::fresh(alg, d_v) || !a.is_empty(alg),
        a.merge(alg, eps, AccView::fresh(alg, d_v)) == a,
        AccView::fresh(alg, d_v).merge(alg, eps, a) == a,
{
    exact_constants(alg);
    proper_emptiness(alg, eps, d_v, a);
    merge_identity(alg, eps, d_v, a);
}

/// Merging loaded accumulators yields a loaded one.
pub proof fn merge_loaded<T>(
    alg: Algebra<T>,
    eps: Eps<T>,
    d_v: nat,
    a: AccView<T>,
    b: AccView<T>,
)
    requires
        alg.exact(),
        alg.proper_eps(eps),
        a.loaded(alg, eps, d_v),
        b.loaded(alg, eps, d_v),
    ensures
        a.merge(alg, eps, b).loaded(alg, eps, d_v),
{
    proper_emptiness(alg, eps, d_v, a);
    proper_emptiness(alg, eps, d_v, b);
    exact_add(alg, a.z, b.z, b.z);
    exact_positive(alg, a.z, b.z);
    assert forall|c: int| 0 <= c < d_v implies alg.finite(#[trigger] alg.add(a.u[c], b.u[c])) by {
        exact_add(alg, a.u[c], b.u[c], b.u[c]);
    }
    if let Eps::Finite(e) = eps {
        let top = alg.max(a.mu, b.mu);
        exact_compare(alg, a.mu, b.mu);
        let p = alg.weight(e, a.mu, top);
        let q = alg.weight(e, b.mu, top);
        exact_weight(alg, e, a.mu, top, top);
        exact_weight(alg, e, b.mu, top, top);
        exact_mul(alg, a.z, p, p);
        exact_mul(alg, b.z, q, q);
        exact_positive(alg, a.z, p);
        exact_positive(alg, b.z, q);
        exact_positive(alg, alg.mul(a.z, p), alg.mul(b.z, q));
        exact_add(alg, alg.mul(a.z, p), alg.mul(b.z, q), q);
        assert forall|c: int| 0 <= c < d_v implies alg.finite(
            #[trigger] alg.rebase(a.u, p, b.u, q)[c],
        ) by {
            exact_mul(alg, a.u[c], p, p);
            exact_mul(alg, b.u[c], q, q);
            exact_add(alg, alg.mul(a.u[c], p), alg.mul(b.u[c], q), q);
        }
    }
}

impl<T> Algebra<T> {
    /// Two largest scores can change places in a merge: at zero temperature exactly one of
    /// them is greater unless they are one scalar, which equals itself; at a finite one their
    /// maximum does not depend on their order; at infinite temperature they are one scalar.
    pub open spec fn interchangeable(self, eps: Eps<T>, x: T, y: T) -> bool {
        match eps {
            Eps::Zero => if x == y {
                self.eq(x, x) && !self.gt(x, x)
            } else {
                self.gt(x, y) != self.gt(y, x) && !self.eq(x, y) && !self.eq(y, x)
            },
            Eps::Finite(_) => self.max(x, y) == self.max(y, x),
            Eps::Inf => x == y,
        }
    }
}

/// Merging is commutative. This asks of the arithmetic only that addition commutes and that
/// the two largest scores can change places; it needs no exactness.
pub proof fn merge_commutative<T>(
    alg: Algebra<T>,
    eps: Eps<T>,
    a: AccView<T>,
    b: AccView<T>,
)
    requires
        alg.addition_commutes(),
        a.u.len() == b.u.len(),
        a.is_empty(alg) && b.is_empty(alg) ==> a == b,
        !a.is_empty(alg) && !b.is_empty(alg) ==> alg.interchangeable(eps, a.mu, b.mu),
    ensures
        a.merge(alg, eps, b) == b.merge(alg, eps, a),
{
    if !a.is_empty(alg) && !b.is_empty(alg) {
        assert(alg.vadd(a.u, b.u) =~= alg.vadd(b.u, a.u));
        if let Eps::Finite(e) = eps {
            let top = alg.max(a.mu, b.mu);
            let p = alg.weight(e, a.mu, top);
            let q = alg.weight(e, b.mu, top);
            assert(alg.rebase(a.u, p, b.u, q) =~= alg.rebase(b.u, q, a.u, p));
        }
    }
}

/// Merging what exact folds hold is commutative.
pub proof fn proper_commutative<T>(
    alg: Algebra<T>,
    eps: Eps<T>,
    d_v: nat,
    a: AccView<T>,
    b: AccView<T>,
)
    requires
        alg.exact(),
        alg.proper_eps(eps),
        a.proper(alg, eps, d_v),
        b.proper(alg, eps, d_v),
    ensures
        a.merge(alg, eps, b) == b.merge(alg, eps, a),
{
    proper_emptiness(alg, eps, d_v, a);
    proper_emptiness(alg, eps, d_v, b);
    assert(alg.addition_commutes()) by {
        reveal(Algebra::exact);
    }
    if !a.is_empty(alg) && !b.is_empty(alg) && !(eps is Inf) {
        exact_compare(alg, a.mu, b.mu);
        exact_compare(alg, b.mu, a.mu);
    }
    merge_commutative(alg, eps, a, b);
}

/// `max` on finite scores is associative.
pub proof fn exact_max_associative<T>(alg: Algebra<T>, a: T, b: T, c: T)
    requires
        alg.exact(),
        alg.finite(a),
        alg.finite(b),
        alg.finite(c),
    ensures
        alg.max(alg.max(a, b), c) == alg.max(a, alg.max(b, c)),
{
    exact_compare(alg, a, b);
    exact_compare(alg, b, c);
    exact_compare(alg, a, c);
    exact_compare(alg, b, a);
    exact_compare(alg, c, b);
    exact_compare(alg, c, a);
    if alg.gt(a, b) && alg.gt(b, c) {
        exact_transitive(alg, a, b, c);
    }
    if alg.gt(c, b) && alg.gt(b, a) {
        exact_transitive(alg, c, b, a);
    }
}

/// Two rescalings of a weighted sum compose.
proof fn weighted_sum_rebased<T>(
    alg: Algebra<T>,
    e: T,
    x: T,
    s: T,
    y: T,
    t: T,
    base: T,
    top: T,
)
    requires
        alg.exact(),
        alg.proper_eps(Eps::Finite(e)),
        alg.finite(x),
        alg.finite(s),
        alg.finite(y),
        alg.finite(t),
        alg.finite(base),
        alg.finite(top),
    ensures
        alg.mul(
            alg.add(
                alg.mul(x, alg.weight(e, s, base)),
                alg.mul(y, alg.weight(e, t, base)),
            ),
            alg.weight(e, base, top),
        ) == alg.add(alg.mul(x, alg.weight(e, s, top)), alg.mul(y, alg.weight(e, t, top))),
{
    exact_weight(alg, e, s, base, top);
    exact_weight(alg, e, t, base, top);
    exact_weight(alg, e, base, top, top);
    exact_rescale(
        alg,
        x,
        alg.weight(e, s, base),
        y,
        alg.weight(e, t, base),
        alg.weight(e, base, top),
    );
}

/// One component of the associativity of merging at a finite temperature.
proof fn three_way_sum<T>(alg: Algebra<T>, e: T, x: T, s: T, y: T, t: T, w: T, r: T)
    requires
        alg.exact(),
        alg.proper_eps(Eps::Finite(e)),
        alg.finite(x),
        alg.finite(s),
        alg.finite(y),
        alg.finite(t),
        alg.finite(w),
        alg.finite(r),
    ensures
        ({
            let m = alg.max(s, t);
            let n = alg.max(t, r);
            let top = alg.max(m, r);
            let left = alg.add(alg.mul(x, alg.weight(e, s, m)), alg.mul(y, alg.weight(e, t, m)));
            let right = alg.add(alg.mul(y, alg.weight(e, t, n)), alg.mul(w, alg.weight(e, r, n)));
            alg.add(alg.mul(left, alg.weight(e, m, top)), alg.mul(w, alg.weight(e, r, top)))
                == alg.add(
                alg.mul(x, alg.weight(e, s, top)),
                alg.mul(right, alg.weight(e, n, top)),
            )
        }),
{
    let m = alg.max(s, t);
    let n = alg.max(t, r);
    let top = alg.max(m, r);
    exact_max_associative(alg, s, t, r);
    exact_compare(alg, s, t);
    exact_compare(alg, t, r);
    exact_compare(alg, m, r);
    weighted_sum_rebased(alg, e, x, s, y, t, m, top);
    weighted_sum_rebased(alg, e, y, t, w, r, n, top);
    exact_weight(alg, e, s, top, top);
    exact_weight(alg, e, t, top, top);
    exact_weight(alg, e, r, top, top);
    exact_mul(alg, x, alg.weight(e, s, top), x);
    exact_mul(alg, y, alg.weight(e, t, top), y);
    exact_mul(alg, w, alg.weight(e, r, top), w);
    exact_add(
        alg,
        alg.mul(x, alg.weight(e, s, top)),
        alg.mul(y, alg.weight(e, t, top)),
        alg.mul(w, alg.weight(e, r, top)),
    );
}

/// Merging is associative.
pub proof fn merge_associative<T>(
    alg: Algebra<T>,
    eps: Eps<T>,
    d_v: nat,
    a: AccView<T>,
    b: AccView<T>,
    c: AccView<T>,
)
    requires
        alg.exact(),
        alg.proper_eps(eps),
        a.proper(alg, eps, d_v),
        b.proper(alg, eps, d_v),
        c.proper(alg, eps, d_v),
    ensures
        a.merge(alg, eps, b).merge(alg, eps, c) == a.merge(alg, eps, b.merge(alg, eps, c)),
{
    let fresh = AccView::fresh(alg, d_v);
    if a == fresh {
        merge_proper(alg, eps, d_v, b, c);
        proper_identity(alg, eps, d_v, b);
        proper_identity(alg, eps, d_v, b.merge(alg, eps, c));
    } else if b == fresh {
        proper_identity(alg, eps, d_v, a);
        proper_identity(alg, eps, d_v, c);
    } else if c == fresh {
        merge_proper(alg, eps, d_v, a, b);
        proper_identity(alg, eps, d_v, b);
        proper_identity(alg, eps, d_v, a.merge(alg, eps, b));
    } else {
        merge_loaded(alg, eps, d_v, a, b);
        merge_loaded(alg, eps, d_v, b, c);
        let ab = a.merge(alg, eps, b);
        let bc = b.merge(alg, eps, c);
        proper_emptiness(alg, eps, d_v, a);
        proper_emptiness(alg, eps, d_v, b);
        proper_emptiness(alg, eps, d_v, c);
        proper_emptiness(alg, eps, d_v, ab);
        proper_emptiness(alg, eps, d_v, bc);
        exact_add(alg, a.z, b.z, c.z);
        assert(alg.vadd(alg.vadd(a.u, b.u), c.u) =~= alg.vadd(a.u, alg.vadd(b.u, c.u))) by {
            assert forall|i: int| 0 <= i < d_v implies #[trigger] alg.vadd(
                alg.vadd(a.u, b.u),
                c.u,
            )[i] == alg.vadd(a.u, alg.vadd(b.u, c.u))[i] by {
                exact_add(alg, a.u[i], b.u[i], c.u[i]);
            }
        }
        let left = ab.merge(alg, eps, c);
        let right = a.merge(alg, eps, bc);
        match eps {
            Eps::Inf => {},
            Eps::Zero => {
                exact_compare(alg, b.mu, a.mu);
                exact_compare(alg, c.mu, b.mu);
                exact_compare(alg, c.mu, a.mu);
                exact_compare(alg, a.mu, b.mu);
                exact_compare(alg, b.mu, c.mu);
                exact_compare(alg, a.mu, c.mu);
                if alg.gt(a.mu, b.mu) && alg.gt(b.mu, c.mu) {
                    exact_transitive(alg, a.mu, b.mu, c.mu);
                }
                if alg.gt(c.mu, b.mu) && alg.gt(b.mu, a.mu) {
                    exact_transitive(alg, c.mu, b.mu, a.mu);
                }
            },
            Eps::Finite(e) => {
                exact_max_associative(alg, a.mu, b.mu, c.mu);
                three_way_sum(alg, e, a.z, a.mu, b.z, b.mu, c.z, c.mu);
                assert(left.z == right.z);
                assert(left.u =~= right.u) by {
                    assert forall|i: int| 0 <= i < d_v implies #[trigger] left.u[i]
                        == right.u[i] by {
                        three_way_sum(alg, e, a.u[i], a.mu, b.u[i], b.mu, c.u[i], c.mu);
                    }
                }
            },
        }
        assert(left =~= right);
    }
}

/// Merging proper accumulators yields a proper one.
pub proof fn merge_proper<T>(
    alg: Algebra<T>,
    eps: Eps<T>,
    d_v: nat,
    a: AccView<T>,
    b: AccView<T>,
)
    requires
        alg.exact(),
        alg.proper_eps(eps),
        a.proper(alg, eps, d_v),
        b.proper(alg, eps, d_v),
    ensures
        a.merge(alg, eps, b).proper(alg, eps, d_v),
{
    let fresh = AccView::fresh(alg, d_v);
    if a == fresh {
        proper_identity(alg, eps, d_v, b);
    } else if b == fresh {
        proper_identity(alg, eps, d_v, a);
    } else {
        merge_loaded(alg, eps, d_v, a, b);
    }
}

/// The accumulator of a single record.
pub open spec fn single<T>(alg: Algebra<T>, eps: Eps<T>, s: T, v: Seq<T>) -> AccView<T> {
    AccView::fresh(alg, v.len()).absorb(alg, eps, s, v)
}

/// The accumulator of a single record is loaded.
pub proof fn single_loaded<T>(alg: Algebra<T>, eps: Eps<T>, s: T, v: Seq<T>)
    requires
        alg.exact(),
        alg.finite(s),
        alg.all_finite(v),
    ensures
        single(alg, eps, s, v).loaded(alg, eps, v.len()),
        single(alg, eps, s, v) == (AccView {
            mu: if eps is Inf {
                alg.neg_infinity
            } else {
                s
            },
            z: alg.one,
            u: v,
        }),
{
    exact_constants(alg);
    exact_add(alg, alg.one, alg.zero, alg.zero);
    exact_compare(alg, s, s);
    proper_emptiness(alg, eps, v.len(), AccView::fresh(alg, v.len()));
    assert(alg.vadd(alg.zeros(v.len()), v) =~= v) by {
        assert forall|c: int| 0 <= c < v.len() implies #[trigger] alg.vadd(
            alg.zeros(v.len()),
            v,
        )[c] == v[c] by {
            exact_add(alg, v[c], alg.zero, alg.zero);
        }
    }
}

/// Absorbing a record is merging with the accumulator of that record: the fold is a
/// homomorphism into the monoid of accumulators.
pub proof fn absorb_is_merge<T>(
    alg: Algebra<T>,
    eps: Eps<T>,
    a: AccView<T>,
    s: T,
    v: Seq<T>,
)
    requires
        alg.exact(),
        alg.proper_eps(eps),
        a.proper(alg, eps, v.len()),
        alg.finite(s),
        alg.all_finite(v),
    ensures
        a.absorb(alg, eps, s, v) == a.merge(alg, eps, single(alg, eps, s, v)),
{
    let d_v = v.len();
    let one = single(alg, eps, s, v);
    single_loaded(alg, eps, s, v);
    if a == AccView::fresh(alg, d_v) {
        proper_identity(alg, eps, d_v, one);
    } else {
        proper_emptiness(alg, eps, d_v, a);
        proper_emptiness(alg, eps, d_v, one);
        if let Eps::Finite(e) = eps {
            let top = alg.max(a.mu, s);
            exact_compare(alg, a.mu, s);
            let p = alg.weight(e, a.mu, top);
            let q = alg.weight(e, s, top);
            exact_weight(alg, e, a.mu, top, top);
            exact_weight(alg, e, s, top, top);
            exact_mul(alg, q, alg.one, alg.one);
            exact_constants(alg);
            exact_mul(alg, alg.one, q, q);
            assert(alg.blend(a.u, p, q, v) =~= alg.rebase(a.u, p, v, q)) by {
                assert forall|c: int| 0 <= c < d_v implies #[trigger] alg.blend(a.u, p, q, v)[c]
                    == alg.rebase(a.u, p, v, q)[c] by {
                    exact_mul(alg, q, v[c], q);
                }
            }
        }
    }
}

/// Absorbing a finite record yields a loaded accumulator.
pub proof fn absorb_loaded<T>(
    alg: Algebra<T>,
    eps: Eps<T>,
    a: AccView<T>,
    s: T,
    v: Seq<T>,
)
    requires
        alg.exact(),
        alg.proper_eps(eps),
        a.proper(alg, eps, v.len()),
        alg.finite(s),
        alg.all_finite(v),
    ensures
        a.absorb(alg, eps, s, v).loaded(alg, eps, v.len()),
{
    absorb_is_merge(alg, eps, a, s, v);
    single_loaded(alg, eps, s, v);
    if a == AccView::fresh(alg, v.len()) {
        proper_identity(alg, eps, v.len(), single(alg, eps, s, v));
    } else {
        merge_loaded(alg, eps, v.len(), a, single(alg, eps, s, v));
    }
}

/// Two records can be absorbed in either order.
pub proof fn absorb_commutes<T>(
    alg: Algebra<T>,
    eps: Eps<T>,
    a: AccView<T>,
    s: T,
    v: Seq<T>,
    t: T,
    w: Seq<T>,
)
    requires
        alg.exact(),
        alg.proper_eps(eps),
        a.proper(alg, eps, v.len()),
        v.len() == w.len(),
        alg.finite(s),
        alg.all_finite(v),
        alg.finite(t),
        alg.all_finite(w),
    ensures
        a.absorb(alg, eps, s, v).absorb(alg, eps, t, w) == a.absorb(alg, eps, t, w).absorb(
            alg,
            eps,
            s,
            v,
        ),
{
    let x = single(alg, eps, s, v);
    let y = single(alg, eps, t, w);
    absorb_loaded(alg, eps, a, s, v);
    absorb_loaded(alg, eps, a, t, w);
    absorb_is_merge(alg, eps, a, s, v);
    absorb_is_merge(alg, eps, a, t, w);
    absorb_is_merge(alg, eps, a.absorb(alg, eps, s, v), t, w);
    absorb_is_merge(alg, eps, a.absorb(alg, eps, t, w), s, v);
    single_loaded(alg, eps, s, v);
    single_loaded(alg, eps, t, w);
    merge_associative(alg, eps, v.len(), a, x, y);
    merge_associative(alg, eps, v.len(), a, y, x);
    proper_commutative(alg, eps, v.len(), x, y);
}

} // verus!
