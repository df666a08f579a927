//! An exact arithmetic: the laws that ask for one are not about nothing.
use crate::arith::{Algebra, Term, Test};
use vstd::prelude::*;

verus! {

/// The real numbers with two infinities.
pub ghost enum Extended {
    NegInfinity,
    Real(real),
    Infinity,
}

/// Exact arithmetic on the extended reals. The exponential of every finite scalar is one, which
/// is the solution of the functional equation that needs no limits.
pub open spec fn extended_reals() -> Algebra<Extended> {
    Algebra {
        zero: Extended::Real(0real),
        one: Extended::Real(1real),
        neg_half: Extended::Real(0real - 1real / 2real),
        infinity: Extended::Infinity,
        neg_infinity: Extended::NegInfinity,
        term: |t: Term<Extended>|
            match t {
                Term::Add(Extended::Real(a), Extended::Real(b)) => Extended::Real(a + b),
                Term::Sub(Extended::Real(a), Extended::Real(b)) => Extended::Real(a - b),
                Term::Mul(Extended::Real(a), Extended::Real(b)) => Extended::Real(a * b),
                Term::Div(Extended::Real(a), Extended::Real(b)) => Extended::Real(a / b),
                Term::Div(Extended::Real(a), Extended::Infinity) => Extended::Real(0real),
                Term::Max(Extended::Real(a), Extended::Real(b)) => Extended::Real(
                    if a > b {
                        a
                    } else {
                        b
                    },
                ),
                Term::Exp(Extended::NegInfinity) => Extended::Real(0real),
                Term::Exp(_) => Extended::Real(1real),
                Term::Count(n) => Extended::Real(n as real),
                _ => Extended::NegInfinity,
            },
        test: |t: Test<Extended>|
            match t {
                Test::Greater(Extended::Real(a), Extended::Real(b)) => a > b,
                Test::Greater(Extended::Real(a), Extended::NegInfinity) => true,
                Test::Greater(_, _) => false,
                Test::Equal(a, b) => a == b,
                Test::Finite(a) => a is Real,
            },
        inner: |x: Seq<Extended>, y: Seq<Extended>| Extended::Real(0real),
    }
}

proof fn product_facts(a: real, b: real, c: real)
    by (nonlinear_arith)
    ensures
        a * b == b * a,
        (a * b) * c == a * (b * c),
        (a + b) * c == a * c + b * c,
        a * 1real == a,
        0real * a == 0real,
        a > 0real && b > 0real ==> a * b > 0real,
{
}

proof fn quotient_facts(a: real, b: real, e: real)
    by (nonlinear_arith)
    requires
        e > 0real,
    ensures
        (a + b) / e == a / e + b / e,
        0real / e == 0real,
        b > 0real ==> (a * e) / (b * e) == a / b,
        (a * e) / e == a,
        a > b ==> a / e > b / e,
{
}

/// Multiplication and division of the extended reals are exact.
proof fn exact_products()
    ensures
        extended_reals().exact_product(),
{
    let alg = extended_reals();
    assert forall|a: Extended, b: Extended|
        alg.finite(a) && alg.finite(b) implies #[trigger] alg.mul(a, b) == alg.mul(b, a) by {
        product_facts(a->Real_0, b->Real_0, 0real);
    }
    assert forall|a: Extended, b: Extended, c: Extended|
        alg.finite(a) && alg.finite(b) && alg.finite(c) implies #[trigger] alg.mul(
        alg.mul(a, b),
        c,
    ) == alg.mul(a, alg.mul(b, c)) by {
        product_facts(a->Real_0, b->Real_0, c->Real_0);
    }
    assert forall|a: Extended| alg.finite(a) implies #[trigger] alg.mul(a, alg.one) == a by {
        product_facts(a->Real_0, 0real, 0real);
    }
    assert forall|a: Extended| alg.finite(a) implies #[trigger] alg.mul(alg.zero, a)
        == alg.zero by {
        product_facts(a->Real_0, 0real, 0real);
    }
    assert forall|a: Extended, b: Extended, c: Extended|
        alg.finite(a) && alg.finite(b) && alg.finite(c) implies #[trigger] alg.mul(
        alg.add(a, b),
        c,
    ) == alg.add(alg.mul(a, c), alg.mul(b, c)) by {
        product_facts(a->Real_0, b->Real_0, c->Real_0);
    }
    assert forall|a: Extended, b: Extended, e: Extended|
        alg.finite(a) && alg.finite(b) && alg.finite(e) && alg.gt(e, alg.zero) implies #[trigger] alg.div(
        alg.add(a, b),
        e,
    ) == alg.add(alg.div(a, e), alg.div(b, e)) by {
        quotient_facts(a->Real_0, b->Real_0, e->Real_0);
    }
    assert forall|e: Extended| alg.finite(e) && alg.gt(e, alg.zero) implies #[trigger] alg.div(
        alg.zero,
        e,
    ) == alg.zero by {
        quotient_facts(0real, 0real, e->Real_0);
    }
    assert forall|a: Extended, b: Extended, e: Extended|
        alg.finite(a) && alg.finite(b) && alg.finite(e) && alg.gt(b, alg.zero) && alg.gt(
            e,
            alg.zero,
        ) implies #[trigger] alg.div(alg.mul(a, e), alg.mul(b, e)) == alg.div(a, b) by {
        quotient_facts(a->Real_0, b->Real_0, e->Real_0);
    }
    assert forall|a: Extended, e: Extended|
        alg.finite(a) && alg.finite(e) && alg.gt(e, alg.zero) implies #[trigger] alg.div(
        alg.mul(a, e),
        e,
    ) == a by {
        quotient_facts(a->Real_0, 0real, e->Real_0);
    }
    assert forall|a: Extended, b: Extended, e: Extended|
        alg.finite(a) && alg.finite(b) && alg.finite(e) && alg.gt(e, alg.zero) && alg.gt(
            a,
            b,
        ) implies alg.gt(#[trigger] alg.div(a, e), #[trigger] alg.div(b, e)) by {
        quotient_facts(a->Real_0, b->Real_0, e->Real_0);
    }
}

/// There is an exact arithmetic.
pub proof fn extended_reals_are_exact()
    ensures
        extended_reals().exact(),
        extended_reals().exact_below(),
{
    let alg = extended_reals();
    exact_products();
    assert(alg.exact_exponential()) by {
        product_facts(1real, 0real, 0real);
        assert forall|a: Extended, b: Extended|
            alg.finite(a) && alg.finite(b) && alg.gt(a, alg.zero) && alg.gt(
                b,
                alg.zero,
            ) implies alg.gt(#[trigger] alg.mul(a, b), alg.zero) by {
            product_facts(a->Real_0, b->Real_0, 0real);
        }
    }
    reveal(Algebra::exact);
}

} // verus!
