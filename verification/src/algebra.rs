//! Scalars whose arithmetic is exact.
//!
//! The evaluators work for every scalar, and over numbers that round they
//! return what their operations round to. That the operations they choose
//! amount to the polynomial is a statement about exact arithmetic: it holds
//! where sums and products obey the laws of a commutative semiring, and for
//! the rational evaluator where division obeys those of a field.
use crate::scalar::{PolyNum, PolyRational};
use vstd::prelude::*;

verus! {

/// A scalar whose sums and products form a commutative semiring, and whose
/// multiply-add is the product followed by the sum.
pub trait Semiring: PolyNum {
    proof fn sum_commutes(a: Self, b: Self)
        ensures
            a.sum(b) == b.sum(a),
    ;

    proof fn sum_associates(a: Self, b: Self, c: Self)
        ensures
            a.sum(b).sum(c) == a.sum(b.sum(c)),
    ;

    proof fn sum_zero(a: Self)
        ensures
            a.sum(Self::zero_value()) == a,
    ;

    proof fn product_commutes(a: Self, b: Self)
        ensures
            a.product(b) == b.product(a),
    ;

    proof fn product_associates(a: Self, b: Self, c: Self)
        ensures
            a.product(b).product(c) == a.product(b.product(c)),
    ;

    proof fn product_zero(a: Self)
        ensures
            a.product(Self::zero_value()) == Self::zero_value(),
    ;

    proof fn product_distributes(a: Self, b: Self, c: Self)
        ensures
            a.product(b.sum(c)) == a.product(b).sum(a.product(c)),
    ;

    proof fn fused_unfolds(a: Self, b: Self, c: Self)
        ensures
            a.fused(b, c) == a.product(b).sum(c),
    ;
}

/// The laws of a field, for a semiring that divides: one is the identity
/// of the product, every number but zero has a reciprocal, and a quotient is
/// the product with the divisor's reciprocal. Of the order a single law is
/// asked: zero does not exceed one.
///
/// No scalar of this library divides exactly, so these laws are a
/// hypothesis of what is proved from them, not a trait to implement.
#[verifier::opaque]
pub open spec fn field_laws<F: Semiring + PolyRational>() -> bool {
    &&& forall|a: F| #[trigger] a.product(F::one_value()) == a
    &&& forall|a: F|
        a != F::zero_value() ==> a.product(#[trigger] F::one_value().quotient(a))
            == F::one_value()
    &&& forall|a: F, b: F|
        b != F::zero_value() ==> #[trigger] a.quotient(b) == a.product(F::one_value().quotient(b))
    &&& !F::zero_value().exceeds(F::one_value())
}

/// `a * 1 = a`.
pub proof fn lemma_product_one<F: Semiring + PolyRational>(a: F)
    requires
        field_laws::<F>(),
    ensures
        a.product(F::one_value()) == a,
{
    reveal(field_laws);
}

/// `a * (1 / a) = 1` for every `a` but zero.
pub proof fn lemma_reciprocal<F: Semiring + PolyRational>(a: F)
    requires
        field_laws::<F>(),
        a != F::zero_value(),
    ensures
        a.product(F::one_value().quotient(a)) == F::one_value(),
{
    reveal(field_laws);
}

/// `a / b = a * (1 / b)` for every `b` but zero.
pub proof fn lemma_quotient_unfolds<F: Semiring + PolyRational>(a: F, b: F)
    requires
        field_laws::<F>(),
        b != F::zero_value(),
    ensures
        a.quotient(b) == a.product(F::one_value().quotient(b)),
{
    reveal(field_laws);
}

/// Zero does not exceed one.
pub proof fn lemma_zero_below_one<F: Semiring + PolyRational>()
    requires
        field_laws::<F>(),
    ensures
        !F::zero_value().exceeds(F::one_value()),
{
    reveal(field_laws);
}

/// `0 + a = a`.
pub proof fn lemma_zero_sum<F: Semiring>(a: F)
    ensures
        F::zero_value().sum(a) == a,
{
    F::sum_commutes(F::zero_value(), a);
    F::sum_zero(a);
}

/// `0 * a = 0`.
pub proof fn lemma_zero_product<F: Semiring>(a: F)
    ensures
        F::zero_value().product(a) == F::zero_value(),
{
    F::product_commutes(F::zero_value(), a);
    F::product_zero(a);
}

/// `(a + b) * c = a * c + b * c`.
pub proof fn lemma_sum_distributes<F: Semiring>(a: F, b: F, c: F)
    ensures
        a.sum(b).product(c) == a.product(c).sum(b.product(c)),
{
    F::product_commutes(a.sum(b), c);
    F::product_distributes(c, a, b);
    F::product_commutes(c, a);
    F::product_commutes(c, b);
}

/// `(a * b) * c = (a * c) * b`.
pub proof fn lemma_product_swaps<F: Semiring>(a: F, b: F, c: F)
    ensures
        a.product(b).product(c) == a.product(c).product(b),
{
    F::product_associates(a, b, c);
    F::product_commutes(b, c);
    F::product_associates(a, c, b);
}

/// `(a * b) * (c * d) = (a * c) * (b * d)`.
pub proof fn lemma_product_interchanges<F: Semiring>(a: F, b: F, c: F, d: F)
    ensures
        a.product(b).product(c.product(d)) == a.product(c).product(b.product(d)),
{
    F::product_associates(a, b, c.product(d));
    F::product_associates(b, c, d);
    F::product_commutes(b, c);
    F::product_associates(c, b, d);
    F::product_associates(a, c, b.product(d));
}

/// `1 * a = a`.
pub proof fn lemma_one_product<F: Semiring + PolyRational>(a: F)
    requires
        field_laws::<F>(),
    ensures
        F::one_value().product(a) == a,
{
    F::product_commutes(F::one_value(), a);
    lemma_product_one(a);
}

/// The reciprocal is the only inverse: if `a * b = 1`, then `1 / a = b`.
pub proof fn lemma_reciprocal_is_unique<F: Semiring + PolyRational>(a: F, b: F)
    requires
        field_laws::<F>(),
        a.product(b) == F::one_value(),
        a != F::zero_value(),
    ensures
        F::one_value().quotient(a) == b,
{
    let inv = F::one_value().quotient(a);
    lemma_reciprocal(a);
    lemma_product_one(inv);
    F::product_associates(inv, a, b);
    F::product_commutes(inv, a);
    lemma_one_product(b);
}

} // verus!
