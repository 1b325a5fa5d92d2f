//! The numbers a polynomial can be evaluated over.
//!
//! A scalar type states what each of its operations computes as a spec
//! function of the operands, and offers the operation itself as an
//! executable method that returns exactly that value. The evaluators are
//! written against these traits alone, so their contracts hold for every
//! scalar, whether its multiply-add is fused, emulated or modular.
use vstd::prelude::*;

verus! {

/// What a number needs in order to be evaluated in a polynomial: an
/// additive identity, addition, multiplication and a multiply-add.
///
/// Every operation is total. Whether `mul_add` rounds once or twice is the
/// implementor's choice; `fused` says which.
///
/// An implementation that is not verified gives `zero_value`, `sum`,
/// `product` and `fused` the bodies of `zero`, `add`, `mul` and `mul_add`:
/// the contracts then hold of it as far as its operations are functions of
/// their operands.
pub trait PolyNum: Sized + Copy {
    /// The additive identity.
    spec fn zero_value() -> Self;

    /// The value of `self + rhs`.
    spec fn sum(self, rhs: Self) -> Self;

    /// The value of `self * rhs`.
    spec fn product(self, rhs: Self) -> Self;

    /// The value of the multiply-add `self * a + b`.
    spec fn fused(self, a: Self, b: Self) -> Self;

    /// Returns the additive identity.
    fn zero() -> (r: Self)
        ensures
            r == Self::zero_value(),
    ;

    /// Returns `self + rhs`.
    fn add(self, rhs: Self) -> (r: Self)
        ensures
            r == self.sum(rhs),
    ;

    /// Returns `self * rhs`.
    fn mul(self, rhs: Self) -> (r: Self)
        ensures
            r == self.product(rhs),
    ;

    /// Returns `self * a + b`, fused where the type can.
    fn mul_add(self, a: Self, b: Self) -> (r: Self)
        ensures
            r == self.fused(a, b),
    ;
}

/// What a number needs in addition in order to be evaluated in a rational
/// polynomial: a multiplicative identity, division and a strict order.
///
/// The identity and the order serve one purpose: to decide whether the
/// input's magnitude exceeds one, in which case the evaluator works with the
/// reciprocal of the input. Division is total: what a division by zero
/// yields is the implementor's choice, and `quotient` says what.
///
/// An implementation that is not verified gives `one_value`, `quotient` and
/// `exceeds` the bodies of `one`, `div` and `gt`.
pub trait PolyRational: PolyNum {
    /// The multiplicative identity.
    spec fn one_value() -> Self;

    /// The value of `self / rhs`.
    spec fn quotient(self, rhs: Self) -> Self;

    /// Whether `self > rhs`.
    spec fn exceeds(self, rhs: Self) -> bool;

    /// Returns the multiplicative identity.
    fn one() -> (r: Self)
        ensures
            r == Self::one_value(),
    ;

    /// Returns `self / rhs`.
    fn div(self, rhs: Self) -> (r: Self)
        ensures
            r == self.quotient(rhs),
    ;

    /// Tells whether `self > rhs`.
    fn gt(self, rhs: Self) -> (b: bool)
        ensures
            b == self.exceeds(rhs),
    ;
}

} // verus!
