//! Unsigned 64-bit integers as scalars, with arithmetic modulo `2^64`.
//!
//! A polynomial over `u64` is evaluated in the ring of integers modulo
//! `2^64`: sums and products wrap around and never fail. Where the value of
//! the polynomial over the integers fits in a `u64`, that is what comes
//! out, whatever the intermediate results did.
//!
//! The multiply-add is that of `num_traits` in twice the width, where it
//! is exact, reduced once.
use crate::algebra::Semiring;
use crate::evaluate::poly_value;
use crate::exact::{horner, lemma_poly_is_horner};
use crate::scalar::PolyNum;
use vstd::arithmetic::div_mod::{
    lemma_add_mod_noop, lemma_add_mod_noop_right, lemma_mul_mod_noop_left,
    lemma_mul_mod_noop_right, lemma_small_mod,
};
use vstd::arithmetic::mul::{lemma_mul_is_associative, lemma_mul_is_distributive_add};
use vstd::prelude::*;

verus! {

/// `2^64`.
pub const MODULUS: u128 = 0x1_0000_0000_0000_0000;

/// The residue of `v` modulo `2^64`.
pub open spec fn wrap(v: int) -> u64 {
    (v % (MODULUS as int)) as u64
}

/// `num_traits::Zero::zero` for `u64`, which returns the constant 0.
#[verifier::external_body]
fn zero_u64() -> (r: u64)
    ensures
        r == 0,
{
    num_traits::Zero::zero()
}

/// `num_traits::MulAdd::mul_add` for `u128`, which computes `(x * a) + b`
/// with the operators of `u128`. Where the result does not fit, these panic
/// or wrap, as the crate was built; the contract admits only arguments for
/// which it fits, and for them states the result.
#[verifier::external_body]
fn mul_add_u128(x: u128, a: u128, b: u128) -> (r: u128)
    requires
        x * a + b <= u128::MAX,
    ensures
        r == x * a + b,
{
    num_traits::MulAdd::mul_add(x, a, b)
}

impl PolyNum for u64 {
    open spec fn zero_value() -> u64 {
        0
    }

    open spec fn sum(self, rhs: u64) -> u64 {
        wrap(self + rhs)
    }

    open spec fn product(self, rhs: u64) -> u64 {
        wrap(self * rhs)
    }

    /// The multiply-add is fused: it reduces once, after the sum.
    open spec fn fused(self, a: u64, b: u64) -> u64 {
        wrap(self * a + b)
    }

    fn zero() -> (r: u64) {
        zero_u64()
    }

    fn add(self, rhs: u64) -> (r: u64) {
        self.wrapping_add(rhs)
    }

    fn mul(self, rhs: u64) -> (r: u64) {
        self.wrapping_mul(rhs)
    }

    fn mul_add(self, a: u64, b: u64) -> (r: u64) {
        // in twice the width neither the product nor the sum can overflow
        assert(self * a + b <= u128::MAX) by (nonlinear_arith)
            requires
                self <= u64::MAX,
                a <= u64::MAX,
                b <= u64::MAX,
        ;
        let wide = mul_add_u128(self as u128, a as u128, b as u128);
        (wide % MODULUS) as u64
    }
}

/// The integers modulo `2^64` are a commutative ring.
impl Semiring for u64 {
    proof fn sum_commutes(a: u64, b: u64) {
    }

    proof fn sum_associates(a: u64, b: u64, c: u64) {
        lemma_add_mod_noop_right(c as int, a + b, MODULUS as int);
        lemma_add_mod_noop_right(a as int, b + c, MODULUS as int);
    }

    proof fn sum_zero(a: u64) {
        lemma_small_mod(a as nat, MODULUS as nat);
    }

    proof fn product_commutes(a: u64, b: u64) {
        assert(a * b == b * a) by (nonlinear_arith);
    }

    proof fn product_associates(a: u64, b: u64, c: u64) {
        lemma_mul_mod_noop_left(a * b, c as int, MODULUS as int);
        lemma_mul_mod_noop_right(a as int, b * c, MODULUS as int);
        lemma_mul_is_associative(a as int, b as int, c as int);
    }

    proof fn product_zero(a: u64) {
        assert(a * 0 == 0) by (nonlinear_arith);
    }

    proof fn product_distributes(a: u64, b: u64, c: u64) {
        lemma_mul_mod_noop_right(a as int, b + c, MODULUS as int);
        lemma_add_mod_noop(a * b, a * c, MODULUS as int);
        lemma_mul_is_distributive_add(a as int, b as int, c as int);
    }

    proof fn fused_unfolds(a: u64, b: u64, c: u64) {
        lemma_add_mod_noop_right(c as int, a * b, MODULUS as int);
    }
}

/// The value over the integers of the polynomial with the coefficients `c`
/// at `x`, by Horner's rule.
pub open spec fn integer_value(x: int, c: Seq<u64>) -> int
    decreases c.len(),
{
    if c.len() == 0 {
        0
    } else {
        integer_value(x, c.skip(1)) * x + c[0]
    }
}

/// Horner's rule modulo `2^64` gives the residue of the value over the
/// integers.
pub proof fn lemma_horner_wraps(x: u64, c: Seq<u64>)
    ensures
        horner(x, c) == wrap(integer_value(x as int, c)),
    decreases c.len(),
{
    if c.len() > 0 {
        let rest = integer_value(x as int, c.skip(1));
        lemma_horner_wraps(x, c.skip(1));
        lemma_mul_mod_noop_left(rest, x as int, MODULUS as int);
        lemma_add_mod_noop_right(c[0] as int, wrap(rest) * x, MODULUS as int);
        lemma_add_mod_noop_right(c[0] as int, rest * x, MODULUS as int);
    }
}

/// Over `u64` the evaluators return the value of the polynomial over the
/// integers, reduced modulo `2^64`: where that value fits in a `u64`, they
/// return it, whatever the intermediate results did.
pub proof fn lemma_poly_wraps(x: u64, c: Seq<u64>)
    ensures
        poly_value(x, c) == wrap(integer_value(x as int, c)),
        0 <= integer_value(x as int, c) <= u64::MAX ==> poly_value(x, c) == integer_value(
            x as int,
            c,
        ),
{
    lemma_poly_is_horner(x, c);
    lemma_horner_wraps(x, c);
    if 0 <= integer_value(x as int, c) <= u64::MAX {
        lemma_small_mod(integer_value(x as int, c) as nat, MODULUS as nat);
    }
}

} // verus!
