//! Polynomials and rational polynomials, evaluated for speed and accuracy.
//!
//! Horner's rule needs the fewest operations, but each of them waits for the
//! one before. The evaluators here restructure the polynomial in Estrin's
//! scheme, whose operations are largely independent, and so keep the
//! pipelines of a modern processor busy. For long polynomials they combine
//! the two: blocks of sixteen coefficients in Estrin's scheme, chained by
//! Horner's rule.
//!
//! - [`scalar`] states what a number must offer to be evaluated.
//! - [`polynomials`] holds the fixed-degree polynomials, for direct use.
//! - [`evaluate`] evaluates a polynomial of any length; [`poly`] is its
//!   plainest entry.
//! - [`rational`] evaluates a quotient of two polynomials; [`rational()`] is
//!   its plainest entry.
//! - [`algebra`], [`exact`] and [`exact_quotient`] prove that, where the
//!   arithmetic is exact, what is computed is the polynomial, or the
//!   quotient of the two.
//! - [`modular`] makes `u64` a scalar, [`many_xs`] an array of scalars.
//!
//! Every evaluator is specified by the operations it performs, not by the
//! polynomial alone: over numbers that round, the contract says to the bit
//! what is returned.
#![allow(unused_imports)]

pub mod algebra;
pub mod evaluate;
pub mod exact;
pub mod exact_quotient;
pub mod many_xs;
pub mod modular;
pub mod polynomials;
pub mod rational;
pub mod scalar;

pub use crate::evaluate::{poly, poly_array, poly_array_t, poly_f, poly_f_n};
pub use crate::rational::{rational, rational_array, rational_array_t, rational_f, rational_f_n};
pub use crate::scalar::{PolyNum, PolyRational};
