//! What the rational evaluator computes where the arithmetic is exact.
//!
//! Over a field the reciprocal substitution changes nothing: whether the
//! evaluator works with `x` or with `1 / x`, and whatever the two lengths
//! are, it returns the quotient of the two polynomials' values at `x`,
//! provided the denominator's value is not zero.
use crate::algebra::{
    field_laws, lemma_one_product, lemma_product_interchanges, lemma_product_one,
    lemma_quotient_unfolds, lemma_reciprocal, lemma_reciprocal_is_unique, lemma_zero_below_one,
    lemma_zero_product, Semiring,
};
use crate::exact::{horner, lemma_horner_of_one, lemma_horner_splits, lemma_poly_is_horner, power};
use crate::rational::{inverts, rational_value, times_power};
use crate::scalar::PolyRational;
use vstd::prelude::*;

verus! {

/// `x^e`, with `x^0 = 1`.
pub open spec fn full_power<F: PolyRational>(x: F, e: nat) -> F
    decreases e,
{
    if e == 0 {
        F::one_value()
    } else {
        full_power(x, (e - 1) as nat).product(x)
    }
}

/// From the first power on, `full_power` is `power`.
pub proof fn lemma_full_power_is_power<F: Semiring + PolyRational>(x: F, e: nat)
    requires
        field_laws::<F>(),
        e >= 1,
    ensures
        full_power(x, e) == power(x, e),
    decreases e,
{
    if e == 1 {
        assert(full_power(x, 0) == F::one_value());
        lemma_one_product(x);
    } else {
        lemma_full_power_is_power(x, (e - 1) as nat);
    }
}

/// `x^(a + b) = x^a * x^b`.
pub proof fn lemma_full_power_adds<F: Semiring + PolyRational>(x: F, a: nat, b: nat)
    requires
        field_laws::<F>(),
    ensures
        full_power(x, a + b) == full_power(x, a).product(full_power(x, b)),
    decreases b,
{
    if b == 0 {
        lemma_product_one(full_power(x, a));
    } else {
        lemma_full_power_adds(x, a, (b - 1) as nat);
        F::product_associates(full_power(x, a), full_power(x, (b - 1) as nat), x);
    }
}

/// `(u * u)^k = u^(2k)`.
pub proof fn lemma_full_power_of_square<F: Semiring + PolyRational>(u: F, k: nat)
    requires
        field_laws::<F>(),
    ensures
        full_power(u.product(u), k) == full_power(u, 2 * k),
    decreases k,
{
    if k > 0 {
        lemma_full_power_of_square(u, (k - 1) as nat);
        let below = full_power(u, (2 * k - 2) as nat);
        assert(full_power(u, (2 * k - 1) as nat) == below.product(u));
        assert(full_power(u, 2 * k) == below.product(u).product(u));
        F::product_associates(below, u, u);
    }
}

/// Exponentiation by squaring multiplies by the power: the correction of
/// the rational evaluator is `r * u^e`.
pub proof fn lemma_times_power<F: Semiring + PolyRational>(r: F, u: F, e: nat)
    requires
        field_laws::<F>(),
    ensures
        times_power(r, u, e) == r.product(full_power(u, e)),
    decreases e,
{
    let half = e / 2;
    if e == 0 {
        lemma_product_one(r);
    } else if half == 0 {
        assert(full_power(u, 0) == F::one_value());
        assert(full_power(u, 1) == F::one_value().product(u));
        lemma_one_product(u);
    } else {
        let scaled = if e % 2 == 1 {
            r.product(u)
        } else {
            r
        };
        lemma_times_power(scaled, u.product(u), half);
        lemma_full_power_of_square(u, half);
        let even = full_power(u, 2 * half);
        if e % 2 == 1 {
            assert(full_power(u, e) == even.product(u));
            F::product_associates(r, u, even);
            F::product_commutes(u, even);
        }
    }
}

/// Where `x * z = 1`, equal powers of the two cancel.
pub proof fn lemma_powers_cancel<F: Semiring + PolyRational>(x: F, z: F, k: nat)
    requires
        field_laws::<F>(),
        x.product(z) == F::one_value(),
    ensures
        full_power(x, k).product(full_power(z, k)) == F::one_value(),
    decreases k,
{
    if k == 0 {
        lemma_product_one(F::one_value());
    } else {
        let below = (k - 1) as nat;
        lemma_powers_cancel(x, z, below);
        lemma_product_interchanges(full_power(x, below), x, full_power(z, below), z);
        lemma_product_one(F::one_value());
    }
}

/// The polynomial with the coefficients in reverse order, taken at the
/// reciprocal, is the polynomial divided by its highest power:
/// `c(x) = x^(n-1) * reversed(1/x)`.
pub proof fn lemma_mirror<F: Semiring + PolyRational>(x: F, z: F, c: Seq<F>)
    requires
        field_laws::<F>(),
        x.product(z) == F::one_value(),
        c.len() >= 1,
    ensures
        horner(x, c) == full_power(x, (c.len() - 1) as nat).product(horner(z, c.reverse())),
    decreases c.len(),
{
    let n = c.len() as int;
    let back = c.reverse();
    if n == 1 {
        assert(back =~= c);
        lemma_horner_of_one(x, c);
        lemma_horner_of_one(z, c);
        lemma_one_product(c[0]);
    } else {
        let front = c.take(n - 1);
        let last = c[n - 1];
        let top = full_power(x, (n - 1) as nat);
        let below = full_power(x, (n - 2) as nat);
        let mirrored = horner(z, front.reverse());
        assert(back.skip(1) =~= front.reverse());
        assert(back[0] == last);
        lemma_mirror(x, z, front);
        // the polynomial, split below its highest coefficient
        lemma_horner_splits(x, c, n - 1);
        lemma_horner_of_one(x, c.skip(n - 1));
        lemma_full_power_is_power(x, (n - 1) as nat);
        // the mirrored polynomial, split above its lowest
        F::product_distributes(top, mirrored.product(z), last);
        lemma_product_interchanges(below, x, mirrored, z);
        lemma_product_one(below.product(mirrored));
        F::sum_commutes(top.product(last), horner(x, front));
    }
}

/// Over a field the rational evaluator computes the quotient of the two
/// polynomials: for every `x` at which the denominator's value is not zero,
/// and for numerators and denominators of any lengths, equal or not, what it
/// returns is the numerator's value divided by the denominator's, whether
/// it has worked with `x` or with its reciprocal.
pub proof fn lemma_rational_is_quotient<F: Semiring + PolyRational>(x: F, num: Seq<F>, den: Seq<F>)
    requires
        field_laws::<F>(),
        horner(x, den) != F::zero_value(),
    ensures
        rational_value(x, num, den) == horner(x, num).quotient(horner(x, den)),
{
    let zero = F::zero_value();
    let one = F::one_value();
    let p = num.len();
    let q = den.len();
    let above = horner(x, num);
    let below = horner(x, den);
    lemma_poly_is_horner(x, num);
    lemma_poly_is_horner(x, den);
    if inverts(x, p, q) {
        // x is not zero: its square exceeds one
        if x == zero {
            F::product_zero(x);
            lemma_zero_below_one::<F>();
        }
        let z = one.quotient(x);
        lemma_reciprocal(x);
        let mirrored_above = horner(z, num.reverse());
        let mirrored_below = horner(z, den.reverse());
        lemma_poly_is_horner(z, num.reverse());
        lemma_poly_is_horner(z, den.reverse());
        let res = mirrored_above.quotient(mirrored_below);

        // the denominator, and with it the mirrored one, has a reciprocal
        let below_top = full_power(x, (q - 1) as nat);
        let below_bottom = full_power(z, (q - 1) as nat);
        lemma_mirror(x, z, den);
        if mirrored_below == zero {
            F::product_zero(below_top);
        }
        let unit = one.quotient(mirrored_below);
        lemma_reciprocal(mirrored_below);
        lemma_powers_cancel(x, z, (q - 1) as nat);
        lemma_product_interchanges(below_top, mirrored_below, below_bottom, unit);
        lemma_product_one(one);
        lemma_reciprocal_is_unique(below, below_bottom.product(unit));
        lemma_quotient_unfolds(above, below);
        lemma_quotient_unfolds(mirrored_above, mirrored_below);

        if p == 0 {
            assert(num.reverse() =~= num);
            lemma_zero_product(unit);
            lemma_zero_product(below_bottom.product(unit));
            lemma_times_power(res, z, q);
            lemma_zero_product(full_power(z, q));
        } else {
            let above_top = full_power(x, (p - 1) as nat);
            lemma_mirror(x, z, num);
            // the quotient is the mirrored one times x^(p-1) * z^(q-1)
            lemma_product_interchanges(above_top, mirrored_above, below_bottom, unit);
            let shift = above_top.product(below_bottom);
            F::product_commutes(shift, res);
            if p == q {
                lemma_product_one(res);
            } else if p < q {
                let e = (q - p) as nat;
                lemma_times_power(res, z, e);
                lemma_full_power_adds(z, e, (p - 1) as nat);
                let rest = full_power(z, (p - 1) as nat);
                lemma_powers_cancel(x, z, (p - 1) as nat);
                F::product_commutes(full_power(z, e), rest);
                F::product_associates(above_top, rest, full_power(z, e));
                lemma_one_product(full_power(z, e));
            } else {
                let e = (p - q) as nat;
                lemma_times_power(res, x, e);
                lemma_full_power_adds(x, e, (q - 1) as nat);
                F::product_associates(full_power(x, e), below_top, below_bottom);
                lemma_product_one(full_power(x, e));
            }
        }
    }
}

} // verus!
