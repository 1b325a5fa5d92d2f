use fast_polynomial::{
    rational, rational_array, rational_array_t, rational_f, rational_f_n, PolyNum, PolyRational,
};
use std::cell::Cell;

/// A double, with the multiply-add that `num_traits` selects.
#[derive(Clone, Copy, Debug, PartialEq)]
struct Real(f64);

impl PolyNum for Real {
    fn zero_value() -> Real {
        Real::zero()
    }

    fn sum(self, rhs: Real) -> Real {
        self.add(rhs)
    }

    fn product(self, rhs: Real) -> Real {
        self.mul(rhs)
    }

    fn fused(self, a: Real, b: Real) -> Real {
        self.mul_add(a, b)
    }

    fn zero() -> Real {
        Real(num_traits::Zero::zero())
    }

    fn add(self, rhs: Real) -> Real {
        Real(self.0 + rhs.0)
    }

    fn mul(self, rhs: Real) -> Real {
        Real(self.0 * rhs.0)
    }

    fn mul_add(self, a: Real, b: Real) -> Real {
        Real(num_traits::MulAdd::mul_add(self.0, a.0, b.0))
    }
}

impl PolyRational for Real {
    fn one_value() -> Real {
        Real::one()
    }

    fn quotient(self, rhs: Real) -> Real {
        self.div(rhs)
    }

    fn exceeds(self, rhs: Real) -> bool {
        self.gt(rhs)
    }

    fn one() -> Real {
        Real(num_traits::One::one())
    }

    fn div(self, rhs: Real) -> Real {
        Real(self.0 / rhs.0)
    }

    fn gt(self, rhs: Real) -> bool {
        self.0 > rhs.0
    }
}

fn naive(x: f64, c: &[f64]) -> f64 {
    let mut sum = 0.0;
    for i in (0..c.len()).rev() {
        sum = sum * x + c[i];
    }
    sum
}

fn wrap(c: &[f64]) -> Vec<Real> {
    c.iter().map(|v| Real(*v)).collect()
}

/// Coefficients that decay like those of a well-behaved series.
fn series(n: usize) -> Vec<f64> {
    (0..n)
        .map(|i| {
            let sign = if i % 3 == 0 { -1.0 } else { 1.0 };
            sign * (0.5 + (i as f64) * 0.25) / (1.0 + i as f64)
        })
        .collect()
}

fn close(a: f64, b: f64, tolerance: f64) -> bool {
    (a - b).abs() <= tolerance * (1.0 + a.abs().max(b.abs()))
}

impl From<f32> for Real {
    fn from(v: f32) -> Real {
        Real(v as f64)
    }
}

const POINTS: [f64; 12] = [0.0, 0.3, -0.7, 0.999, 1.0, -1.0, 1.001, -1.001, 1.5, -2.0, 3.25, 10.0];

fn positive(n: usize) -> Vec<f64> {
    (0..n).map(|i| 1.0 + (i as f64) * 0.5).collect()
}

#[test]
fn equal_lengths_agree_with_the_quotient_on_both_sides_of_one() {
    for n in 1..=20 {
        let num = series(n);
        let den = positive(n);
        for x in POINTS {
            // an even polynomial in |x| keeps the denominator away from zero
            let x = x.abs();
            let want = naive(x, &num) / naive(x, &den);
            let got = rational(Real(x), &wrap(&num), &wrap(&den)).0;
            assert!(close(got, want, 1e-9), "n = {}, x = {}: {} != {}", n, x, got, want);
        }
    }
}

#[test]
fn the_value_is_continuous_across_one() {
    let num = series(7);
    let den = positive(7);
    let inside = rational(Real(1.0), &wrap(&num), &wrap(&den)).0;
    let outside = rational(Real(1.0 + 1e-12), &wrap(&num), &wrap(&den)).0;
    assert!(close(inside, outside, 1e-9));
    let inside = rational(Real(-1.0), &wrap(&num), &wrap(&den)).0;
    let outside = rational(Real(-1.0 - 1e-12), &wrap(&num), &wrap(&den)).0;
    assert!(close(inside, outside, 1e-9));
}

#[test]
fn five_over_two_beyond_one() {
    let num = [2.0, -1.0, 0.5, 3.0, 1.25];
    let den = [4.0, 1.5];
    for x in [1.5, 2.0, 3.25, 10.0, -1.25, -7.0] {
        let want = naive(x, &num) / naive(x, &den);
        let got = rational(Real(x), &wrap(&num), &wrap(&den)).0;
        assert!(close(got, want, 1e-9), "x = {}: {} != {}", x, got, want);
    }
}

#[test]
fn unequal_lengths_agree_with_the_quotient() {
    for p in 0..=12 {
        for q in 1..=12 {
            let num = series(p);
            let den = positive(q);
            for x in [0.25, 0.9, 1.0, 1.1, 2.0, 5.5] {
                let want = naive(x, &num) / naive(x, &den);
                let got = rational(Real(x), &wrap(&num), &wrap(&den)).0;
                assert!(close(got, want, 1e-9), "p = {}, q = {}, x = {}", p, q, x);
            }
        }
    }
}

#[test]
fn long_polynomials_agree_with_the_quotient() {
    let num = series(40);
    let den = positive(23);
    for x in [0.5, 1.25, 2.0] {
        let want = naive(x, &num) / naive(x, &den);
        let got = rational(Real(x), &wrap(&num), &wrap(&den)).0;
        assert!(close(got, want, 1e-9), "x = {}: {} != {}", x, got, want);
    }
}

#[test]
fn rational_exact_where_nothing_rounds() {
    // at 2, with a denominator of 1, every step is exact:
    // (1 + 2x + 3x^2 + 4x^3) / 1 = 49, corrected by x^3
    let got = rational(Real(2.0), &wrap(&[1.0, 2.0, 3.0, 4.0]), &wrap(&[1.0]));
    assert_eq!(got, Real(49.0));
    // 1 / (1 + 2x + 3x^2 + 4x^3), corrected by (1/x)^3: (1 / 6.125) * 0.125
    let got = rational(Real(2.0), &wrap(&[1.0]), &wrap(&[1.0, 2.0, 3.0, 4.0]));
    assert_eq!(got, Real((1.0 / 6.125) * 0.125));
    // within one the polynomials are taken as they are
    let got = rational(Real(0.5), &wrap(&[1.0, 2.0, 4.0]), &wrap(&[2.0]));
    assert_eq!(got, Real(1.5));
    // two coefficients at most: no reciprocal, however large the input
    let got = rational(Real(8.0), &wrap(&[1.0, 2.0]), &wrap(&[4.0, 0.5]));
    assert_eq!(got, Real(17.0 / 8.0));
}

#[test]
fn every_exponent_of_the_correction() {
    let den = [1.0];
    for p in 2..=34 {
        let num: Vec<f64> = (0..p).map(|i| ((i % 3) as f64) + 1.0).collect();
        let got = rational(Real(2.0), &wrap(&num), &wrap(&den)).0;
        assert_eq!(got, naive(2.0, &num), "p = {}", p);
    }
}

#[test]
fn a_zero_denominator_divides_as_the_numbers_do() {
    assert_eq!(rational(Real(0.5), &[Real(1.0)], &[]), Real(f64::INFINITY));
    assert_eq!(rational(Real(0.5), &[Real(-1.0)], &[Real(0.0)]), Real(f64::NEG_INFINITY));
    assert!(rational(Real(0.5), &[], &[]).0.is_nan());
    assert!(rational(Real(3.0), &[Real(1.0), Real(1.0), Real(1.0)], &[]).0.is_infinite());
}

#[test]
fn functions_give_what_the_arrays_give() {
    let num = wrap(&series(9));
    let den = wrap(&positive(4));
    for x in POINTS {
        let by_slice = rational(Real(x), &num, &den);
        let by_function = rational_f(Real(x), 9, 4, |i| num[i], |i| den[i]);
        let by_length = rational_f_n::<Real, _, _, 9, 4>(Real(x), |i| num[i], |i| den[i]);
        let n9: [Real; 9] =
            [num[0], num[1], num[2], num[3], num[4], num[5], num[6], num[7], num[8]];
        let d4: [Real; 4] = [den[0], den[1], den[2], den[3]];
        let by_array = rational_array(Real(x), &n9, &d4);
        assert!(by_slice.0.to_bits() == by_function.0.to_bits() || by_slice.0.is_nan());
        assert!(by_slice.0.to_bits() == by_length.0.to_bits() || by_slice.0.is_nan());
        assert!(by_slice.0.to_bits() == by_array.0.to_bits() || by_slice.0.is_nan());
    }
}

#[test]
fn each_rational_coefficient_is_asked_for_once() {
    for x in [0.5, 4.0] {
        for p in 0..=20 {
            for q in 0..=20 {
                let asked_above: Vec<Cell<u32>> = (0..p).map(|_| Cell::new(0)).collect();
                let asked_below: Vec<Cell<u32>> = (0..q).map(|_| Cell::new(0)).collect();
                rational_f(
                    Real(x),
                    p,
                    q,
                    |i| {
                        asked_above[i].set(asked_above[i].get() + 1);
                        Real(1.0)
                    },
                    |i| {
                        asked_below[i].set(asked_below[i].get() + 1);
                        Real(2.0)
                    },
                );
                assert!(asked_above.iter().all(|count| count.get() == 1));
                assert!(asked_below.iter().all(|count| count.get() == 1));
            }
        }
    }
}

#[test]
fn stored_rational_coefficients_are_converted() {
    let above: [f32; 4] = [1.0, 2.0, 3.0, 4.0];
    let below: [f32; 1] = [1.0];
    assert_eq!(rational_array_t::<Real, f32, 4, 1>(Real(2.0), &above, &below), Real(49.0));
}

#[test]
fn the_rational_operations_are_the_float_ones() {
    assert_eq!(Real(3.0).div(Real(2.0)), Real(1.5));
    assert_eq!(Real::one(), Real(1.0));
    assert!(Real(3.0).gt(Real(2.0)));
    assert!(!Real(2.0).gt(Real(2.0)));
    assert!(!Real(f64::NAN).gt(Real(2.0)));
}
