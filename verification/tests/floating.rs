use fast_polynomial::{poly, poly_array, poly_array_t, poly_f, poly_f_n, PolyNum};
use std::cell::Cell;

/// A double, with the multiply-add that `num_traits` selects.
#[derive(Clone, Copy, Debug, PartialEq)]
struct Real(f64);

impl PolyNum for Real {
    fn zero_value() -> Real {
        Real::zero()
    }

    fn sum(self, rhs: Real) -> Real {
        self.add(rhs)
    }

    fn product(self, rhs: Real) -> Real {
        self.mul(rhs)
    }

    fn fused(self, a: Real, b: Real) -> Real {
        self.mul_add(a, b)
    }

    fn zero() -> Real {
        Real(num_traits::Zero::zero())
    }

    fn add(self, rhs: Real) -> Real {
        Real(self.0 + rhs.0)
    }

    fn mul(self, rhs: Real) -> Real {
        Real(self.0 * rhs.0)
    }

    fn mul_add(self, a: Real, b: Real) -> Real {
        Real(num_traits::MulAdd::mul_add(self.0, a.0, b.0))
    }
}

fn naive(x: f64, c: &[f64]) -> f64 {
    let mut sum = 0.0;
    for i in (0..c.len()).rev() {
        sum = sum * x + c[i];
    }
    sum
}

fn wrap(c: &[f64]) -> Vec<Real> {
    c.iter().map(|v| Real(*v)).collect()
}

/// Coefficients that decay like those of a well-behaved series.
fn series(n: usize) -> Vec<f64> {
    (0..n)
        .map(|i| {
            let sign = if i % 3 == 0 { -1.0 } else { 1.0 };
            sign * (0.5 + (i as f64) * 0.25) / (1.0 + i as f64)
        })
        .collect()
}

fn close(a: f64, b: f64, tolerance: f64) -> bool {
    (a - b).abs() <= tolerance * (1.0 + a.abs().max(b.abs()))
}

impl From<f32> for Real {
    fn from(v: f32) -> Real {
        Real(v as f64)
    }
}

const POINTS: [f64; 9] = [0.0, 0.2, -0.5, 0.999, 1.0, -1.0, 1.001, 1.7, -2.25];

#[test]
fn matches_horner_for_every_length_up_to_forty() {
    for n in 0..=40 {
        let c = series(n);
        for x in POINTS {
            let got = poly(Real(x), &wrap(&c)).0;
            let want = naive(x, &c);
            assert!(close(got, want, 1e-9), "n = {}, x = {}: {} != {}", n, x, got, want);
        }
    }
}

#[test]
fn no_coefficients_give_zero() {
    for x in POINTS {
        assert_eq!(poly(Real(x), &[]), Real(0.0));
        assert_eq!(poly_f(Real(x), 0, |_| panic!("nothing to ask for")), Real(0.0));
        assert_eq!(poly_array(Real(x), &[]), Real(0.0));
    }
    assert_eq!(poly(Real(f64::NAN), &[]), Real(0.0));
}

#[test]
fn one_coefficient_ignores_the_input() {
    for x in POINTS {
        assert_eq!(poly(Real(x), &[Real(4.25)]), Real(4.25));
    }
    assert_eq!(poly(Real(f64::INFINITY), &[Real(-3.5)]), Real(-3.5));
    assert_eq!(poly(Real(f64::NAN), &[Real(-3.5)]), Real(-3.5));
}

#[test]
fn matches_horner_at_the_block_boundaries() {
    for n in [15, 16, 17, 31, 32, 33, 47, 48, 49, 64] {
        let c = series(n);
        for x in POINTS {
            let got = poly(Real(x), &wrap(&c)).0;
            assert!(close(got, naive(x, &c), 1e-9), "n = {}, x = {}", n, x);
        }
    }
}

#[test]
fn cubic_at_one_half() {
    let c = [Real(1.0), Real(0.3), Real(0.4), Real(1.6)];
    assert!((poly(Real(0.5), &c).0 - 1.45).abs() < 1e-6);
    assert!((poly_array(Real(0.5), &c).0 - 1.45).abs() < 1e-6);
    assert!((poly_f(Real(0.5), 4, |i| c[i]).0 - 1.45).abs() < 1e-6);
}

#[test]
fn forty_two_coefficients_at_one_fifth() {
    let c = series(42);
    assert_eq!(c.len(), 42);
    let got = poly(Real(0.2), &wrap(&c)).0;
    assert!((got - naive(0.2, &c)).abs() < 1e-10);
}

#[test]
fn exact_where_nothing_rounds() {
    // small integers at a power of two: every intermediate result is exact
    let c: Vec<f64> = (0..20).map(|i| (i % 5) as f64 - 2.0).collect();
    assert_eq!(poly(Real(2.0), &wrap(&c)).0, naive(2.0, &c));
    assert_eq!(poly(Real(-0.5), &wrap(&c)).0, naive(-0.5, &c));
    // 3 + 2x + x^2 at 4
    assert_eq!(poly(Real(4.0), &[Real(3.0), Real(2.0), Real(1.0)]), Real(27.0));
}

#[test]
fn a_function_gives_what_the_array_gives() {
    for x in POINTS {
        for n in 0..=40 {
            let c = wrap(&series(n));
            let by_slice = poly(Real(x), &c);
            let by_function = poly_f(Real(x), n, |i| c[i]);
            assert_eq!(by_slice.0.to_bits(), by_function.0.to_bits(), "n = {}, x = {}", n, x);
        }
    }
}

#[test]
fn a_known_length_gives_what_the_runtime_length_gives() {
    let c = wrap(&series(33));
    let x = Real(0.75);
    let a5: [Real; 5] = [c[0], c[1], c[2], c[3], c[4]];
    assert_eq!(poly_array(x, &a5), poly(x, &c[..5]));
    assert_eq!(poly_f_n::<Real, _, 5>(x, |i| c[i]), poly(x, &c[..5]));
    assert_eq!(poly_f_n::<Real, _, 16>(x, |i| c[i]), poly(x, &c[..16]));
    assert_eq!(poly_f_n::<Real, _, 17>(x, |i| c[i]), poly(x, &c[..17]));
    assert_eq!(poly_f_n::<Real, _, 33>(x, |i| c[i]), poly(x, &c[..33]));
    assert_eq!(poly_f_n::<Real, _, 0>(x, |i| c[i]), Real(0.0));
}

#[test]
fn each_coefficient_is_asked_for_once() {
    for n in 0..=70 {
        let c = wrap(&series(n));
        let asked: Vec<Cell<u32>> = (0..n).map(|_| Cell::new(0)).collect();
        poly_f(Real(1.5), n, |i| {
            asked[i].set(asked[i].get() + 1);
            c[i]
        });
        assert!(asked.iter().all(|count| count.get() == 1), "n = {}", n);
    }
}

#[test]
fn stored_coefficients_are_converted() {
    let stored: [f32; 6] = [1.0, -0.5, 0.25, 2.0, 0.0, 3.0];
    let c: Vec<f64> = stored.iter().map(|v| *v as f64).collect();
    let got = poly_array_t::<Real, f32, 6>(Real(1.25), &stored);
    assert_eq!(got, poly(Real(1.25), &wrap(&c)));
    assert!(close(got.0, naive(1.25, &c), 1e-12));
}

#[test]
fn the_scalar_operations_are_the_float_ones() {
    assert_eq!(Real(1.5).mul_add(Real(2.0), Real(0.25)), Real(3.25));
    assert_eq!(Real(1.5).mul(Real(2.0)), Real(3.0));
    assert_eq!(Real(1.5).add(Real(2.0)), Real(3.5));
    assert_eq!(Real::zero(), Real(0.0));
}
