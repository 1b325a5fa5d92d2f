use fast_polynomial::many_xs::ArrayWrap;
use fast_polynomial::{poly, poly_array_t, poly_f, rational, PolyNum, PolyRational};

/// A double, with the multiply-add that `num_traits` selects.
#[derive(Clone, Copy, Debug, PartialEq)]
struct Real(f64);

impl PolyNum for Real {
    fn zero_value() -> Real {
        Real::zero()
    }

    fn sum(self, rhs: Real) -> Real {
        self.add(rhs)
    }

    fn product(self, rhs: Real) -> Real {
        self.mul(rhs)
    }

    fn fused(self, a: Real, b: Real) -> Real {
        self.mul_add(a, b)
    }

    fn zero() -> Real {
        Real(num_traits::Zero::zero())
    }

    fn add(self, rhs: Real) -> Real {
        Real(self.0 + rhs.0)
    }

    fn mul(self, rhs: Real) -> Real {
        Real(self.0 * rhs.0)
    }

    fn mul_add(self, a: Real, b: Real) -> Real {
        Real(num_traits::MulAdd::mul_add(self.0, a.0, b.0))
    }
}

impl PolyRational for Real {
    fn one_value() -> Real {
        Real::one()
    }

    fn quotient(self, rhs: Real) -> Real {
        self.div(rhs)
    }

    fn exceeds(self, rhs: Real) -> bool {
        self.gt(rhs)
    }

    fn one() -> Real {
        Real(num_traits::One::one())
    }

    fn div(self, rhs: Real) -> Real {
        Real(self.0 / rhs.0)
    }

    fn gt(self, rhs: Real) -> bool {
        self.0 > rhs.0
    }
}

fn reals<const N: usize>(v: [f64; N]) -> ArrayWrap<N, Real> {
    ArrayWrap::new(v.map(Real))
}

fn lanes<const N: usize>(w: &ArrayWrap<N, u64>) -> Vec<u64> {
    (0..N).map(|i| *w.index(i)).collect()
}

#[test]
fn new_keeps_the_lanes() {
    let w = ArrayWrap::new([4u64, 5, 6]);
    assert_eq!(*w.index(0), 4);
    assert_eq!(*w.index(1), 5);
    assert_eq!(*w.index(2), 6);
}

#[test]
fn from_fills_every_lane() {
    let w: ArrayWrap<4, u64> = ArrayWrap::from(9u64);
    assert_eq!(lanes(&w), vec![9, 9, 9, 9]);
}

#[test]
fn the_operations_work_lane_by_lane() {
    let a = ArrayWrap::new([1u64, 2, u64::MAX]);
    let b = ArrayWrap::new([10u64, 20, 2]);
    let c = ArrayWrap::new([100u64, 200, 5]);
    assert_eq!(lanes(&a.add(b)), vec![11, 22, 1]);
    assert_eq!(lanes(&a.mul(b)), vec![10, 40, u64::MAX - 1]);
    assert_eq!(lanes(&a.mul_add(b, c)), vec![110, 240, 3]);
    assert_eq!(lanes(&<ArrayWrap<3, u64> as PolyNum>::zero()), vec![0, 0, 0]);
}

#[test]
fn equal_lanes_make_equal_wraps() {
    assert!(ArrayWrap::new([1u64, 2]) == ArrayWrap::new([1u64, 2]));
    assert!(ArrayWrap::new([1u64, 2]) != ArrayWrap::new([1u64, 3]));
}

#[test]
fn one_call_evaluates_every_lane() {
    let xs = [0u64, 1, 2, 3, 0xdead_beef];
    for n in 0..=40 {
        let c: Vec<u64> = (0..n as u64).map(|i| i * i + 1).collect();
        let spread: Vec<ArrayWrap<5, u64>> = c.iter().map(|v| ArrayWrap::from(*v)).collect();
        let got = poly(ArrayWrap::new(xs), &spread);
        for lane in 0..5 {
            assert_eq!(*got.index(lane), poly(xs[lane], &c), "n = {}, lane = {}", n, lane);
        }
    }
}

#[test]
fn lanes_may_have_coefficients_of_their_own() {
    let xs = ArrayWrap::new([2u64, 10]);
    // 1 + 2x + 3x^2 in the first lane, 4 + 5x + 6x^2 in the second
    let c = [ArrayWrap::new([1u64, 4]), ArrayWrap::new([2u64, 5]), ArrayWrap::new([3u64, 6])];
    let got = poly_f(xs, 3, |i| c[i]);
    assert_eq!(lanes(&got), vec![17, 654]);
}

#[test]
fn plain_coefficients_are_spread_over_the_lanes() {
    let xs = ArrayWrap::new([2u64, 10, 0]);
    let got = poly_array_t::<ArrayWrap<3, u64>, u64, 3>(xs, &[1, 2, 3]);
    assert_eq!(lanes(&got), vec![17, 321, 1]);
}

#[test]
fn division_works_lane_by_lane() {
    let a = reals([1.0, 9.0, -2.0]);
    let b = reals([4.0, 3.0, 0.5]);
    let q = a.div(b);
    assert_eq!(*q.index(0), Real(0.25));
    assert_eq!(*q.index(1), Real(3.0));
    assert_eq!(*q.index(2), Real(-4.0));
    let one = <ArrayWrap<3, Real> as PolyRational>::one();
    assert!(one == reals([1.0, 1.0, 1.0]));
}

#[test]
fn the_first_lane_that_differs_decides_the_order() {
    assert!(reals([2.0, 0.0]).gt(reals([1.0, 5.0])));
    assert!(!reals([1.0, 5.0]).gt(reals([2.0, 0.0])));
    assert!(reals([1.0, 5.0]).gt(reals([1.0, 4.0])));
    assert!(!reals([1.0, 4.0]).gt(reals([1.0, 5.0])));
    assert!(!reals([1.0, 4.0]).gt(reals([1.0, 4.0])));
    let none: ArrayWrap<0, Real> = ArrayWrap::new([]);
    assert!(!none.gt(none));
}

#[test]
fn one_call_divides_every_lane() {
    let num = [1.0, -0.5, 0.25, 2.0, 0.75];
    let den = [3.0, 1.5, 0.5];
    let spread_num: Vec<ArrayWrap<3, Real>> =
        num.iter().map(|v| ArrayWrap::from(Real(*v))).collect();
    let spread_den: Vec<ArrayWrap<3, Real>> =
        den.iter().map(|v| ArrayWrap::from(Real(*v))).collect();
    let plain_num: Vec<Real> = num.iter().map(|v| Real(*v)).collect();
    let plain_den: Vec<Real> = den.iter().map(|v| Real(*v)).collect();
    // all lanes beyond one, then all lanes within
    for xs in [[2.0, 3.5, 1.25], [0.5, 0.25, 0.75]] {
        let got = rational(reals(xs), &spread_num, &spread_den);
        for lane in 0..3 {
            let alone = rational(Real(xs[lane]), &plain_num, &plain_den);
            assert_eq!(got.index(lane).0.to_bits(), alone.0.to_bits(), "lane = {}", lane);
        }
    }
}
