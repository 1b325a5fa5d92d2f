//! Several inputs evaluated at once.
//!
//! An [`ArrayWrap`] holds one number per lane and computes lane by lane. It
//! is a scalar itself, so every evaluator takes it: one call then evaluates
//! one polynomial per lane, at that lane's input with that lane's
//! coefficients.
use crate::algebra::Semiring;
use crate::evaluate::{block_value, poly_value, power_cache, remainder_power, square_power, sweep};
use crate::polynomials::{estrin_at, lemma_width_grows, width};
use crate::scalar::{PolyNum, PolyRational};
use vstd::prelude::*;

verus! {

/// `N` numbers, one per lane.
#[derive(Copy, PartialEq)]
pub struct ArrayWrap<const N: usize, F> {
    underlying: [F; N],
}

impl<const N: usize, F: Copy> Clone for ArrayWrap<N, F> {
    fn clone(&self) -> (r: Self)
        ensures
            r == *self,
    {
        *self
    }
}

impl<const N: usize, F> View for ArrayWrap<N, F> {
    type V = Seq<F>;

    /// The lanes, in order.
    closed spec fn view(&self) -> Seq<F> {
        self.underlying@
    }
}

impl<const N: usize, F> ArrayWrap<N, F> {
    /// The wrap with the lanes of `underlying`.
    pub fn new(underlying: [F; N]) -> (r: Self)
        ensures
            r@ == underlying@,
    {
        Self { underlying }
    }

    /// The number in the lane `index`.
    pub fn index(&self, index: usize) -> (r: &F)
        requires
            index < N,
        ensures
            *r == self@[index as int],
    {
        &self.underlying[index]
    }

    /// The wrap with the given lanes.
    pub closed spec fn of(lanes: Seq<F>) -> Self {
        ArrayWrap { underlying: choose|a: [F; N]| a@ == lanes }
    }

    /// There are `N` lanes.
    pub proof fn lemma_lanes(self)
        ensures
            self@.len() == N,
    {
        broadcast use vstd::array::group_array_axioms;
    }

    /// Two wraps with the same lanes are the same.
    pub proof fn lemma_same_lanes(self, other: Self)
        requires
            self@ == other@,
        ensures
            self == other,
    {
        broadcast use vstd::array::group_array_axioms;

        assert(self.underlying =~= other.underlying);
    }

    /// Two wraps that agree in every lane are the same.
    pub proof fn lemma_agrees(self, other: Self)
        requires
            forall|l: int| 0 <= l < N ==> self@[l] == other@[l],
        ensures
            self == other,
    {
        self.lemma_lanes();
        other.lemma_lanes();
        assert(self@ =~= other@);
        self.lemma_same_lanes(other);
    }

    /// Some array agrees with `lanes` below `k`.
    proof fn lemma_filled(lanes: Seq<F>, k: nat) -> (a: [F; N])
        requires
            lanes.len() == N,
            k <= N,
        ensures
            forall|i: int| 0 <= i < k ==> a@[i] == lanes[i],
        decreases k,
    {
        broadcast use vstd::array::group_array_axioms;

        if k == 0 {
            arbitrary()
        } else {
            let below = Self::lemma_filled(lanes, (k - 1) as nat);
            vstd::array::spec_array_update(below, k - 1, lanes[k - 1])
        }
    }

    /// Every `N` numbers are the lanes of a wrap.
    pub proof fn lemma_of(lanes: Seq<F>)
        requires
            lanes.len() == N,
        ensures
            Self::of(lanes)@ == lanes,
    {
        broadcast use vstd::array::group_array_axioms;

        let a = Self::lemma_filled(lanes, N as nat);
        assert(a@ =~= lanes);
    }
}

impl<const N: usize, F: Copy> From<F> for ArrayWrap<N, F> {
    /// The wrap with `value` in every lane.
    fn from(value: F) -> (r: Self) {
        let r = ArrayWrap { underlying: [value; N] };
        proof {
            broadcast use vstd::array::group_array_axioms;

            let lanes = Seq::new(N as nat, |i: int| value);
            Self::lemma_of(lanes);
            assert(r@ =~= lanes);
            r.lemma_same_lanes(Self::of(lanes));
        }
        r
    }
}

impl<const N: usize, F: Copy> vstd::std_specs::convert::FromSpecImpl<F> for ArrayWrap<N, F> {
    open spec fn obeys_from_spec() -> bool {
        true
    }

    open spec fn from_spec(value: F) -> Self {
        Self::of(Seq::new(N as nat, |i: int| value))
    }
}

impl<const N: usize, F: PolyNum> PolyNum for ArrayWrap<N, F> {
    open spec fn zero_value() -> Self {
        Self::of(Seq::new(N as nat, |i: int| F::zero_value()))
    }

    open spec fn sum(self, rhs: Self) -> Self {
        Self::of(Seq::new(N as nat, |i: int| self@[i].sum(rhs@[i])))
    }

    open spec fn product(self, rhs: Self) -> Self {
        Self::of(Seq::new(N as nat, |i: int| self@[i].product(rhs@[i])))
    }

    open spec fn fused(self, a: Self, b: Self) -> Self {
        Self::of(Seq::new(N as nat, |i: int| self@[i].fused(a@[i], b@[i])))
    }

    fn zero() -> (r: Self) {
        let r = ArrayWrap { underlying: [F::zero(); N] };
        proof {
            broadcast use vstd::array::group_array_axioms;

            let lanes = Seq::new(N as nat, |i: int| F::zero_value());
            Self::lemma_of(lanes);
            assert(r@ =~= lanes);
            r.lemma_same_lanes(Self::of(lanes));
        }
        r
    }

    fn add(self, rhs: Self) -> (r: Self) {
        let mut underlying = self.underlying;
        let mut idx: usize = 0;
        while idx < N
            invariant
                idx <= N,
                forall|i: int| 0 <= i < idx ==> underlying@[i] == self@[i].sum(rhs@[i]),
            decreases N - idx,
        {
            underlying[idx] = self.underlying[idx].add(rhs.underlying[idx]);
            idx += 1;
        }
        let r = ArrayWrap { underlying };
        proof {
            broadcast use vstd::array::group_array_axioms;

            let lanes = Seq::new(N as nat, |i: int| self@[i].sum(rhs@[i]));
            Self::lemma_of(lanes);
            assert(r@ =~= lanes);
            r.lemma_same_lanes(Self::of(lanes));
        }
        r
    }

    fn mul(self, rhs: Self) -> (r: Self) {
        let mut underlying = self.underlying;
        let mut idx: usize = 0;
        while idx < N
            invariant
                idx <= N,
                forall|i: int| 0 <= i < idx ==> underlying@[i] == self@[i].product(rhs@[i]),
            decreases N - idx,
        {
            underlying[idx] = self.underlying[idx].mul(rhs.underlying[idx]);
            idx += 1;
        }
        let r = ArrayWrap { underlying };
        proof {
            broadcast use vstd::array::group_array_axioms;

            let lanes = Seq::new(N as nat, |i: int| self@[i].product(rhs@[i]));
            Self::lemma_of(lanes);
            assert(r@ =~= lanes);
            r.lemma_same_lanes(Self::of(lanes));
        }
        r
    }

    fn mul_add(self, a: Self, b: Self) -> (r: Self) {
        let mut underlying = self.underlying;
        let mut idx: usize = 0;
        while idx < N
            invariant
                idx <= N,
                forall|i: int| 0 <= i < idx ==> underlying@[i] == self@[i].fused(a@[i], b@[i]),
            decreases N - idx,
        {
            underlying[idx] = self.underlying[idx].mul_add(a.underlying[idx], b.underlying[idx]);
            idx += 1;
        }
        let r = ArrayWrap { underlying };
        proof {
            broadcast use vstd::array::group_array_axioms;

            let lanes = Seq::new(N as nat, |i: int| self@[i].fused(a@[i], b@[i]));
            Self::lemma_of(lanes);
            assert(r@ =~= lanes);
            r.lemma_same_lanes(Self::of(lanes));
        }
        r
    }
}

/// Whether `a` exceeds `b` from the lane `from` on, where the first lane
/// in which one of the two exceeds the other decides.
pub open spec fn exceeds_from<F: PolyRational>(a: Seq<F>, b: Seq<F>, from: int) -> bool
    decreases a.len() - from,
{
    if from < 0 || from >= a.len() {
        false
    } else if a[from].exceeds(b[from]) {
        true
    } else if b[from].exceeds(a[from]) {
        false
    } else {
        exceeds_from(a, b, from + 1)
    }
}

impl<const N: usize, F: PolyRational> PolyRational for ArrayWrap<N, F> {
    open spec fn one_value() -> Self {
        Self::of(Seq::new(N as nat, |i: int| F::one_value()))
    }

    open spec fn quotient(self, rhs: Self) -> Self {
        Self::of(Seq::new(N as nat, |i: int| self@[i].quotient(rhs@[i])))
    }

    /// Wraps are ordered like words: the first lane in which one of the two
    /// exceeds the other decides.
    open spec fn exceeds(self, rhs: Self) -> bool {
        exceeds_from(self@, rhs@, 0)
    }

    fn one() -> (r: Self) {
        let r = ArrayWrap { underlying: [F::one(); N] };
        proof {
            broadcast use vstd::array::group_array_axioms;

            let lanes = Seq::new(N as nat, |i: int| F::one_value());
            Self::lemma_of(lanes);
            assert(r@ =~= lanes);
            r.lemma_same_lanes(Self::of(lanes));
        }
        r
    }

    fn div(self, rhs: Self) -> (r: Self) {
        let mut underlying = self.underlying;
        let mut idx: usize = 0;
        while idx < N
            invariant
                idx <= N,
                forall|i: int| 0 <= i < idx ==> underlying@[i] == self@[i].quotient(rhs@[i]),
            decreases N - idx,
        {
            underlying[idx] = self.underlying[idx].div(rhs.underlying[idx]);
            idx += 1;
        }
        let r = ArrayWrap { underlying };
        proof {
            broadcast use vstd::array::group_array_axioms;

            let lanes = Seq::new(N as nat, |i: int| self@[i].quotient(rhs@[i]));
            Self::lemma_of(lanes);
            assert(r@ =~= lanes);
            r.lemma_same_lanes(Self::of(lanes));
        }
        r
    }

    fn gt(self, rhs: Self) -> (b: bool) {
        proof {
            self.lemma_lanes();
        }
        let mut idx: usize = 0;
        while idx < N
            invariant
                idx <= N,
                self@.len() == N,
                exceeds_from(self@, rhs@, 0) == exceeds_from(self@, rhs@, idx as int),
            decreases N - idx,
        {
            if self.underlying[idx].gt(rhs.underlying[idx]) {
                return true;
            }
            if rhs.underlying[idx].gt(self.underlying[idx]) {
                return false;
            }
            idx += 1;
        }
        false
    }
}

impl<const N: usize, F: PolyRational> ArrayWrap<N, F> {
    /// One has one in every lane.
    pub proof fn lemma_one_lane(l: int)
        requires
            0 <= l < N,
        ensures
            Self::one_value()@[l] == F::one_value(),
    {
        Self::lemma_of(Seq::new(N as nat, |i: int| F::one_value()));
    }

    /// A quotient has in every lane the quotient of that lane.
    pub proof fn lemma_quotient_lane(self, rhs: Self, l: int)
        requires
            0 <= l < N,
        ensures
            self.quotient(rhs)@[l] == self@[l].quotient(rhs@[l]),
    {
        Self::lemma_of(Seq::new(N as nat, |i: int| self@[i].quotient(rhs@[i])));
    }
}

impl<const N: usize, F: PolyNum> ArrayWrap<N, F> {
    /// Zero has zero in every lane.
    pub proof fn lemma_zero_lane(l: int)
        requires
            0 <= l < N,
        ensures
            Self::zero_value()@[l] == F::zero_value(),
    {
        Self::lemma_of(Seq::new(N as nat, |i: int| F::zero_value()));
    }

    /// A sum has in every lane the sum of that lane.
    pub proof fn lemma_sum_lane(self, rhs: Self, l: int)
        requires
            0 <= l < N,
        ensures
            self.sum(rhs)@[l] == self@[l].sum(rhs@[l]),
    {
        Self::lemma_of(Seq::new(N as nat, |i: int| self@[i].sum(rhs@[i])));
    }

    /// A product has in every lane the product of that lane.
    pub proof fn lemma_product_lane(self, rhs: Self, l: int)
        requires
            0 <= l < N,
        ensures
            self.product(rhs)@[l] == self@[l].product(rhs@[l]),
    {
        Self::lemma_of(Seq::new(N as nat, |i: int| self@[i].product(rhs@[i])));
    }

    /// A multiply-add has in every lane the multiply-add of that lane.
    pub proof fn lemma_fused_lane(self, a: Self, b: Self, l: int)
        requires
            0 <= l < N,
        ensures
            self.fused(a, b)@[l] == self@[l].fused(a@[l], b@[l]),
    {
        Self::lemma_of(Seq::new(N as nat, |i: int| self@[i].fused(a@[i], b@[i])));
    }
}

/// What the lane `l` holds of each wrap of `c`.
pub open spec fn lane<const N: usize, F>(c: Seq<ArrayWrap<N, F>>, l: int) -> Seq<F> {
    Seq::new(c.len(), |i: int| c[i]@[l])
}

/// Squaring works lane by lane.
pub proof fn lemma_square_power_lane<const N: usize, F: PolyNum>(x: ArrayWrap<N, F>, k: nat, l: int)
    requires
        0 <= l < N,
    ensures
        square_power(x, k)@[l] == square_power(x@[l], k),
    decreases k,
{
    if k > 0 {
        let root = square_power(x, (k - 1) as nat);
        lemma_square_power_lane(x, (k - 1) as nat, l);
        root.lemma_product_lane(root, l);
    }
}

/// An Estrin tree works lane by lane.
pub proof fn lemma_estrin_lane<const N: usize, F: PolyNum>(
    pows: Seq<ArrayWrap<N, F>>,
    c: Seq<ArrayWrap<N, F>>,
    lo: int,
    n: int,
    k: nat,
    l: int,
)
    requires
        0 <= l < N,
        k <= pows.len(),
        1 <= n <= width(k),
        0 <= lo,
        lo + n <= c.len(),
    ensures
        estrin_at(pows, c, lo, n, k)@[l] == estrin_at(lane(pows, l), lane(c, l), lo, n, k),
    decreases k,
{
    if k > 0 {
        let below = (k - 1) as nat;
        let half = width(below) as int;
        lemma_width_grows(0, below);
        if n <= half {
            lemma_estrin_lane(pows, c, lo, n, below, l);
        } else {
            lemma_estrin_lane(pows, c, lo + half, n - half, below, l);
            lemma_estrin_lane(pows, c, lo, half, below, l);
            pows[k - 1].lemma_fused_lane(
                estrin_at(pows, c, lo + half, n - half, below),
                estrin_at(pows, c, lo, half, below),
                l,
            );
        }
    }
}

/// A block works lane by lane.
pub proof fn lemma_block_lane<const N: usize, F: PolyNum>(
    x: ArrayWrap<N, F>,
    c: Seq<ArrayWrap<N, F>>,
    l: int,
)
    requires
        0 <= l < N,
        1 <= c.len() <= 16,
    ensures
        block_value(x, c)@[l] == block_value(x@[l], lane(c, l)),
{
    reveal_with_fuel(width, 5);
    lemma_estrin_lane(power_cache(x), c, 0, c.len() as int, 4, l);
    assert forall|k: int| 0 <= k < 4 implies lane(power_cache(x), l)[k] == power_cache(
        x@[l],
    )[k] by {
        lemma_square_power_lane(x, k as nat, l);
    }
    assert(lane(power_cache(x), l) =~= power_cache(x@[l]));
}

/// The sweep over full blocks works lane by lane.
pub proof fn lemma_sweep_lane<const N: usize, F: PolyNum>(
    x: ArrayWrap<N, F>,
    s: Seq<ArrayWrap<N, F>>,
    l: int,
)
    requires
        0 <= l < N,
    ensures
        sweep(x, s)@[l] == sweep(x@[l], lane(s, l)),
    decreases s.len(),
{
    if s.len() < 16 {
        ArrayWrap::<N, F>::lemma_zero_lane(l);
    } else {
        lemma_sweep_lane(x, s.skip(16), l);
        lemma_block_lane(x, s.take(16), l);
        lemma_square_power_lane(x, 4, l);
        sweep(x, s.skip(16)).lemma_fused_lane(square_power(x, 4), block_value(x, s.take(16)), l);
        assert(lane(s.skip(16), l) =~= lane(s, l).skip(16));
        assert(lane(s.take(16), l) =~= lane(s, l).take(16));
    }
}

/// The power that joins in the low coefficients works lane by lane.
pub proof fn lemma_remainder_power_lane<const N: usize, F: PolyNum>(
    x: ArrayWrap<N, F>,
    j: int,
    l: int,
)
    requires
        0 <= l < N,
        1 <= j <= 15,
    ensures
        remainder_power(x, j)@[l] == remainder_power(x@[l], j),
{
    let x2 = square_power(x, 1);
    let x4 = square_power(x, 2);
    let x8 = square_power(x, 3);
    lemma_square_power_lane(x, 1, l);
    lemma_square_power_lane(x, 2, l);
    lemma_square_power_lane(x, 3, l);
    x2.lemma_product_lane(x, l);
    x4.lemma_product_lane(x, l);
    x4.lemma_product_lane(x2, l);
    x4.product(x2).lemma_product_lane(x, l);
    x8.lemma_product_lane(x, l);
    x8.lemma_product_lane(x2, l);
    x8.product(x2).lemma_product_lane(x, l);
    x8.lemma_product_lane(x4, l);
    x8.product(x4).lemma_product_lane(x, l);
    x8.product(x4).lemma_product_lane(x2, l);
    x8.product(x4).lemma_product_lane(x2.product(x), l);
}

/// One evaluation over wraps is one evaluation per lane: in every lane the
/// value is that of the lane's coefficients at the lane's input, computed by
/// the same operations.
pub proof fn lemma_poly_lane<const N: usize, F: PolyNum>(
    x: ArrayWrap<N, F>,
    c: Seq<ArrayWrap<N, F>>,
    l: int,
)
    requires
        0 <= l < N,
    ensures
        poly_value(x, c)@[l] == poly_value(x@[l], lane(c, l)),
{
    let n = c.len() as int;
    if n == 0 {
        ArrayWrap::<N, F>::lemma_zero_lane(l);
    } else if 1 < n <= 16 {
        lemma_block_lane(x, c, l);
    } else if n > 16 {
        let j = n % 16;
        lemma_sweep_lane(x, c.skip(j), l);
        assert(lane(c.skip(j), l) =~= lane(c, l).skip(j));
        if j > 0 {
            lemma_block_lane(x, c.take(j), l);
            lemma_remainder_power_lane(x, j, l);
            sweep(x, c.skip(j)).lemma_fused_lane(
                remainder_power(x, j),
                block_value(x, c.take(j)),
                l,
            );
            assert(lane(c.take(j), l) =~= lane(c, l).take(j));
        }
    }
}

/// Lane by lane, wraps of a semiring form a semiring.
impl<const N: usize, F: Semiring> Semiring for ArrayWrap<N, F> {
    proof fn sum_commutes(a: Self, b: Self) {
        assert forall|l: int| 0 <= l < N implies a.sum(b)@[l] == b.sum(a)@[l] by {
            a.lemma_sum_lane(b, l);
            b.lemma_sum_lane(a, l);
            F::sum_commutes(a@[l], b@[l]);
        }
        a.sum(b).lemma_agrees(b.sum(a));
    }

    proof fn sum_associates(a: Self, b: Self, c: Self) {
        assert forall|l: int| 0 <= l < N implies a.sum(b).sum(c)@[l] == a.sum(b.sum(c))@[l] by {
            a.lemma_sum_lane(b, l);
            a.sum(b).lemma_sum_lane(c, l);
            b.lemma_sum_lane(c, l);
            a.lemma_sum_lane(b.sum(c), l);
            F::sum_associates(a@[l], b@[l], c@[l]);
        }
        a.sum(b).sum(c).lemma_agrees(a.sum(b.sum(c)));
    }

    proof fn sum_zero(a: Self) {
        assert forall|l: int| 0 <= l < N implies a.sum(Self::zero_value())@[l] == a@[l] by {
            Self::lemma_zero_lane(l);
            a.lemma_sum_lane(Self::zero_value(), l);
            F::sum_zero(a@[l]);
        }
        a.sum(Self::zero_value()).lemma_agrees(a);
    }

    proof fn product_commutes(a: Self, b: Self) {
        assert forall|l: int| 0 <= l < N implies a.product(b)@[l] == b.product(a)@[l] by {
            a.lemma_product_lane(b, l);
            b.lemma_product_lane(a, l);
            F::product_commutes(a@[l], b@[l]);
        }
        a.product(b).lemma_agrees(b.product(a));
    }

    proof fn product_associates(a: Self, b: Self, c: Self) {
        assert forall|l: int| 0 <= l < N implies a.product(b).product(c)@[l] == a.product(
            b.product(c),
        )@[l] by {
            a.lemma_product_lane(b, l);
            a.product(b).lemma_product_lane(c, l);
            b.lemma_product_lane(c, l);
            a.lemma_product_lane(b.product(c), l);
            F::product_associates(a@[l], b@[l], c@[l]);
        }
        a.product(b).product(c).lemma_agrees(a.product(b.product(c)));
    }

    proof fn product_zero(a: Self) {
        assert forall|l: int| 0 <= l < N implies a.product(Self::zero_value())@[l]
            == Self::zero_value()@[l] by {
            Self::lemma_zero_lane(l);
            a.lemma_product_lane(Self::zero_value(), l);
            F::product_zero(a@[l]);
        }
        a.product(Self::zero_value()).lemma_agrees(Self::zero_value());
    }

    proof fn product_distributes(a: Self, b: Self, c: Self) {
        assert forall|l: int| 0 <= l < N implies a.product(b.sum(c))@[l] == a.product(b).sum(
            a.product(c),
        )@[l] by {
            b.lemma_sum_lane(c, l);
            a.lemma_product_lane(b.sum(c), l);
            a.lemma_product_lane(b, l);
            a.lemma_product_lane(c, l);
            a.product(b).lemma_sum_lane(a.product(c), l);
            F::product_distributes(a@[l], b@[l], c@[l]);
        }
        a.product(b.sum(c)).lemma_agrees(a.product(b).sum(a.product(c)));
    }

    proof fn fused_unfolds(a: Self, b: Self, c: Self) {
        assert forall|l: int| 0 <= l < N implies a.fused(b, c)@[l] == a.product(b).sum(c)@[l] by {
            a.lemma_fused_lane(b, c, l);
            a.lemma_product_lane(b, l);
            a.product(b).lemma_sum_lane(c, l);
            F::fused_unfolds(a@[l], b@[l], c@[l]);
        }
        a.fused(b, c).lemma_agrees(a.product(b).sum(c));
    }
}

} // verus!
