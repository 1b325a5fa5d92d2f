//! What the evaluators compute where the arithmetic is exact.
//!
//! Over a commutative semiring every evaluator of [`crate::evaluate`]
//! returns the value of the polynomial, as Horner's rule defines it and as
//! the sum of its terms does, for any number of coefficients.
use crate::algebra::{
    lemma_product_swaps, lemma_sum_distributes, lemma_zero_product, lemma_zero_sum, Semiring,
};
use crate::evaluate::{block_value, poly_value, power_cache, remainder_power, square_power, sweep};
use crate::polynomials::{estrin, estrin_at, lemma_width_grows, width};
use crate::scalar::PolyNum;
use vstd::prelude::*;

verus! {

/// The value of the polynomial with the coefficients `c` at `x` by
/// Horner's rule: from the highest coefficient down, the sum so far is
/// multiplied by `x` and the next coefficient is added.
pub open spec fn horner<F: PolyNum>(x: F, c: Seq<F>) -> F
    decreases c.len(),
{
    if c.len() == 0 {
        F::zero_value()
    } else {
        horner(x, c.skip(1)).product(x).sum(c[0])
    }
}

/// `x^e` for `e >= 1`, by repeated multiplication.
pub open spec fn power<F: PolyNum>(x: F, e: nat) -> F
    decreases e,
{
    if e <= 1 {
        x
    } else {
        power(x, (e - 1) as nat).product(x)
    }
}

/// The value of the polynomial with the coefficients `c` at `x` as the sum
/// of its terms, `c[0] + c[1] * x + c[2] * x^2 + ..`, added from the lowest.
pub open spec fn term_sum<F: PolyNum>(x: F, c: Seq<F>) -> F
    decreases c.len(),
{
    if c.len() == 0 {
        F::zero_value()
    } else if c.len() == 1 {
        c[0]
    } else {
        term_sum(x, c.drop_last()).sum(c.last().product(power(x, (c.len() - 1) as nat)))
    }
}

/// `x^(a + b) = x^a * x^b`.
pub proof fn lemma_power_adds<F: Semiring>(x: F, a: nat, b: nat)
    requires
        a >= 1,
        b >= 1,
    ensures
        power(x, a + b) == power(x, a).product(power(x, b)),
    decreases b,
{
    if b > 1 {
        lemma_power_adds(x, a, (b - 1) as nat);
        F::product_associates(power(x, a), power(x, (b - 1) as nat), x);
    }
}

/// Squaring `k` times gives the power `2^k`.
pub proof fn lemma_square_power<F: Semiring>(x: F, k: nat)
    ensures
        square_power(x, k) == power(x, width(k)),
    decreases k,
{
    if k > 0 {
        let below = (k - 1) as nat;
        lemma_square_power(x, below);
        lemma_width_grows(0, below);
        lemma_power_adds(x, width(below), width(below));
    }
}

/// A polynomial with one coefficient is that coefficient.
pub proof fn lemma_horner_of_one<F: Semiring>(x: F, c: Seq<F>)
    requires
        c.len() == 1,
    ensures
        horner(x, c) == c[0],
{
    assert(c.skip(1).len() == 0);
    assert(horner(x, c.skip(1)) == F::zero_value());
    lemma_zero_product(x);
    lemma_zero_sum(c[0]);
}

/// A polynomial splits at any coefficient: with `low` its first `h`
/// coefficients and `high` the others, its value is
/// `x^h * high(x) + low(x)`.
pub proof fn lemma_horner_splits<F: Semiring>(x: F, c: Seq<F>, h: int)
    requires
        1 <= h <= c.len(),
    ensures
        horner(x, c) == power(x, h as nat).product(horner(x, c.skip(h))).sum(horner(x, c.take(h))),
    decreases h,
{
    let rest = c.skip(1);
    let high = horner(x, c.skip(h));
    if h == 1 {
        lemma_horner_of_one(x, c.take(1));
        F::product_commutes(x, high);
    } else {
        lemma_horner_splits(x, rest, h - 1);
        assert(rest.skip(h - 1) =~= c.skip(h));
        assert(c.take(h).skip(1) =~= rest.take(h - 1));
        let below = power(x, (h - 1) as nat);
        let low = horner(x, rest.take(h - 1));
        // ((x^(h-1) * high + low) * x) + c[0]
        lemma_sum_distributes(below.product(high), low, x);
        lemma_product_swaps(below, high, x);
        F::sum_associates(below.product(x).product(high), low.product(x), c[0]);
    }
}

/// Horner's rule and the sum of the terms give the same value.
pub proof fn lemma_horner_is_term_sum<F: Semiring>(x: F, c: Seq<F>)
    ensures
        horner(x, c) == term_sum(x, c),
    decreases c.len(),
{
    let n = c.len() as int;
    if n == 1 {
        lemma_horner_of_one(x, c);
    } else if n > 1 {
        let top = power(x, (n - 1) as nat);
        lemma_horner_is_term_sum(x, c.drop_last());
        lemma_horner_splits(x, c, n - 1);
        lemma_horner_of_one(x, c.skip(n - 1));
        F::product_commutes(top, c.last());
        F::sum_commutes(c.last().product(top), horner(x, c.drop_last()));
    }
}

/// Over exact arithmetic an Estrin tree that is handed the powers of `x`
/// has the value of the polynomial over its coefficients.
pub proof fn lemma_estrin_is_horner<F: Semiring>(
    x: F,
    pows: Seq<F>,
    c: Seq<F>,
    lo: int,
    n: int,
    k: nat,
)
    requires
        k <= pows.len(),
        forall|i: int| 0 <= i < k ==> pows[i] == square_power(x, i as nat),
        1 <= n <= width(k),
        0 <= lo,
        lo + n <= c.len(),
    ensures
        estrin_at(pows, c, lo, n, k) == horner(x, c.subrange(lo, lo + n)),
    decreases k,
{
    let part = c.subrange(lo, lo + n);
    if k == 0 {
        lemma_horner_of_one(x, part);
    } else {
        let below = (k - 1) as nat;
        let half = width(below) as int;
        lemma_width_grows(0, below);
        if n <= half {
            lemma_estrin_is_horner(x, pows, c, lo, n, below);
        } else {
            lemma_estrin_is_horner(x, pows, c, lo + half, n - half, below);
            lemma_estrin_is_horner(x, pows, c, lo, half, below);
            assert(part.skip(half) =~= c.subrange(lo + half, lo + n));
            assert(part.take(half) =~= c.subrange(lo, lo + half));
            lemma_horner_splits(x, part, half);
            lemma_square_power(x, below);
            F::fused_unfolds(pows[k - 1], horner(x, part.skip(half)), horner(x, part.take(half)));
        }
    }
}

/// Over exact arithmetic a fixed-degree polynomial that is handed the
/// powers of `x` computes the polynomial with its coefficients.
pub proof fn lemma_fixed_degree_is_horner<F: Semiring>(x: F, pows: Seq<F>, c: Seq<F>)
    requires
        forall|i: int| 0 <= i < pows.len() ==> pows[i] == square_power(x, i as nat),
        1 <= c.len() <= width(pows.len()),
    ensures
        estrin(pows, c) == horner(x, c),
{
    lemma_estrin_is_horner(x, pows, c, 0, c.len() as int, pows.len());
    assert(c.subrange(0, c.len() as int) =~= c);
}

/// Over exact arithmetic a block of at most sixteen coefficients has the
/// value of the polynomial over them.
pub proof fn lemma_block_is_horner<F: Semiring>(x: F, c: Seq<F>)
    requires
        1 <= c.len() <= 16,
    ensures
        block_value(x, c) == horner(x, c),
{
    reveal_with_fuel(width, 5);
    lemma_fixed_degree_is_horner(x, power_cache(x), c);
}

/// Over exact arithmetic the sweep over full blocks has the value of the
/// polynomial over their coefficients.
pub proof fn lemma_sweep_is_horner<F: Semiring>(x: F, s: Seq<F>)
    requires
        s.len() % 16 == 0,
    ensures
        sweep(x, s) == horner(x, s),
    decreases s.len(),
{
    if s.len() >= 16 {
        let high = horner(x, s.skip(16));
        let low = horner(x, s.take(16));
        lemma_sweep_is_horner(x, s.skip(16));
        lemma_block_is_horner(x, s.take(16));
        lemma_horner_splits(x, s, 16);
        lemma_square_power(x, 4);
        reveal_with_fuel(width, 5);
        F::fused_unfolds(high, square_power(x, 4), low);
        F::product_commutes(high, square_power(x, 4));
    }
}

/// The product of cached powers that joins in `j` low coefficients is
/// `x^j`.
pub proof fn lemma_remainder_power<F: Semiring>(x: F, j: int)
    requires
        1 <= j <= 15,
    ensures
        remainder_power(x, j) == power(x, j as nat),
{
    reveal_with_fuel(width, 4);
    lemma_square_power(x, 1);
    lemma_square_power(x, 2);
    lemma_square_power(x, 3);
    lemma_power_adds(x, 2, 1);
    lemma_power_adds(x, 4, 1);
    lemma_power_adds(x, 4, 2);
    lemma_power_adds(x, 6, 1);
    lemma_power_adds(x, 8, 1);
    lemma_power_adds(x, 8, 2);
    lemma_power_adds(x, 10, 1);
    lemma_power_adds(x, 8, 4);
    lemma_power_adds(x, 12, 1);
    lemma_power_adds(x, 12, 2);
    lemma_power_adds(x, 12, 3);
}

/// Over exact arithmetic the evaluators compute the polynomial: for every
/// `x` and every sequence of coefficients, of any length, the value they
/// return is the one that Horner's rule defines.
pub proof fn lemma_poly_is_horner<F: Semiring>(x: F, c: Seq<F>)
    ensures
        poly_value(x, c) == horner(x, c),
{
    let n = c.len() as int;
    if n == 1 {
        lemma_horner_of_one(x, c);
    } else if 1 < n <= 16 {
        lemma_block_is_horner(x, c);
    } else if n > 16 {
        let j = n % 16;
        lemma_sweep_is_horner(x, c.skip(j));
        if j == 0 {
            assert(c.skip(0) =~= c);
        } else {
            let high = horner(x, c.skip(j));
            let low = horner(x, c.take(j));
            lemma_block_is_horner(x, c.take(j));
            lemma_remainder_power(x, j);
            lemma_horner_splits(x, c, j);
            F::fused_unfolds(high, power(x, j as nat), low);
            F::product_commutes(high, power(x, j as nat));
        }
    }
}

/// Over exact arithmetic the evaluators compute the sum of the terms
/// `c[i] * x^i`.
pub proof fn lemma_poly_is_term_sum<F: Semiring>(x: F, c: Seq<F>)
    ensures
        poly_value(x, c) == term_sum(x, c),
{
    lemma_poly_is_horner(x, c);
    lemma_horner_is_term_sum(x, c);
}

} // verus!
