//! Evaluation of a polynomial with any number of coefficients.
//!
//! Up to sixteen coefficients go to the matching fixed-degree polynomial of
//! [`crate::polynomials`]. Beyond that the coefficients are taken in blocks of
//! sixteen from the top: each block is evaluated in Estrin's scheme, and the
//! blocks are folded into one accumulator by Horner's rule in `x^16`. What is
//! left below the lowest full block, at most fifteen coefficients, is
//! evaluated by the matching fixed-degree polynomial and joined in with one
//! last multiply-add.
use crate::polynomials::{
    estrin, lemma_estrin_levels, lemma_estrin_reads, poly_1, poly_10, poly_11, poly_12, poly_13,
    poly_14, poly_15, poly_2, poly_3, poly_4, poly_5, poly_6, poly_7, poly_8, poly_9, width,
};
use crate::scalar::PolyNum;
use vstd::prelude::*;

verus! {

/// `x^(2^k)`, by squaring `k` times.
pub open spec fn square_power<F: PolyNum>(x: F, k: nat) -> F
    decreases k,
{
    if k == 0 {
        x
    } else {
        let root = square_power(x, (k - 1) as nat);
        root.product(root)
    }
}

/// The powers that one evaluation computes once and hands to the
/// fixed-degree polynomials: `x`, `x^2`, `x^4` and `x^8`.
pub open spec fn power_cache<F: PolyNum>(x: F) -> Seq<F> {
    Seq::new(4, |k: int| square_power(x, k as nat))
}

/// `x^j` for `1 <= j <= 15`, as the product of cached powers by which the
/// coefficients below the lowest full block are joined in.
pub open spec fn remainder_power<F: PolyNum>(x: F, j: int) -> F {
    let x2 = square_power(x, 1);
    let x4 = square_power(x, 2);
    let x8 = square_power(x, 3);
    if j == 1 {
        x
    } else if j == 2 {
        x2
    } else if j == 3 {
        x2.product(x)
    } else if j == 4 {
        x4
    } else if j == 5 {
        x4.product(x)
    } else if j == 6 {
        x4.product(x2)
    } else if j == 7 {
        x4.product(x2).product(x)
    } else if j == 8 {
        x8
    } else if j == 9 {
        x8.product(x)
    } else if j == 10 {
        x8.product(x2)
    } else if j == 11 {
        x8.product(x2).product(x)
    } else if j == 12 {
        x8.product(x4)
    } else if j == 13 {
        x8.product(x4).product(x)
    } else if j == 14 {
        x8.product(x4).product(x2)
    } else {
        x8.product(x4).product(x2.product(x))
    }
}

/// The value of at most sixteen coefficients: the Estrin tree over them,
/// with the cached powers of `x`.
pub open spec fn block_value<F: PolyNum>(x: F, c: Seq<F>) -> F {
    estrin(power_cache(x), c)
}

/// The accumulator after the blocks of `s` have been folded in, the highest
/// first: it starts at zero, and each block below multiplies it by `x^16`
/// and adds the block's value, in one multiply-add.
///
/// `s` holds the coefficients from the lowest full block upwards, so its
/// length is a multiple of sixteen.
pub open spec fn sweep<F: PolyNum>(x: F, s: Seq<F>) -> F
    decreases s.len(),
{
    if s.len() < 16 {
        F::zero_value()
    } else {
        sweep(x, s.skip(16)).fused(square_power(x, 4), block_value(x, s.take(16)))
    }
}

/// The value that the evaluators compute for the polynomial with the
/// coefficients `c` at `x`, where `c[i]` belongs to `x^i`.
///
/// It names the exact operations, in their order: over numbers that round,
/// two ways to the same polynomial differ in the last bits.
pub open spec fn poly_value<F: PolyNum>(x: F, c: Seq<F>) -> F {
    let n = c.len() as int;
    if n == 0 {
        F::zero_value()
    } else if n == 1 {
        c[0]
    } else if n <= 16 {
        block_value(x, c)
    } else {
        let j = n % 16;
        let upper = sweep(x, c.skip(j));
        if j == 0 {
            upper
        } else {
            upper.fused(remainder_power(x, j), block_value(x, c.take(j)))
        }
    }
}

/// Asked for the coefficient `i`, `g` can answer `c[i]`, for every index
/// of `c`.
pub open spec fn yields<F, G: Fn(usize) -> F>(g: G, c: Seq<F>) -> bool {
    forall|i: usize| i < c.len() ==> call_ensures(g, (i,), #[trigger] c[i as int])
}

/// `r` is the value at `x` of a polynomial whose `n` coefficients `g` can
/// answer.
pub open spec fn evaluates<F: PolyNum, G: Fn(usize) -> F>(g: G, n: usize, x: F, r: F) -> bool {
    exists|c: Seq<F>| c.len() == n && #[trigger] yields(g, c) && r == poly_value(x, c)
}

/// A fixed-degree polynomial that is handed the powers of `x` it needs
/// computes the block's value.
pub proof fn lemma_block_value<F: PolyNum>(x: F, pows: Seq<F>, c: Seq<F>)
    requires
        pows.len() <= 4,
        forall|k: int| 0 <= k < pows.len() ==> pows[k] == square_power(x, k as nat),
        1 <= c.len() <= width(pows.len()),
    ensures
        estrin(pows, c) == block_value(x, c),
{
    let n = c.len() as int;
    let k = pows.len();
    lemma_estrin_reads(pows, c, 0, power_cache(x), c, 0, n, k);
    lemma_estrin_levels(power_cache(x), c, 0, n, k, 4);
}

/// A single coefficient is its own block value.
pub proof fn lemma_block_of_one<F: PolyNum>(x: F, c: Seq<F>)
    requires
        c.len() == 1,
    ensures
        block_value(x, c) == c[0],
{
    lemma_estrin_levels(power_cache(x), c, 0, 1, 0, 4);
}

/// Evaluates the `m` coefficients that `g` answers, at most sixteen, by the
/// fixed-degree polynomial for `m`.
#[inline(always)]
fn fixed_degree<F: PolyNum, G: Fn(usize) -> F>(x: F, x2: F, x4: F, x8: F, m: usize, g: &G) -> (r: F)
    requires
        1 <= m <= 16,
        x2 == square_power(x, 1),
        x4 == square_power(x, 2),
        x8 == square_power(x, 3),
        forall|i: usize| i < m ==> call_requires(*g, (i,)),
    ensures
        exists|c: Seq<F>| c.len() == m && #[trigger] yields(*g, c) && r == block_value(x, c),
{
    proof {
        reveal_with_fuel(width, 5);
    }
    match m {
        1 => {
            let c0 = g(0);
            proof {
                lemma_block_of_one(x, seq![c0]);
                assert(yields(*g, seq![c0]));
            }
            c0
        },
        2 => {
            let c0 = g(0);
            let c1 = g(1);
            proof {
                let fetched = seq![c0, c1];
                lemma_block_value(x, seq![x], fetched);
                assert(yields(*g, fetched));
            }
            poly_1(x, c0, c1)
        },
        3 => {
            let c0 = g(0);
            let c1 = g(1);
            let c2 = g(2);
            proof {
                let fetched = seq![c0, c1, c2];
                lemma_block_value(x, seq![x, x2], fetched);
                assert(yields(*g, fetched));
            }
            poly_2(x, x2, c0, c1, c2)
        },
        4 => {
            let c0 = g(0);
            let c1 = g(1);
            let c2 = g(2);
            let c3 = g(3);
            proof {
                let fetched = seq![c0, c1, c2, c3];
                lemma_block_value(x, seq![x, x2], fetched);
                assert(yields(*g, fetched));
            }
            poly_3(x, x2, c0, c1, c2, c3)
        },
        5 => {
            let c0 = g(0);
            let c1 = g(1);
            let c2 = g(2);
            let c3 = g(3);
            let c4 = g(4);
            proof {
                let fetched = seq![c0, c1, c2, c3, c4];
                lemma_block_value(x, seq![x, x2, x4], fetched);
                assert(yields(*g, fetched));
            }
            poly_4(x, x2, x4, c0, c1, c2, c3, c4)
        },
        6 => {
            let c0 = g(0);
            let c1 = g(1);
            let c2 = g(2);
            let c3 = g(3);
            let c4 = g(4);
            let c5 = g(5);
            proof {
                let fetched = seq![c0, c1, c2, c3, c4, c5];
                lemma_block_value(x, seq![x, x2, x4], fetched);
                assert(yields(*g, fetched));
            }
            poly_5(x, x2, x4, c0, c1, c2, c3, c4, c5)
        },
        7 => {
            let c0 = g(0);
            let c1 = g(1);
            let c2 = g(2);
            let c3 = g(3);
            let c4 = g(4);
            let c5 = g(5);
            let c6 = g(6);
            proof {
                let fetched = seq![c0, c1, c2, c3, c4, c5, c6];
                lemma_block_value(x, seq![x, x2, x4], fetched);
                assert(yields(*g, fetched));
            }
            poly_6(x, x2, x4, c0, c1, c2, c3, c4, c5, c6)
        },
        8 => {
            let c0 = g(0);
            let c1 = g(1);
            let c2 = g(2);
            let c3 = g(3);
            let c4 = g(4);
            let c5 = g(5);
            let c6 = g(6);
            let c7 = g(7);
            proof {
                let fetched = seq![c0, c1, c2, c3, c4, c5, c6, c7];
                lemma_block_value(x, seq![x, x2, x4], fetched);
                assert(yields(*g, fetched));
            }
            poly_7(x, x2, x4, c0, c1, c2, c3, c4, c5, c6, c7)
        },
        9 => {
            let c0 = g(0);
            let c1 = g(1);
            let c2 = g(2);
            let c3 = g(3);
            let c4 = g(4);
            let c5 = g(5);
            let c6 = g(6);
            let c7 = g(7);
            let c8 = g(8);
            proof {
                let fetched = seq![c0, c1, c2, c3, c4, c5, c6, c7, c8];
                lemma_block_value(x, seq![x, x2, x4, x8], fetched);
                assert(yields(*g, fetched));
            }
            poly_8(x, x2, x4, x8, c0, c1, c2, c3, c4, c5, c6, c7, c8)
        },
        10 => {
            let c0 = g(0);
            let c1 = g(1);
            let c2 = g(2);
            let c3 = g(3);
            let c4 = g(4);
            let c5 = g(5);
            let c6 = g(6);
            let c7 = g(7);
            let c8 = g(8);
            let c9 = g(9);
            proof {
                let fetched = seq![c0, c1, c2, c3, c4, c5, c6, c7, c8, c9];
                lemma_block_value(x, seq![x, x2, x4, x8], fetched);
                assert(yields(*g, fetched));
            }
            poly_9(x, x2, x4, x8, c0, c1, c2, c3, c4, c5, c6, c7, c8, c9)
        },
        11 => {
            let c0 = g(0);
            let c1 = g(1);
            let c2 = g(2);
            let c3 = g(3);
            let c4 = g(4);
            let c5 = g(5);
            let c6 = g(6);
            let c7 = g(7);
            let c8 = g(8);
            let c9 = g(9);
            let c10 = g(10);
            proof {
                let fetched = seq![c0, c1, c2, c3, c4, c5, c6, c7, c8, c9, c10];
                lemma_block_value(x, seq![x, x2, x4, x8], fetched);
                assert(yields(*g, fetched));
            }
            poly_10(x, x2, x4, x8, c0, c1, c2, c3, c4, c5, c6, c7, c8, c9, c10)
        },
        12 => {
            let c0 = g(0);
            let c1 = g(1);
            let c2 = g(2);
            let c3 = g(3);
            let c4 = g(4);
            let c5 = g(5);
            let c6 = g(6);
            let c7 = g(7);
            let c8 = g(8);
            let c9 = g(9);
            let c10 = g(10);
            let c11 = g(11);
            proof {
                let fetched = seq![c0, c1, c2, c3, c4, c5, c6, c7, c8, c9, c10, c11];
                lemma_block_value(x, seq![x, x2, x4, x8], fetched);
                assert(yields(*g, fetched));
            }
            poly_11(x, x2, x4, x8, c0, c1, c2, c3, c4, c5, c6, c7, c8, c9, c10, c11)
        },
        13 => {
            let c0 = g(0);
            let c1 = g(1);
            let c2 = g(2);
            let c3 = g(3);
            let c4 = g(4);
            let c5 = g(5);
            let c6 = g(6);
            let c7 = g(7);
            let c8 = g(8);
            let c9 = g(9);
            let c10 = g(10);
            let c11 = g(11);
            let c12 = g(12);
            proof {
                let fetched = seq![c0, c1, c2, c3, c4, c5, c6, c7, c8, c9, c10, c11, c12];
                lemma_block_value(x, seq![x, x2, x4, x8], fetched);
                assert(yields(*g, fetched));
            }
            poly_12(x, x2, x4, x8, c0, c1, c2, c3, c4, c5, c6, c7, c8, c9, c10, c11, c12)
        },
        14 => {
            let c0 = g(0);
            let c1 = g(1);
            let c2 = g(2);
            let c3 = g(3);
            let c4 = g(4);
            let c5 = g(5);
            let c6 = g(6);
            let c7 = g(7);
            let c8 = g(8);
            let c9 = g(9);
            let c10 = g(10);
            let c11 = g(11);
            let c12 = g(12);
            let c13 = g(13);
            proof {
                let fetched = seq![c0, c1, c2, c3, c4, c5, c6, c7, c8, c9, c10, c11, c12, c13];
                lemma_block_value(x, seq![x, x2, x4, x8], fetched);
                assert(yields(*g, fetched));
            }
            poly_13(
                x, x2, x4, x8,
                c0, c1, c2, c3, c4, c5, c6, c7, c8, c9, c10, c11, c12, c13,
            )
        },
        15 => {
            let c0 = g(0);
            let c1 = g(1);
            let c2 = g(2);
            let c3 = g(3);
            let c4 = g(4);
            let c5 = g(5);
            let c6 = g(6);
            let c7 = g(7);
            let c8 = g(8);
            let c9 = g(9);
            let c10 = g(10);
            let c11 = g(11);
            let c12 = g(12);
            let c13 = g(13);
            let c14 = g(14);
            proof {
                let fetched = seq![
                    c0, c1, c2, c3, c4, c5, c6, c7, c8, c9, c10, c11, c12, c13, c14,
                ];
                lemma_block_value(x, seq![x, x2, x4, x8], fetched);
                assert(yields(*g, fetched));
            }
            poly_14(
                x, x2, x4, x8,
                c0, c1, c2, c3, c4, c5, c6, c7, c8, c9, c10, c11, c12, c13, c14,
            )
        },
        // sixteen, by the precondition
        _ => {
            let c0 = g(0);
            let c1 = g(1);
            let c2 = g(2);
            let c3 = g(3);
            let c4 = g(4);
            let c5 = g(5);
            let c6 = g(6);
            let c7 = g(7);
            let c8 = g(8);
            let c9 = g(9);
            let c10 = g(10);
            let c11 = g(11);
            let c12 = g(12);
            let c13 = g(13);
            let c14 = g(14);
            let c15 = g(15);
            proof {
                let fetched = seq![
                    c0, c1, c2, c3, c4, c5, c6, c7, c8, c9, c10, c11, c12, c13, c14, c15,
                ];
                lemma_block_value(x, seq![x, x2, x4, x8], fetched);
                assert(yields(*g, fetched));
            }
            poly_15(
                x, x2, x4, x8,
                c0, c1, c2, c3, c4, c5, c6, c7, c8, c9, c10, c11, c12, c13, c14, c15,
            )
        },
    }
}

/// The evaluator behind every entry point. `LENGTH` is the number of
/// coefficients where the caller knows it at compile time, and zero where
/// it does not.
#[inline(always)]
pub(crate) fn poly_f_internal<F: PolyNum, G: Fn(usize) -> F, const LENGTH: usize>(
    x: F,
    n: usize,
    g: G,
) -> (r: F)
    requires
        LENGTH > 0 ==> n == LENGTH,
        forall|i: usize| i < n ==> call_requires(g, (i,)),
    ensures
        evaluates(g, n, x, r),
{
    proof {
        reveal_with_fuel(square_power, 5);
        reveal_with_fuel(width, 5);
    }
    // a length known at compile time decides there which branch is taken
    let n = if LENGTH > 0 {
        LENGTH
    } else {
        n
    };

    // up to four coefficients need no power beyond the square
    match n {
        0 => {
            proof {
                assert(yields(g, Seq::<F>::empty()));
            }
            return F::zero();
        },
        1 => {
            let c0 = g(0);
            proof {
                assert(yields(g, seq![c0]));
            }
            return c0;
        },
        2 => {
            let c0 = g(0);
            let c1 = g(1);
            proof {
                let fetched = seq![c0, c1];
                lemma_block_value(x, seq![x], fetched);
                assert(yields(g, fetched));
            }
            return poly_1(x, c0, c1);
        },
        3 => {
            let x2 = x.mul(x);
            let c0 = g(0);
            let c1 = g(1);
            let c2 = g(2);
            proof {
                let fetched = seq![c0, c1, c2];
                lemma_block_value(x, seq![x, x2], fetched);
                assert(yields(g, fetched));
            }
            return poly_2(x, x2, c0, c1, c2);
        },
        4 => {
            let x2 = x.mul(x);
            let c0 = g(0);
            let c1 = g(1);
            let c2 = g(2);
            let c3 = g(3);
            proof {
                let fetched = seq![c0, c1, c2, c3];
                lemma_block_value(x, seq![x, x2], fetched);
                assert(yields(g, fetched));
            }
            return poly_3(x, x2, c0, c1, c2, c3);
        },
        _ => {},
    }
    let x2 = x.mul(x);
    let x4 = x2.mul(x2);
    let x8 = x4.mul(x4);

    if n <= 16 {
        return fixed_degree(x, x2, x4, x8, n, &g);
    }
    let x16 = x8.mul(x8);

    let mut sum = F::zero();
    let ghost mut upper: Seq<F> = Seq::empty();

    // the full blocks, from the top
    let mut j: usize = n;
    while j >= 16
        invariant
            j <= n,
            upper.len() == n - j,
            upper.len() % 16 == 0,
            forall|i: usize| i < n ==> call_requires(g, (i,)),
            forall|i: usize| j <= i < n ==> call_ensures(g, (i,), #[trigger] upper[i - j]),
            sum == sweep(x, upper),
            x2 == square_power(x, 1),
            x4 == square_power(x, 2),
            x8 == square_power(x, 3),
            x16 == square_power(x, 4),
        decreases j,
    {
        j -= 16;
        let c0 = g(j);
        let c1 = g(j + 1);
        let c2 = g(j + 2);
        let c3 = g(j + 3);
        let c4 = g(j + 4);
        let c5 = g(j + 5);
        let c6 = g(j + 6);
        let c7 = g(j + 7);
        let c8 = g(j + 8);
        let c9 = g(j + 9);
        let c10 = g(j + 10);
        let c11 = g(j + 11);
        let c12 = g(j + 12);
        let c13 = g(j + 13);
        let c14 = g(j + 14);
        let c15 = g(j + 15);
        let block = poly_15(
            x, x2, x4, x8,
            c0, c1, c2, c3, c4, c5, c6, c7, c8, c9, c10, c11, c12, c13, c14, c15,
        );
        sum = sum.mul_add(x16, block);
        proof {
            reveal_with_fuel(width, 5);
            let fetched = seq![
                c0, c1, c2, c3, c4, c5, c6, c7, c8, c9, c10, c11, c12, c13, c14, c15,
            ];
            lemma_block_value(x, seq![x, x2, x4, x8], fetched);
            let grown = fetched + upper;
            assert(grown.take(16) =~= fetched);
            assert(grown.skip(16) =~= upper);
            assert forall|i: usize| j <= i < n implies call_ensures(
                g,
                (i,),
                #[trigger] grown[i - j],
            ) by {
                if i >= j + 16 {
                    assert(grown[i - j] == upper[i - (j + 16)]);
                }
            }
            upper = grown;
        }
    }

    // what is left below the lowest full block
    if j == 0 {
        proof {
            assert(upper.skip(0) =~= upper);
            assert forall|i: usize| i < upper.len() implies call_ensures(
                g,
                (i,),
                #[trigger] upper[i as int],
            ) by {
                assert(upper[i - j] == upper[i as int]);
            }
            assert(yields(g, upper));
        }
        return sum;
    }
    let rmx = match j {
        1 => x,
        2 => x2,
        3 => x2.mul(x),
        4 => x4,
        5 => x4.mul(x),
        6 => x4.mul(x2),
        7 => x4.mul(x2).mul(x),
        8 => x8,
        9 => x8.mul(x),
        10 => x8.mul(x2),
        11 => x8.mul(x2).mul(x),
        12 => x8.mul(x4),
        13 => x8.mul(x4).mul(x),
        14 => x8.mul(x4).mul(x2),
        // fifteen: the loop has left less than sixteen
        _ => x8.mul(x4).mul(x2.mul(x)),
    };
    let res = fixed_degree(x, x2, x4, x8, j, &g);
    let r = sum.mul_add(rmx, res);
    proof {
        let lower = choose|c: Seq<F>|
            c.len() == j && #[trigger] yields(g, c) && res == block_value(x, c);
        let all = lower + upper;
        assert(all.take(j as int) =~= lower);
        assert(all.skip(j as int) =~= upper);
        assert(yields(g, all));
    }
    r
}

/// Without coefficients the value is zero, and a single coefficient is the
/// value, whatever `x` is.
proof fn lemma_short<F: PolyNum, G: Fn(usize) -> F>(g: G, n: usize, x: F, r: F)
    requires
        evaluates(g, n, x, r),
    ensures
        n == 0 ==> r == F::zero_value(),
        n == 1 ==> call_ensures(g, (0usize,), r),
{
    let c = choose|c: Seq<F>| c.len() == n && #[trigger] yields(g, c) && r == poly_value(x, c);
    if n == 1 {
        assert(call_ensures(g, (0usize,), c[0usize as int]));
    }
}

/// Evaluates the polynomial whose `n` coefficients `g` answers by index,
/// the coefficient `i` belonging to `x^i`.
///
/// `g` is asked for each index below `n` once, and for no other.
#[inline]
pub fn poly_f<F: PolyNum, G: Fn(usize) -> F>(x: F, n: usize, g: G) -> (r: F)
    requires
        forall|i: usize| i < n ==> call_requires(g, (i,)),
    ensures
        evaluates(g, n, x, r),
        n == 0 ==> r == F::zero_value(),
        n == 1 ==> call_ensures(g, (0usize,), r),
{
    let r = poly_f_internal::<F, G, 0>(x, n, g);
    proof {
        lemma_short(g, n, x, r);
    }
    r
}

/// Evaluates the polynomial whose `N` coefficients `g` answers by index.
/// With the length known at compile time, the choice of the evaluator is
/// made there.
#[inline]
pub fn poly_f_n<F: PolyNum, G: Fn(usize) -> F, const N: usize>(x: F, g: G) -> (r: F)
    requires
        forall|i: usize| i < N ==> call_requires(g, (i,)),
    ensures
        evaluates(g, N, x, r),
        N == 0 ==> r == F::zero_value(),
        N == 1 ==> call_ensures(g, (0usize,), r),
{
    let r = poly_f_internal::<F, G, N>(x, N, g);
    proof {
        lemma_short(g, N, x, r);
    }
    r
}

/// Evaluates the polynomial with the coefficients `coeffs` at `x`.
pub fn poly<F: PolyNum>(x: F, coeffs: &[F]) -> (r: F)
    ensures
        r == poly_value(x, coeffs@),
        coeffs@.len() == 0 ==> r == F::zero_value(),
        coeffs@.len() == 1 ==> r == coeffs@[0],
{
    let g = |i: usize| -> (c: F)
        requires
            i < coeffs@.len(),
        ensures
            c == coeffs@[i as int],
        { coeffs[i] };
    let r = poly_f_internal::<F, _, 0>(x, coeffs.len(), g);
    proof {
        let c = choose|c: Seq<F>|
            c.len() == coeffs@.len() && #[trigger] yields(g, c) && r == poly_value(x, c);
        assert(c =~= coeffs@);
    }
    r
}

/// Evaluates the polynomial with the coefficients `coeffs` at `x`. With the
/// length known at compile time, the choice of the evaluator is made there.
#[inline(always)]
pub fn poly_array<F: PolyNum, const N: usize>(x: F, coeffs: &[F; N]) -> (r: F)
    ensures
        r == poly_value(x, coeffs@),
        N == 0 ==> r == F::zero_value(),
        N == 1 ==> r == coeffs@[0],
{
    let g = |i: usize| -> (c: F)
        requires
            i < N,
        ensures
            c == coeffs@[i as int],
        { coeffs[i] };
    let r = poly_f_n::<F, _, N>(x, g);
    proof {
        let c = choose|c: Seq<F>| c.len() == N && #[trigger] yields(g, c) && r == poly_value(x, c);
        assert(c =~= coeffs@);
    }
    r
}

/// A coefficient stored as `t` can be read as `c`: `c` is what a clone of
/// `t` converts into.
pub open spec fn reads_as<T: Clone + Into<F>, F>(t: T, c: F) -> bool {
    exists|u: T| cloned(t, u) && call_ensures(T::into, (u,), c)
}

/// `c` is a reading of the stored coefficients `t`, one for one.
pub open spec fn read_as<T: Clone + Into<F>, F>(t: Seq<T>, c: Seq<F>) -> bool {
    c.len() == t.len() && forall|i: int| 0 <= i < t.len() ==> reads_as(t[i], #[trigger] c[i])
}

/// Reads a stored coefficient: clones and converts it.
pub(crate) fn read<T: Clone + Into<F>, F>(t: &T) -> (c: F)
    ensures
        reads_as(*t, c),
{
    let stored = t.clone();
    let c: F = stored.into();
    assert(cloned(*t, stored) && call_ensures(T::into, (stored,), c));
    c
}

/// Evaluates the polynomial whose coefficients are stored in another type
/// than the one it is evaluated in. Each coefficient is cloned and converted
/// when its turn comes.
#[inline(always)]
pub fn poly_array_t<F: PolyNum, T: Clone + Into<F>, const N: usize>(x: F, coeffs: &[T; N]) -> (r: F)
    ensures
        exists|c: Seq<F>| #[trigger] read_as(coeffs@, c) && r == poly_value(x, c),
{
    let g = |i: usize| -> (c: F)
        requires
            i < N,
        ensures
            reads_as(coeffs@[i as int], c),
        { read(&coeffs[i]) };
    let r = poly_f_n::<F, _, N>(x, g);
    proof {
        let c = choose|c: Seq<F>| c.len() == N && #[trigger] yields(g, c) && r == poly_value(x, c);
        assert(read_as(coeffs@, c));
    }
    r
}

/// A function that can answer only the coefficients of `c` is evaluated to
/// the value of `c`: to supply the coefficients by a function or as a
/// sequence makes no difference.
pub proof fn lemma_function_is_sequence<F: PolyNum, G: Fn(usize) -> F>(g: G, c: Seq<F>, x: F, r: F)
    requires
        c.len() <= usize::MAX,
        forall|i: usize, v: F| i < c.len() && call_ensures(g, (i,), v) ==> v == c[i as int],
        evaluates(g, c.len() as usize, x, r),
    ensures
        r == poly_value(x, c),
{
    let answered = choose|a: Seq<F>|
        a.len() == c.len() && #[trigger] yields(g, a) && r == poly_value(x, a);
    assert(answered =~= c);
}

} // verus!
