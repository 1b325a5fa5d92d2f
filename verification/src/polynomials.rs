//! Fixed-degree polynomials in Estrin's scheme, for direct use.
//!
//! Horner's rule evaluates a polynomial as one chain of multiply-adds, each
//! waiting for the one before. Estrin's scheme pairs the coefficients with
//! `x`, the pairs with `x^2`, the quadruples with `x^4` and so on, so that the
//! operations of one level are independent of each other.
//!
//! The powers of `x` are parameters: a caller that evaluates several
//! polynomials at one point computes them once. No function checks that the
//! powers passed belong to `x`; each contract states the value in terms of
//! the powers as given.
use crate::scalar::PolyNum;
use vstd::prelude::*;

verus! {

/// The number of coefficients that a tree of `k` levels spans: `2^k`.
pub open spec fn width(k: nat) -> nat
    decreases k,
{
    if k == 0 {
        1
    } else {
        2 * width((k - 1) as nat)
    }
}

/// The value of the Estrin tree of `k` levels over the `n` coefficients
/// `c[lo], .., c[lo + n - 1]`, where `pows[i]` stands for `x^(2^i)` and
/// `1 <= n <= 2^k`.
///
/// A tree of no levels is a single coefficient. A tree of `k` levels over at
/// most `2^(k-1)` coefficients is the tree of `k - 1` levels; over more, the
/// first `2^(k-1)` coefficients form the low half, the others the high half,
/// and the two are joined by one multiply-add with `pows[k - 1]`. A half that
/// is not full is never padded.
pub open spec fn estrin_at<F: PolyNum>(pows: Seq<F>, c: Seq<F>, lo: int, n: int, k: nat) -> F
    decreases k,
{
    if k == 0 {
        c[lo]
    } else {
        let half = width((k - 1) as nat) as int;
        if n <= half {
            estrin_at(pows, c, lo, n, (k - 1) as nat)
        } else {
            pows[k - 1].fused(
                estrin_at(pows, c, lo + half, n - half, (k - 1) as nat),
                estrin_at(pows, c, lo, half, (k - 1) as nat),
            )
        }
    }
}

/// The value of the Estrin tree over all of `c`, with as many levels as
/// there are powers in `pows`.
pub open spec fn estrin<F: PolyNum>(pows: Seq<F>, c: Seq<F>) -> F {
    estrin_at(pows, c, 0, c.len() as int, pows.len())
}

/// The polynomial of degree 1 with the coefficients `c0` to `c1`.
#[inline(always)]
pub fn poly_1<F: PolyNum>(x: F, c0: F, c1: F) -> (r: F)
    ensures
        r == estrin(seq![x], seq![c0, c1]),
{
    proof {
        reveal_with_fuel(width, 2);
        reveal_with_fuel(estrin_at, 2);
    }
    x.mul_add(c1, c0)
}

/// The polynomial of degree 2 with the coefficients `c0` to `c2`.
#[inline(always)]
pub fn poly_2<F: PolyNum>(x: F, x2: F, c0: F, c1: F, c2: F) -> (r: F)
    ensures
        r == estrin(seq![x, x2], seq![c0, c1, c2]),
{
    proof {
        reveal_with_fuel(width, 3);
        reveal_with_fuel(estrin_at, 3);
    }
    x2.mul_add(c2, x.mul_add(c1, c0))
}

/// The polynomial of degree 3 with the coefficients `c0` to `c3`.
#[inline(always)]
pub fn poly_3<F: PolyNum>(x: F, x2: F, c0: F, c1: F, c2: F, c3: F) -> (r: F)
    ensures
        r == estrin(seq![x, x2], seq![c0, c1, c2, c3]),
{
    proof {
        reveal_with_fuel(width, 3);
        reveal_with_fuel(estrin_at, 3);
    }
    x2.mul_add(x.mul_add(c3, c2), x.mul_add(c1, c0))
}

/// The polynomial of degree 4 with the coefficients `c0` to `c4`.
#[inline(always)]
pub fn poly_4<F: PolyNum>(x: F, x2: F, x4: F, c0: F, c1: F, c2: F, c3: F, c4: F) -> (r: F)
    ensures
        r == estrin(seq![x, x2, x4], seq![c0, c1, c2, c3, c4]),
{
    proof {
        reveal_with_fuel(width, 4);
        reveal_with_fuel(estrin_at, 4);
    }
    x4.mul_add(
        c4,
        x2.mul_add(x.mul_add(c3, c2), x.mul_add(c1, c0)),
    )
}

/// The polynomial of degree 5 with the coefficients `c0` to `c5`.
#[inline(always)]
pub fn poly_5<F: PolyNum>(x: F, x2: F, x4: F, c0: F, c1: F, c2: F, c3: F, c4: F, c5: F) -> (r: F)
    ensures
        r == estrin(seq![x, x2, x4], seq![c0, c1, c2, c3, c4, c5]),
{
    proof {
        reveal_with_fuel(width, 4);
        reveal_with_fuel(estrin_at, 4);
    }
    x4.mul_add(
        x.mul_add(c5, c4),
        x2.mul_add(x.mul_add(c3, c2), x.mul_add(c1, c0)),
    )
}

/// The polynomial of degree 6 with the coefficients `c0` to `c6`.
#[inline(always)]
pub fn poly_6<F: PolyNum>(
    x: F, x2: F, x4: F,
    c0: F, c1: F, c2: F, c3: F, c4: F, c5: F, c6: F,
) -> (r: F)
    ensures
        r == estrin(seq![x, x2, x4], seq![c0, c1, c2, c3, c4, c5, c6]),
{
    proof {
        reveal_with_fuel(width, 4);
        reveal_with_fuel(estrin_at, 4);
    }
    x4.mul_add(
        x2.mul_add(c6, x.mul_add(c5, c4)),
        x2.mul_add(x.mul_add(c3, c2), x.mul_add(c1, c0)),
    )
}

/// The polynomial of degree 7 with the coefficients `c0` to `c7`.
#[inline(always)]
pub fn poly_7<F: PolyNum>(
    x: F, x2: F, x4: F,
    c0: F, c1: F, c2: F, c3: F, c4: F, c5: F, c6: F, c7: F,
) -> (r: F)
    ensures
        r == estrin(seq![x, x2, x4], seq![c0, c1, c2, c3, c4, c5, c6, c7]),
{
    proof {
        reveal_with_fuel(width, 4);
        reveal_with_fuel(estrin_at, 4);
    }
    x4.mul_add(
        x2.mul_add(x.mul_add(c7, c6), x.mul_add(c5, c4)),
        x2.mul_add(x.mul_add(c3, c2), x.mul_add(c1, c0)),
    )
}

/// The polynomial of degree 8 with the coefficients `c0` to `c8`.
#[inline(always)]
pub fn poly_8<F: PolyNum>(
    x: F, x2: F, x4: F, x8: F,
    c0: F, c1: F, c2: F, c3: F, c4: F, c5: F, c6: F, c7: F, c8: F,
) -> (r: F)
    ensures
        r == estrin(seq![x, x2, x4, x8], seq![c0, c1, c2, c3, c4, c5, c6, c7, c8]),
{
    proof {
        reveal_with_fuel(width, 5);
        reveal_with_fuel(estrin_at, 5);
    }
    x8.mul_add(
        c8,
        x4.mul_add(
            x2.mul_add(x.mul_add(c7, c6), x.mul_add(c5, c4)),
            x2.mul_add(x.mul_add(c3, c2), x.mul_add(c1, c0)),
        ),
    )
}

/// The polynomial of degree 9 with the coefficients `c0` to `c9`.
#[inline(always)]
pub fn poly_9<F: PolyNum>(
    x: F, x2: F, x4: F, x8: F,
    c0: F, c1: F, c2: F, c3: F, c4: F, c5: F, c6: F, c7: F, c8: F, c9: F,
) -> (r: F)
    ensures
        r == estrin(seq![x, x2, x4, x8], seq![c0, c1, c2, c3, c4, c5, c6, c7, c8, c9]),
{
    proof {
        reveal_with_fuel(width, 5);
        reveal_with_fuel(estrin_at, 5);
    }
    x8.mul_add(
        x.mul_add(c9, c8),
        x4.mul_add(
            x2.mul_add(x.mul_add(c7, c6), x.mul_add(c5, c4)),
            x2.mul_add(x.mul_add(c3, c2), x.mul_add(c1, c0)),
        ),
    )
}

/// The polynomial of degree 10 with the coefficients `c0` to `c10`.
#[inline(always)]
pub fn poly_10<F: PolyNum>(
    x: F, x2: F, x4: F, x8: F,
    c0: F, c1: F, c2: F, c3: F, c4: F, c5: F, c6: F, c7: F, c8: F, c9: F, c10: F,
) -> (r: F)
    ensures
        r == estrin(seq![x, x2, x4, x8], seq![c0, c1, c2, c3, c4, c5, c6, c7, c8, c9, c10]),
{
    proof {
        reveal_with_fuel(width, 5);
        reveal_with_fuel(estrin_at, 5);
    }
    x8.mul_add(
        x2.mul_add(c10, x.mul_add(c9, c8)),
        x4.mul_add(
            x2.mul_add(x.mul_add(c7, c6), x.mul_add(c5, c4)),
            x2.mul_add(x.mul_add(c3, c2), x.mul_add(c1, c0)),
        ),
    )
}

/// The polynomial of degree 11 with the coefficients `c0` to `c11`.
#[inline(always)]
pub fn poly_11<F: PolyNum>(
    x: F, x2: F, x4: F, x8: F,
    c0: F, c1: F, c2: F, c3: F, c4: F, c5: F, c6: F, c7: F, c8: F, c9: F, c10: F, c11: F,
) -> (r: F)
    ensures
        r == estrin(seq![x, x2, x4, x8], seq![c0, c1, c2, c3, c4, c5, c6, c7, c8, c9, c10, c11]),
{
    proof {
        reveal_with_fuel(width, 5);
        reveal_with_fuel(estrin_at, 5);
    }
    x8.mul_add(
        x2.mul_add(x.mul_add(c11, c10), x.mul_add(c9, c8)),
        x4.mul_add(
            x2.mul_add(x.mul_add(c7, c6), x.mul_add(c5, c4)),
            x2.mul_add(x.mul_add(c3, c2), x.mul_add(c1, c0)),
        ),
    )
}

/// The polynomial of degree 12 with the coefficients `c0` to `c12`.
#[inline(always)]
pub fn poly_12<F: PolyNum>(
    x: F, x2: F, x4: F, x8: F,
    c0: F, c1: F, c2: F, c3: F, c4: F, c5: F, c6: F, c7: F, c8: F, c9: F, c10: F, c11: F,
    c12: F,
) -> (r: F)
    ensures
        r == estrin(
            seq![x, x2, x4, x8],
            seq![c0, c1, c2, c3, c4, c5, c6, c7, c8, c9, c10, c11, c12],
        ),
{
    proof {
        reveal_with_fuel(width, 5);
        reveal_with_fuel(estrin_at, 5);
    }
    x8.mul_add(
        x4.mul_add(
            c12,
            x2.mul_add(x.mul_add(c11, c10), x.mul_add(c9, c8)),
        ),
        x4.mul_add(
            x2.mul_add(x.mul_add(c7, c6), x.mul_add(c5, c4)),
            x2.mul_add(x.mul_add(c3, c2), x.mul_add(c1, c0)),
        ),
    )
}

/// The polynomial of degree 13 with the coefficients `c0` to `c13`.
#[inline(always)]
pub fn poly_13<F: PolyNum>(
    x: F, x2: F, x4: F, x8: F,
    c0: F, c1: F, c2: F, c3: F, c4: F, c5: F, c6: F, c7: F, c8: F, c9: F, c10: F, c11: F,
    c12: F, c13: F,
) -> (r: F)
    ensures
        r == estrin(
            seq![x, x2, x4, x8],
            seq![c0, c1, c2, c3, c4, c5, c6, c7, c8, c9, c10, c11, c12, c13],
        ),
{
    proof {
        reveal_with_fuel(width, 5);
        reveal_with_fuel(estrin_at, 5);
    }
    x8.mul_add(
        x4.mul_add(
            x.mul_add(c13, c12),
            x2.mul_add(x.mul_add(c11, c10), x.mul_add(c9, c8)),
        ),
        x4.mul_add(
            x2.mul_add(x.mul_add(c7, c6), x.mul_add(c5, c4)),
            x2.mul_add(x.mul_add(c3, c2), x.mul_add(c1, c0)),
        ),
    )
}

/// The polynomial of degree 14 with the coefficients `c0` to `c14`.
#[inline(always)]
pub fn poly_14<F: PolyNum>(
    x: F, x2: F, x4: F, x8: F,
    c0: F, c1: F, c2: F, c3: F, c4: F, c5: F, c6: F, c7: F, c8: F, c9: F, c10: F, c11: F,
    c12: F, c13: F, c14: F,
) -> (r: F)
    ensures
        r == estrin(
            seq![x, x2, x4, x8],
            seq![
                c0, c1, c2, c3, c4, c5, c6, c7, c8, c9, c10, c11, c12, c13, c14,
            ],
        ),
{
    proof {
        reveal_with_fuel(width, 5);
        reveal_with_fuel(estrin_at, 5);
    }
    x8.mul_add(
        x4.mul_add(
            x2.mul_add(c14, x.mul_add(c13, c12)),
            x2.mul_add(x.mul_add(c11, c10), x.mul_add(c9, c8)),
        ),
        x4.mul_add(
            x2.mul_add(x.mul_add(c7, c6), x.mul_add(c5, c4)),
            x2.mul_add(x.mul_add(c3, c2), x.mul_add(c1, c0)),
        ),
    )
}

/// The polynomial of degree 15 with the coefficients `c0` to `c15`.
#[inline(always)]
pub fn poly_15<F: PolyNum>(
    x: F, x2: F, x4: F, x8: F,
    c0: F, c1: F, c2: F, c3: F, c4: F, c5: F, c6: F, c7: F, c8: F, c9: F, c10: F, c11: F,
    c12: F, c13: F, c14: F, c15: F,
) -> (r: F)
    ensures
        r == estrin(
            seq![x, x2, x4, x8],
            seq![
                c0, c1, c2, c3, c4, c5, c6, c7, c8, c9, c10, c11, c12, c13, c14, c15,
            ],
        ),
{
    proof {
        reveal_with_fuel(width, 5);
        reveal_with_fuel(estrin_at, 5);
    }
    x8.mul_add(
        x4.mul_add(
            x2.mul_add(x.mul_add(c15, c14), x.mul_add(c13, c12)),
            x2.mul_add(x.mul_add(c11, c10), x.mul_add(c9, c8)),
        ),
        x4.mul_add(
            x2.mul_add(x.mul_add(c7, c6), x.mul_add(c5, c4)),
            x2.mul_add(x.mul_add(c3, c2), x.mul_add(c1, c0)),
        ),
    )
}

/// The polynomial of degree 31 with the coefficients `c00` to `c31`.
#[inline(always)]
pub fn poly_31<F: PolyNum>(
    x: F, x2: F, x4: F, x8: F, x16: F,
    c00: F, c01: F, c02: F, c03: F, c04: F, c05: F, c06: F, c07: F, c08: F, c09: F, c10: F,
    c11: F, c12: F, c13: F, c14: F, c15: F, c16: F, c17: F, c18: F, c19: F, c20: F, c21: F,
    c22: F, c23: F, c24: F, c25: F, c26: F, c27: F, c28: F, c29: F, c30: F, c31: F,
) -> (r: F)
    ensures
        r == estrin(
            seq![x, x2, x4, x8, x16],
            seq![
                c00, c01, c02, c03, c04, c05, c06, c07, c08, c09, c10, c11, c12, c13, c14, c15,
                c16, c17, c18, c19, c20, c21, c22, c23, c24, c25, c26, c27, c28, c29, c30, c31,
            ],
        ),
{
    proof {
        reveal_with_fuel(width, 6);
        reveal_with_fuel(estrin_at, 6);
    }
    x16.mul_add(
        x8.mul_add(
            x4.mul_add(
                x2.mul_add(x.mul_add(c31, c30), x.mul_add(c29, c28)),
                x2.mul_add(x.mul_add(c27, c26), x.mul_add(c25, c24)),
            ),
            x4.mul_add(
                x2.mul_add(x.mul_add(c23, c22), x.mul_add(c21, c20)),
                x2.mul_add(x.mul_add(c19, c18), x.mul_add(c17, c16)),
            ),
        ),
        x8.mul_add(
            x4.mul_add(
                x2.mul_add(x.mul_add(c15, c14), x.mul_add(c13, c12)),
                x2.mul_add(x.mul_add(c11, c10), x.mul_add(c09, c08)),
            ),
            x4.mul_add(
                x2.mul_add(x.mul_add(c07, c06), x.mul_add(c05, c04)),
                x2.mul_add(x.mul_add(c03, c02), x.mul_add(c01, c00)),
            ),
        ),
    )
}

/// A tree of more levels spans more.
pub proof fn lemma_width_grows(k: nat, above: nat)
    requires
        k <= above,
    ensures
        1 <= width(k) <= width(above),
    decreases above,
{
    if k < above {
        lemma_width_grows(k, (above - 1) as nat);
    } else if k > 0 {
        lemma_width_grows((k - 1) as nat, (k - 1) as nat);
    }
}

/// An Estrin tree reads `pows` below its level and `c` within its range
/// only: two trees that agree there have the same value.
pub proof fn lemma_estrin_reads<F: PolyNum>(
    p: Seq<F>,
    c: Seq<F>,
    lo: int,
    q: Seq<F>,
    d: Seq<F>,
    at: int,
    n: int,
    k: nat,
)
    requires
        1 <= n <= width(k),
        0 <= lo && lo + n <= c.len(),
        0 <= at && at + n <= d.len(),
        forall|i: int| 0 <= i < k ==> p[i] == q[i],
        c.subrange(lo, lo + n) == d.subrange(at, at + n),
    ensures
        estrin_at(p, c, lo, n, k) == estrin_at(q, d, at, n, k),
    decreases k,
{
    let left = c.subrange(lo, lo + n);
    let right = d.subrange(at, at + n);
    if k > 0 {
        let below = (k - 1) as nat;
        let half = width(below) as int;
        if n <= half {
            lemma_estrin_reads(p, c, lo, q, d, at, n, below);
        } else {
            assert(c.subrange(lo + half, lo + n) =~= left.subrange(half, n));
            assert(d.subrange(at + half, at + n) =~= right.subrange(half, n));
            assert(c.subrange(lo, lo + half) =~= left.subrange(0, half));
            assert(d.subrange(at, at + half) =~= right.subrange(0, half));
            lemma_estrin_reads(p, c, lo + half, q, d, at + half, n - half, below);
            lemma_estrin_reads(p, c, lo, q, d, at, half, below);
        }
    } else {
        assert(c[lo] == left[0]);
        assert(d[at] == right[0]);
    }
}

/// Levels above what the coefficients need change nothing.
pub proof fn lemma_estrin_levels<F: PolyNum>(
    p: Seq<F>,
    c: Seq<F>,
    lo: int,
    n: int,
    k: nat,
    above: nat,
)
    requires
        1 <= n <= width(k),
        k <= above,
    ensures
        estrin_at(p, c, lo, n, above) == estrin_at(p, c, lo, n, k),
    decreases above,
{
    if k < above {
        lemma_width_grows(k, (above - 1) as nat);
        lemma_estrin_levels(p, c, lo, n, k, (above - 1) as nat);
    }
}

} // verus!
