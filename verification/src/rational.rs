//! Evaluation of a rational polynomial, the quotient of two polynomials.
//!
//! Where the input's magnitude exceeds one and a polynomial has more than two
//! coefficients, the powers of the input grow, and with them the rounding
//! error. The evaluator then works with the reciprocal `z = 1 / x`: it
//! evaluates both polynomials at `z` with their coefficients in reverse
//! order, which keeps every power within one, and divides. The quotient
//! differs from the wanted one by a power of `x` where the two polynomials
//! are of different length; that power is multiplied in afterwards.
use crate::evaluate::{poly_f_internal, poly_value, read, read_as, reads_as, yields};
use crate::scalar::{PolyNum, PolyRational};
use vstd::prelude::*;

verus! {

/// `r * u^e`, by squaring: the bits of `e` are read from the lowest, `r` is
/// multiplied by the current power of `u` where a bit is set, and `u` is
/// squared between two bits.
pub open spec fn times_power<F: PolyNum>(r: F, u: F, e: nat) -> F
    decreases e,
{
    let scaled = if e % 2 == 1 {
        r.product(u)
    } else {
        r
    };
    if e / 2 == 0 {
        scaled
    } else {
        times_power(scaled, u.product(u), e / 2)
    }
}

/// Whether the evaluator works with the reciprocal of `x`: one of the
/// polynomials has more than two coefficients, and `x * x` exceeds one.
pub open spec fn inverts<F: PolyRational>(x: F, p: nat, q: nat) -> bool {
    (p > 2 || q > 2) && x.product(x).exceeds(F::one_value())
}

/// The value that the evaluators compute for the quotient of the polynomial
/// with the coefficients `num` by the one with the coefficients `den`,
/// at `x`.
pub open spec fn rational_value<F: PolyRational>(x: F, num: Seq<F>, den: Seq<F>) -> F {
    let p = num.len();
    let q = den.len();
    if inverts(x, p, q) {
        let z = F::one_value().quotient(x);
        let res = poly_value(z, num.reverse()).quotient(poly_value(z, den.reverse()));
        if p == q {
            res
        } else if p < q {
            times_power(res, z, (q - p) as nat)
        } else {
            times_power(res, x, (p - q) as nat)
        }
    } else {
        poly_value(x, num).quotient(poly_value(x, den))
    }
}

/// `r` is the value at `x` of a rational polynomial whose `p` numerator
/// coefficients `numerator` can answer, and whose `q` denominator
/// coefficients `denominator` can.
pub open spec fn evaluates_rational<F: PolyRational, N: Fn(usize) -> F, D: Fn(usize) -> F>(
    numerator: N,
    p: usize,
    denominator: D,
    q: usize,
    x: F,
    r: F,
) -> bool {
    exists|a: Seq<F>, b: Seq<F>|
        a.len() == p && b.len() == q && #[trigger] yields(numerator, a) && #[trigger] yields(
            denominator,
            b,
        ) && r == rational_value(x, a, b)
}

/// What answers the reverse of `c` in reverse order answers `c`.
proof fn lemma_mirrored<F, G: Fn(usize) -> F, M: Fn(usize) -> F>(g: G, m: M, c: Seq<F>)
    requires
        c.len() <= usize::MAX,
        yields(m, c),
        forall|i: usize, v: F|
            i < c.len() && call_ensures(m, (i,), v) ==> call_ensures(
                g,
                ((c.len() - i - 1) as usize,),
                v,
            ),
    ensures
        yields(g, c.reverse()),
        c.reverse().reverse() == c,
{
    let back = c.reverse();
    assert forall|i: usize| i < back.len() implies call_ensures(
        g,
        (i,),
        #[trigger] back[i as int],
    ) by {
        let from = (c.len() - i - 1) as usize;
        assert(back[i as int] == c[from as int]);
        assert(call_ensures(m, (from,), c[from as int]));
    }
    assert(back.reverse() =~= c);
}

/// The evaluator behind every entry point. `P` and `Q` are the numbers of
/// coefficients where the caller knows them at compile time, and both zero
/// where it does not.
#[inline(always)]
fn rational_f_internal<
    F: PolyRational,
    N: Fn(usize) -> F,
    D: Fn(usize) -> F,
    const P: usize,
    const Q: usize,
>(x: F, p: usize, q: usize, numerator: N, denominator: D) -> (r: F)
    requires
        (P == 0 && Q == 0) || (p == P && q == Q),
        forall|i: usize| i < p ==> call_requires(numerator, (i,)),
        forall|i: usize| i < q ==> call_requires(denominator, (i,)),
    ensures
        evaluates_rational(numerator, p, denominator, q, x, r),
{
    // lengths known at compile time decide there which branches are taken
    let p = if P > 0 {
        P
    } else {
        p
    };
    let q = if Q > 0 {
        Q
    } else {
        q
    };
    let one = F::one();

    // by the lengths known at compile time, or else by those given
    let high_degree = (P > 2 || Q > 2) || (P == 0 && Q == 0 && (p > 2 || q > 2));

    if high_degree && x.mul(x).gt(one) {
        // With z = 1 / x the powers stay within one, where the numbers are
        // densest.
        let z = one.div(x);

        let forwards = &numerator;
        let mirrored_numerator = |i: usize| -> (c: F)
            requires
                i < p,
            ensures
                call_ensures(*forwards, ((p - i - 1) as usize,), c),
            { forwards(p - i - 1) };
        let forwards = &denominator;
        let mirrored_denominator = |i: usize| -> (c: F)
            requires
                i < q,
            ensures
                call_ensures(*forwards, ((q - i - 1) as usize,), c),
            { forwards(q - i - 1) };
        let n = poly_f_internal::<F, _, P>(z, p, mirrored_numerator);
        let d = poly_f_internal::<F, _, Q>(z, q, mirrored_denominator);

        let mut res = n.div(d);
        let ghost quotient = res;
        proof {
            let a = choose|c: Seq<F>|
                c.len() == p && #[trigger] yields(mirrored_numerator, c) && n == poly_value(z, c);
            let b = choose|c: Seq<F>|
                c.len() == q && #[trigger] yields(mirrored_denominator, c) && d == poly_value(z, c);
            lemma_mirrored(numerator, mirrored_numerator, a);
            lemma_mirrored(denominator, mirrored_denominator, b);
        }

        // polynomials of one length need no correction
        if P == Q && (P > 0 || p == q) {
            return res;
        }
        // otherwise the quotient is off by the power of x, or of z, that
        // the lengths differ by

        let (mut u, mut e) = if p < q {
            (z, q - p)
        } else {
            (x, p - q)
        };
        let ghost base = u;
        let ghost exponent = e;

        loop
            invariant_except_break
                e > 0,
                times_power(res, u, e as nat) == times_power(quotient, base, exponent as nat),
            ensures
                res == times_power(quotient, base, exponent as nat),
            decreases e,
        {
            assert(e & 1 == e % 2 && e >> 1 == e / 2) by (bit_vector);
            if e & 1 != 0 {
                res = res.mul(u);
            }
            e >>= 1;

            if e == 0 {
                break ;
            }
            u = u.mul(u);
        }
        return res;
    }
    // otherwise evaluate as given

    let n = poly_f_internal::<F, _, P>(x, p, numerator);
    let d = poly_f_internal::<F, _, Q>(x, q, denominator);
    n.div(d)
}

/// Evaluates the rational polynomial whose `p` numerator and `q`
/// denominator coefficients the two functions answer by index.
///
/// Each function is asked for each index below its length once, forwards or
/// backwards, and for no other.
#[inline]
pub fn rational_f<F: PolyRational, N: Fn(usize) -> F, D: Fn(usize) -> F>(
    x: F,
    p: usize,
    q: usize,
    numerator: N,
    denominator: D,
) -> (r: F)
    requires
        forall|i: usize| i < p ==> call_requires(numerator, (i,)),
        forall|i: usize| i < q ==> call_requires(denominator, (i,)),
    ensures
        evaluates_rational(numerator, p, denominator, q, x, r),
{
    rational_f_internal::<F, N, D, 0, 0>(x, p, q, numerator, denominator)
}

/// Evaluates the rational polynomial whose `P` numerator and `Q`
/// denominator coefficients the two functions answer by index. With the
/// lengths known at compile time, the choice of the evaluators is made
/// there.
#[inline]
pub fn rational_f_n<
    F: PolyRational,
    N: Fn(usize) -> F,
    D: Fn(usize) -> F,
    const P: usize,
    const Q: usize,
>(x: F, numerator: N, denominator: D) -> (r: F)
    requires
        forall|i: usize| i < P ==> call_requires(numerator, (i,)),
        forall|i: usize| i < Q ==> call_requires(denominator, (i,)),
    ensures
        evaluates_rational(numerator, P, denominator, Q, x, r),
{
    rational_f_internal::<F, N, D, P, Q>(x, P, Q, numerator, denominator)
}

/// Evaluates the quotient of the polynomial with the coefficients
/// `numerator` by the one with the coefficients `denominator`, at `x`. The
/// two need not be of one length.
pub fn rational<F: PolyRational>(x: F, numerator: &[F], denominator: &[F]) -> (r: F)
    ensures
        r == rational_value(x, numerator@, denominator@),
{
    let above = |i: usize| -> (c: F)
        requires
            i < numerator@.len(),
        ensures
            c == numerator@[i as int],
        { numerator[i] };
    let below = |i: usize| -> (c: F)
        requires
            i < denominator@.len(),
        ensures
            c == denominator@[i as int],
        { denominator[i] };
    let r = rational_f_internal::<F, _, _, 0, 0>(
        x,
        numerator.len(),
        denominator.len(),
        above,
        below,
    );
    proof {
        let (a, b) = choose|a: Seq<F>, b: Seq<F>|
            a.len() == numerator@.len() && b.len() == denominator@.len() && #[trigger] yields(
                above,
                a,
            ) && #[trigger] yields(below, b) && r == rational_value(x, a, b);
        assert(a =~= numerator@);
        assert(b =~= denominator@);
    }
    r
}

/// Evaluates the quotient of the polynomial with the coefficients
/// `numerator` by the one with the coefficients `denominator`, at `x`. With
/// the lengths known at compile time, the choice of the evaluators is made
/// there.
#[inline(always)]
pub fn rational_array<F: PolyRational, const P: usize, const Q: usize>(
    x: F,
    numerator: &[F; P],
    denominator: &[F; Q],
) -> (r: F)
    ensures
        r == rational_value(x, numerator@, denominator@),
{
    let above = |i: usize| -> (c: F)
        requires
            i < P,
        ensures
            c == numerator@[i as int],
        { numerator[i] };
    let below = |i: usize| -> (c: F)
        requires
            i < Q,
        ensures
            c == denominator@[i as int],
        { denominator[i] };
    let r = rational_f_n::<F, _, _, P, Q>(x, above, below);
    proof {
        let (a, b) = choose|a: Seq<F>, b: Seq<F>|
            a.len() == P && b.len() == Q && #[trigger] yields(above, a) && #[trigger] yields(
                below,
                b,
            ) && r == rational_value(x, a, b);
        assert(a =~= numerator@);
        assert(b =~= denominator@);
    }
    r
}

/// Evaluates the rational polynomial whose coefficients are stored in
/// another type than the one it is evaluated in. Each coefficient is cloned
/// and converted when its turn comes.
#[inline(always)]
pub fn rational_array_t<F: PolyRational, T: Clone + Into<F>, const P: usize, const Q: usize>(
    x: F,
    numerator: &[T; P],
    denominator: &[T; Q],
) -> (r: F)
    ensures
        exists|a: Seq<F>, b: Seq<F>| #[trigger]
            read_as(numerator@, a) && #[trigger] read_as(denominator@, b) && r == rational_value(
                x,
                a,
                b,
            ),
{
    let above = |i: usize| -> (c: F)
        requires
            i < P,
        ensures
            reads_as(numerator@[i as int], c),
        { read(&numerator[i]) };
    let below = |i: usize| -> (c: F)
        requires
            i < Q,
        ensures
            reads_as(denominator@[i as int], c),
        { read(&denominator[i]) };
    let r = rational_f_n::<F, _, _, P, Q>(x, above, below);
    proof {
        let (a, b) = choose|a: Seq<F>, b: Seq<F>|
            a.len() == P && b.len() == Q && #[trigger] yields(above, a) && #[trigger] yields(
                below,
                b,
            ) && r == rational_value(x, a, b);
        assert(read_as(numerator@, a));
        assert(read_as(denominator@, b));
    }
    r
}

/// Two functions that can answer only the coefficients of `num` and of
/// `den` are evaluated to the value of the two sequences.
pub proof fn lemma_functions_are_sequences<F: PolyRational, N: Fn(usize) -> F, D: Fn(usize) -> F>(
    numerator: N,
    denominator: D,
    num: Seq<F>,
    den: Seq<F>,
    x: F,
    r: F,
)
    requires
        num.len() <= usize::MAX,
        den.len() <= usize::MAX,
        forall|i: usize, v: F|
            i < num.len() && call_ensures(numerator, (i,), v) ==> v == num[i as int],
        forall|i: usize, v: F|
            i < den.len() && call_ensures(denominator, (i,), v) ==> v == den[i as int],
        evaluates_rational(numerator, num.len() as usize, denominator, den.len() as usize, x, r),
    ensures
        r == rational_value(x, num, den),
{
    let (a, b) = choose|a: Seq<F>, b: Seq<F>|
        a.len() == num.len() && b.len() == den.len() && #[trigger] yields(numerator, a)
            && #[trigger] yields(denominator, b) && r == rational_value(x, a, b);
    assert(a =~= num);
    assert(b =~= den);
}

} // verus!
