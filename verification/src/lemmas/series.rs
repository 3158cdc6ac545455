//! The polynomials of sine and cosine against the exact Taylor sums.
//!
//! The library evaluates the Taylor polynomials from the innermost term
//! outwards and rounds down after every product and quotient. Here the same
//! nesting is written out exactly, as a fraction, and the rounded value is
//! shown to differ from it by no more than three units of the last of the
//! 62 fractional bits; the sine, with its last product, by no more than
//! four.

use vstd::prelude::*;
use crate::lemmas::rounding::lemma_cancel;
use crate::scalar::magnitude;
use crate::trig::{lemma_series_bounds, series_tail, wide_sin_cos, QUARTER_TURN, WIDE_ONE};

verus! {

/// The divisor of the term `k` of a Taylor polynomial: `(2k)(2k + 1)` for
/// the sine and `(2k - 1)(2k)` for the cosine.
pub open spec fn divisor(k: int, odd: bool) -> int {
    if odd {
        (2 * k) * (2 * k + 1)
    } else {
        (2 * k - 1) * (2 * k)
    }
}

/// The denominator of `exact_tail`.
pub open spec fn exact_tail_denominator(k: int, odd: bool) -> int
    decreases 10 - k,
{
    if k < 1 || k > 9 {
        1
    } else {
        (WIDE_ONE * divisor(k, odd)) * (WIDE_ONE * exact_tail_denominator(k + 1, odd))
    }
}

/// The numerator of the exact factor `1 - x^2 / d_k * (1 - x^2 / d_(k+1) *
/// (...))` of a Taylor polynomial, from the term `k` to the term 9, at the
/// argument `x = ya / 2^62`; its denominator is `exact_tail_denominator`.
///
/// From the term one on, the factor is the Taylor sum of degree 18 of the
/// cosine and, times `x`, that of degree 19 of the sine.
pub open spec fn exact_tail_numerator(ya: int, k: int, odd: bool) -> int
    decreases 10 - k,
{
    if k < 1 || k > 9 {
        1
    } else {
        exact_tail_denominator(k, odd) - (ya * ya) * exact_tail_numerator(ya, k + 1, odd)
    }
}

/// One step of the nesting: what the rounded factor is off by, from what
/// the next one is off by.
///
/// `t` and `next` are the rounded factors of this term and the next, `n`
/// and `dn` the exact numerator and denominator of the next.
proof fn lemma_tail_step(ya: int, d: int, next: int, t: int, n: int, dn: int)
    requires
        0 <= ya <= WIDE_ONE,
        d >= 2,
        0 <= next <= WIDE_ONE,
        dn > 0,
        t == WIDE_ONE - ((ya * ya / (WIDE_ONE as int)) * next / (WIDE_ONE as int)) / d,
        magnitude(next * dn - WIDE_ONE * n) <= 3 * dn,
    ensures
        ({
            let den = (WIDE_ONE * d) * (WIDE_ONE * dn);
            let num = den - (ya * ya) * n;
            &&& den > 0
            &&& magnitude(t * den - WIDE_ONE * num) <= 3 * den
        }),
{
    let one = WIDE_ONE as int;
    let ya2 = ya * ya;
    let y2 = ya2 / one;
    let rho = ya2 - y2 * one;
    let a = y2 * next;
    let b = a / one;
    let f = b / d;
    let m = one * d;
    let r = a - f * m;
    let p = next * dn;
    let q = one * dn;
    let den = m * q;
    let num = den - ya2 * n;
    let off = p - one * n;
    assert(0 <= ya2 <= one * one) by (nonlinear_arith)
        requires
            0 <= ya <= one,
            ya2 == ya * ya,
    ;
    assert(0 <= rho < one && 0 <= y2 <= one) by (nonlinear_arith)
        requires
            y2 == ya2 / one,
            rho == ya2 - y2 * one,
            0 <= ya2 <= one * one,
            one > 0,
    ;
    assert(a >= 0) by (nonlinear_arith)
        requires
            a == y2 * next,
            y2 >= 0,
            next >= 0,
    ;
    assert(0 <= r < m && f >= 0) by (nonlinear_arith)
        requires
            a >= 0,
            b == a / one,
            f == b / d,
            m == one * d,
            r == a - f * m,
            one > 0,
            d >= 2,
    ;
    // one a dn, written in two ways.
    assert((one * a) * dn == (ya2 - rho) * p) by (nonlinear_arith)
        requires
            a == y2 * next,
            rho == ya2 - y2 * one,
            p == next * dn,
    ;
    assert((one * a) * dn == f * den + r * q) by (nonlinear_arith)
        requires
            r == a - f * m,
            q == one * dn,
            den == m * q,
    ;
    let e = t * den - one * num;
    assert(e == r * q + rho * p - ya2 * off) by (nonlinear_arith)
        requires
            e == t * den - one * num,
            t == one - f,
            num == den - ya2 * n,
            off == p - one * n,
            f * den + r * q == (ya2 - rho) * p,
    ;
    assert(q > 0 && 0 <= p <= q && den >= 2 * (one * q) && den > 0) by (nonlinear_arith)
        requires
            one > 0,
            dn > 0,
            d >= 2,
            0 <= next <= one,
            p == next * dn,
            q == one * dn,
            m == one * d,
            den == m * q,
    ;
    assert(0 <= r * q <= den) by (nonlinear_arith)
        requires
            0 <= r < m,
            q > 0,
            den == m * q,
    ;
    assert(0 <= rho * p <= one * q) by (nonlinear_arith)
        requires
            0 <= rho < one,
            0 <= p <= q,
    ;
    assert(-(3 * (one * q)) <= ya2 * off <= 3 * (one * q)) by (nonlinear_arith)
        requires
            0 <= ya2 <= one * one,
            -(3 * dn) <= off <= 3 * dn,
            q == one * dn,
            dn > 0,
            one > 0,
    ;
}

/// The rounded factor of a Taylor polynomial is within three units of the
/// last place of the exact one.
pub proof fn lemma_series_is_nearly_exact(ya: int, k: int, odd: bool)
    requires
        0 <= ya <= WIDE_ONE,
        1 <= k <= 10,
    ensures
        exact_tail_denominator(k, odd) > 0,
        magnitude(
            series_tail(ya * ya / (WIDE_ONE as int), k, odd) * exact_tail_denominator(k, odd)
                - WIDE_ONE * exact_tail_numerator(ya, k, odd),
        ) <= 3 * exact_tail_denominator(k, odd),
    decreases 10 - k,
{
    let one = WIDE_ONE as int;
    let y2 = ya * ya / one;
    if k <= 9 {
        lemma_series_is_nearly_exact(ya, k + 1, odd);
        assert(0 <= y2 <= one) by (nonlinear_arith)
            requires
                0 <= ya <= one,
                y2 == ya * ya / one,
                one > 0,
        ;
        lemma_series_bounds(y2, k + 1, odd);
        let d = divisor(k, odd);
        assert(d >= 2) by (nonlinear_arith)
            requires
                1 <= k <= 9,
                d == (2 * k) * (2 * k + 1) || d == (2 * k - 1) * (2 * k),
        ;
        assert(0 <= one - y2);
        lemma_tail_step(
            ya,
            d,
            series_tail(y2, k + 1, odd),
            series_tail(y2, k, odd),
            exact_tail_numerator(ya, k + 1, odd),
            exact_tail_denominator(k + 1, odd),
        );
    }
}

/// The polynomial of the cosine is within three units of the last place of
/// the Taylor sum of degree 18 at `x = ya / 2^62`, and the polynomial of
/// the sine within four of the Taylor sum of degree 19.
pub proof fn lemma_polynomials_are_nearly_exact(ya: int)
    requires
        0 <= ya <= WIDE_ONE,
    ensures
        ({
            let y2 = ya * ya / (WIDE_ONE as int);
            let cosine = series_tail(y2, 1, false);
            let sine = ya * series_tail(y2, 1, true) / (WIDE_ONE as int);
            &&& exact_tail_denominator(1, false) > 0
            &&& exact_tail_denominator(1, true) > 0
            &&& magnitude(
                cosine * exact_tail_denominator(1, false) - WIDE_ONE * exact_tail_numerator(
                    ya,
                    1,
                    false,
                ),
            ) <= 3 * exact_tail_denominator(1, false)
            &&& magnitude(
                sine * exact_tail_denominator(1, true) - ya * exact_tail_numerator(ya, 1, true),
            ) <= 4 * exact_tail_denominator(1, true)
        }),
{
    let one = WIDE_ONE as int;
    let y2 = ya * ya / one;
    lemma_series_is_nearly_exact(ya, 1, false);
    lemma_series_is_nearly_exact(ya, 1, true);
    let t = series_tail(y2, 1, true);
    let den = exact_tail_denominator(1, true);
    let num = exact_tail_numerator(ya, 1, true);
    let sine = ya * t / one;
    let r = ya * t - sine * one;
    assert(0 <= y2 <= one) by (nonlinear_arith)
        requires
            0 <= ya <= one,
            y2 == ya * ya / one,
            one > 0,
    ;
    lemma_series_bounds(y2, 1, true);
    assert(0 <= r < one) by (nonlinear_arith)
        requires
            sine == ya * t / one,
            r == ya * t - sine * one,
            ya >= 0,
            t >= 0,
            one > 0,
    ;
    let off = t * den - one * num;
    let e = sine * den - ya * num;
    assert(one * e == ya * off - r * den) by (nonlinear_arith)
        requires
            e == sine * den - ya * num,
            off == t * den - one * num,
            r == ya * t - sine * one,
    ;
    assert(-(3 * (den * one)) <= ya * off <= 3 * (den * one) && 0 <= r * den <= den * one && (4
        * den) * one == 4 * (den * one)) by (nonlinear_arith)
        requires
            0 <= ya <= one,
            -(3 * den) <= off <= 3 * den,
            0 <= r < one,
            den > 0,
    ;
    lemma_cancel(one, e, 4 * den);
}

/// For an angle of less than an eighth of a turn, which needs no reduction,
/// the cosine that the polynomials give is within three units of the last
/// of its 62 fractional bits of the Taylor sum of degree 18 at the angle
/// itself, and the sine within four of the Taylor sum of degree 19.
pub proof fn lemma_wide_sin_cos_is_nearly_exact(t: int)
    requires
        2 * (magnitude(t) * 0x1_0000_0000) < QUARTER_TURN,
    ensures
        ({
            let x = t * 0x4000;
            let ya = magnitude(t) * 0x4000;
            let (sine, cosine) = wide_sin_cos(t);
            &&& exact_tail_denominator(1, false) > 0
            &&& exact_tail_denominator(1, true) > 0
            &&& magnitude(
                cosine * exact_tail_denominator(1, false) - WIDE_ONE * exact_tail_numerator(
                    ya,
                    1,
                    false,
                ),
            ) <= 3 * exact_tail_denominator(1, false)
            &&& magnitude(
                sine * exact_tail_denominator(1, true) - x * exact_tail_numerator(ya, 1, true),
            ) <= 4 * exact_tail_denominator(1, true)
        }),
{
    let one = WIDE_ONE as int;
    let u = magnitude(t) * 0x1_0000_0000;
    let n = (u + QUARTER_TURN / 2) / (QUARTER_TURN as int);
    assert(n == 0);
    let y = u - n * QUARTER_TURN;
    assert(y == u);
    let ya = magnitude(t) * 0x4000;
    assert((if y < 0 { -y } else { y }) / 0x4_0000 == ya);
    assert(0 <= ya <= one);
    lemma_polynomials_are_nearly_exact(ya);
    let y2 = ya * ya / one;
    let s = ya * series_tail(y2, 1, true) / one;
    let den = exact_tail_denominator(1, true);
    let num = exact_tail_numerator(ya, 1, true);
    assert(wide_sin_cos(t).1 == series_tail(y2, 1, false));
    assert(wide_sin_cos(t).0 == if t < 0 { -s } else { s });
    assert((-s) * den == -(s * den) && (-ya) * num == -(ya * num)) by (nonlinear_arith);
}

} // verus!
