//! What rounding does to products and quotients of scalars.

use vstd::prelude::*;
use crate::lemmas::exact::{lemma_bounded_product, Lipschitz};
use crate::quaternion::Quaternion;
use crate::scalar::{magnitude, ONE_RAW, round_div, Scalar};

verus! {

/// A rounded quotient times the divisor differs from the dividend by at most
/// half the divisor.
pub proof fn lemma_round_div_remainder(n: int, d: int)
    requires
        d > 0,
    ensures
        -d <= 2 * (n - d * round_div(n, d)) <= d,
{
    if n >= 0 {
        let k = (2 * n + d) / (2 * d);
        assert(0 <= (2 * n + d) - (2 * d) * k < 2 * d && (2 * d) * k == 2 * (d * k))
            by (nonlinear_arith)
            requires
                d > 0,
                k == (2 * n + d) / (2 * d),
        ;
    } else {
        let k = (-2 * n + d) / (2 * d);
        assert(0 <= (-2 * n + d) - (2 * d) * k < 2 * d && (2 * d) * k == 2 * (d * k) && d * (-k)
            == -(d * k)) by (nonlinear_arith)
            requires
                d > 0,
                k == (-2 * n + d) / (2 * d),
        ;
    }
}

/// A multiple of the divisor is divided without rounding.
pub proof fn lemma_round_div_exact(x: int, d: int)
    requires
        d > 0,
    ensures
        round_div(x * d, d) == x,
{
    if x * d >= 0 {
        assert((2 * (x * d) + d) / (2 * d) == x) by (nonlinear_arith)
            requires
                d > 0,
                x * d >= 0,
        ;
    } else {
        assert((-2 * (x * d) + d) / (2 * d) == -x) by (nonlinear_arith)
            requires
                d > 0,
                x * d < 0,
        ;
    }
}

/// A number whose multiple by a positive `d` is at most `k d` in magnitude
/// is at most `k` in magnitude.
pub proof fn lemma_cancel(d: int, x: int, k: int)
    requires
        d > 0,
        -(k * d) <= d * x <= k * d,
    ensures
        -k <= x <= k,
{
    assert(-k <= x <= k) by (nonlinear_arith)
        requires
            d > 0,
            -(k * d) <= d * x <= k * d,
    ;
}

/// A rounded quotient is at most `bound` in magnitude where the dividend is
/// less than `bound` and a half times the divisor.
pub proof fn lemma_round_div_bound(n: int, d: int, bound: int)
    requires
        d > 0,
        bound >= 0,
        2 * magnitude(n) < 2 * (bound * d) + d,
    ensures
        magnitude(round_div(n, d)) <= bound,
{
    lemma_round_div_remainder(n, d);
    let k = round_div(n, d);
    assert(-bound <= k <= bound) by (nonlinear_arith)
        requires
            d > 0,
            bound >= 0,
            -(2 * (bound * d) + d) < 2 * n < 2 * (bound * d) + d,
            -d <= 2 * (n - d * k) <= d,
    ;
}

/// The product of two finite scalars, whose magnitudes are bounded so that
/// the product of the bounds is at most `2^60`, is finite and at most `2^60`
/// raw units in magnitude; its raw value times one is the product of the raw
/// values but for a remainder of at most half of one.
pub proof fn lemma_mul_remainder(a: Scalar, b: Scalar, ma: int, mb: int) -> (r: int)
    requires
        a.is_finite(),
        b.is_finite(),
        magnitude(a.raw as int) <= ma,
        magnitude(b.raw as int) <= mb,
        ma * mb <= 0x1000_0000_0000_0000 * ONE_RAW,
    ensures
        (a * b).is_finite(),
        magnitude((a * b).raw as int) <= 0x1000_0000_0000_0000,
        ONE_RAW * (a * b).raw == a.raw * b.raw - r,
        -ONE_RAW <= 2 * r <= ONE_RAW,
{
    let s = ONE_RAW as int;
    let n = a.raw * b.raw;
    lemma_bounded_product(a.raw as int, b.raw as int, ma, mb);
    lemma_round_div_bound(n, s, 0x1000_0000_0000_0000);
    lemma_round_div_remainder(n, s);
    n - s * round_div(n, s)
}

/// `lemma_mul_remainder` for greater magnitudes: the product of the bounds
/// is at most `2^76`, and so is the product of the scalars.
pub proof fn lemma_mul_remainder_wide(a: Scalar, b: Scalar, ma: int, mb: int) -> (r: int)
    requires
        a.is_finite(),
        b.is_finite(),
        magnitude(a.raw as int) <= ma,
        magnitude(b.raw as int) <= mb,
        ma * mb <= 0x1000_0000_0000_0000_0000 * ONE_RAW,
    ensures
        (a * b).is_finite(),
        magnitude((a * b).raw as int) <= 0x1000_0000_0000_0000_0000,
        ONE_RAW * (a * b).raw == a.raw * b.raw - r,
        -ONE_RAW <= 2 * r <= ONE_RAW,
{
    let s = ONE_RAW as int;
    let n = a.raw * b.raw;
    lemma_bounded_product(a.raw as int, b.raw as int, ma, mb);
    lemma_round_div_bound(n, s, 0x1000_0000_0000_0000_0000);
    lemma_round_div_remainder(n, s);
    n - s * round_div(n, s)
}

/// The quotient of a finite scalar by a positive finite one, where the
/// dividend is at most `k` times the divisor in magnitude and `k` is at
/// most `2^14`, is finite and at most `k` in magnitude; its raw value times
/// the divisor is the dividend times one but for a remainder of at most half
/// the divisor.
pub proof fn lemma_div_remainder(a: Scalar, b: Scalar, k: int) -> (r: int)
    requires
        a.is_finite(),
        b.is_finite(),
        b.raw > 0,
        0 <= k <= 0x4000,
        magnitude(a.raw as int) <= k * b.raw,
    ensures
        (a / b).is_finite(),
        b.raw * (a / b).raw == a.raw * ONE_RAW - r,
        -b.raw <= 2 * r <= b.raw,
        magnitude((a / b).raw as int) <= k * ONE_RAW,
{
    let s = ONE_RAW as int;
    let n = a.raw * s;
    let d = b.raw as int;
    assert(2 * magnitude(n) < 2 * ((k * s) * d) + d && 0 <= k * s <= 0x4000 * s)
        by (nonlinear_arith)
        requires
            n == a.raw * s,
            s > 0,
            d > 0,
            0 <= k <= 0x4000,
            magnitude(a.raw as int) <= k * d,
    ;
    lemma_round_div_bound(n, d, k * s);
    lemma_round_div_remainder(n, d);
    n - d * round_div(n, d)
}

/// The sum, or the difference, of two scalars.
pub open spec fn combine(a: Scalar, b: Scalar, plus: bool) -> Scalar {
    if plus {
        a + b
    } else {
        a - b
    }
}

/// The sum, or the difference, of two integers.
pub open spec fn combine_units(a: int, b: int, plus: bool) -> int {
    if plus {
        a + b
    } else {
        a - b
    }
}

/// One part of a product of quaternions: four rounded products of scalars,
/// added or subtracted.
///
/// The part times one is the same sum of the exact products but for a
/// remainder of at most twice one.
proof fn lemma_part_remainder(
    a1: Scalar,
    b1: Scalar,
    a2: Scalar,
    b2: Scalar,
    a3: Scalar,
    b3: Scalar,
    a4: Scalar,
    b4: Scalar,
    plus: bool,
    ma: int,
    mb: int,
) -> (rho: int)
    requires
        a1.is_finite() && a2.is_finite() && a3.is_finite() && a4.is_finite(),
        b1.is_finite() && b2.is_finite() && b3.is_finite() && b4.is_finite(),
        magnitude(a1.raw as int) <= ma && magnitude(a2.raw as int) <= ma,
        magnitude(a3.raw as int) <= ma && magnitude(a4.raw as int) <= ma,
        magnitude(b1.raw as int) <= mb && magnitude(b2.raw as int) <= mb,
        magnitude(b3.raw as int) <= mb && magnitude(b4.raw as int) <= mb,
        ma * mb <= 0x1000_0000_0000_0000 * ONE_RAW,
    ensures
        ({
            let part = combine(
                combine(combine(a1 * b1, a2 * b2, plus), a3 * b3, plus),
                a4 * b4,
                false,
            );
            &&& part.is_finite()
            &&& ONE_RAW * part.raw == combine_units(
                combine_units(
                    combine_units(a1.raw * b1.raw, a2.raw * b2.raw, plus),
                    a3.raw * b3.raw,
                    plus,
                ),
                a4.raw * b4.raw,
                false,
            ) - rho
            &&& -(2 * ONE_RAW) <= rho <= 2 * ONE_RAW
        }),
{
    let r1 = lemma_mul_remainder(a1, b1, ma, mb);
    let r2 = lemma_mul_remainder(a2, b2, ma, mb);
    let r3 = lemma_mul_remainder(a3, b3, ma, mb);
    let r4 = lemma_mul_remainder(a4, b4, ma, mb);
    combine_units(combine_units(combine_units(r1, r2, plus), r3, plus), r4, false)
}

/// The product of two bounded quaternions, where the product of the bounds
/// is at most `2^60`, is finite; its parts times one are the parts of the
/// exact product of the raw values but for remainders of at most twice one.
pub proof fn lemma_product_remainder(p: Quaternion, q: Quaternion, mp: int, mq: int) -> (rho:
    Lipschitz)
    requires
        p.is_bounded(mp),
        q.is_bounded(mq),
        mp * mq <= 0x1000_0000_0000_0000 * ONE_RAW,
    ensures
        (p * q).is_finite(),
        (p * q).raws().scaled(ONE_RAW as int) == p.raws().product(q.raws()).minus(rho),
        rho.is_within(2 * ONE_RAW),
{
    let w = lemma_part_remainder(p.w, q.w, p.x, q.x, p.y, q.y, p.z, q.z, false, mp, mq);
    let x = lemma_part_remainder(p.w, q.x, p.x, q.w, p.y, q.z, p.z, q.y, true, mp, mq);
    let y = lemma_part_remainder(p.w, q.y, p.y, q.w, p.z, q.x, p.x, q.z, true, mp, mq);
    let z = lemma_part_remainder(p.w, q.z, p.z, q.w, p.x, q.y, p.y, q.x, true, mp, mq);
    lemma_mul_commutes(p.x, q.w);
    lemma_mul_commutes(p.y, q.w);
    lemma_mul_commutes(p.z, q.w);
    Lipschitz { w, x, y, z }
}

/// The product of two scalars is the same either way round.
pub proof fn lemma_mul_commutes(a: Scalar, b: Scalar)
    ensures
        a * b == b * a,
{
    assert(a.raw * b.raw == b.raw * a.raw) by (nonlinear_arith);
}

} // verus!
