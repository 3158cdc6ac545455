//! A unit quaternion times its inverse is the unit quaternion, to within a
//! few raw units.
//!
//! The inverse divides the conjugate by the square of the norm; its parts
//! and the sixteen products of the Hamilton product are each rounded by at
//! most half a raw unit. Multiplied out, the roundings move no part of the
//! product by more than thirteen raw units, about `5e-14`.

use vstd::prelude::*;
use crate::lemmas::exact::{
    lemma_conjugate_product, lemma_product_linear_right, lemma_product_within, Lipschitz,
};
use crate::lemmas::rounding::{
    lemma_cancel, lemma_div_remainder, lemma_mul_remainder, lemma_product_remainder,
};
use crate::lemmas::unit_norm::lemma_part_at_most_norm;
use crate::quaternion::{Quaternion, UNIT_TOLERANCE_RAW};
use crate::scalar::{floor_sqrt, lemma_floor_sqrt_exists, ONE_RAW};

verus! {

/// The inverse of a unit quaternion: its divisor `d`, the rounded square of
/// the norm, and the remainders of the four divisions.
///
/// Also what the sum of the squares of the parts exceeds `d` by, times one.
pub(crate) proof fn lemma_unit_inverse(q: Quaternion) -> (r: (int, Lipschitz, int))
    requires
        q.is_unit(),
    ensures
        q.is_bounded(2 * ONE_RAW),
        q.inv().is_bounded(2 * ONE_RAW),
        ONE_RAW - 2 * UNIT_TOLERANCE_RAW - 1 <= r.0 <= ONE_RAW + 2 * UNIT_TOLERANCE_RAW + 2,
        q.inv().raws().scaled(r.0) == q.raws().conjugate().scaled(ONE_RAW as int).minus(r.1),
        r.1.is_within(r.0),
        q.raws().norm_squared() == ONE_RAW * r.0 + r.2,
        -ONE_RAW <= r.2 <= 3 * ONE_RAW,
{
    let s = ONE_RAW as int;
    let t = UNIT_TOLERANCE_RAW as int;
    let (aw, ax, ay, az) = (q.w.raw as int, q.x.raw as int, q.y.raw as int, q.z.raw as int);
    let sum = q.raw_norm_squared();
    assert(aw * aw >= 0 && ax * ax >= 0 && ay * ay >= 0 && az * az >= 0) by (nonlinear_arith);
    lemma_floor_sqrt_exists(sum);
    let n = floor_sqrt(sum) as int;
    assert(q.norm().raw == n);
    lemma_part_at_most_norm(aw, ax * ax + ay * ay + az * az, n);
    lemma_part_at_most_norm(ax, aw * aw + ay * ay + az * az, n);
    lemma_part_at_most_norm(ay, aw * aw + ax * ax + az * az, n);
    lemma_part_at_most_norm(az, aw * aw + ax * ax + ay * ay, n);
    let extra = sum - n * n;
    assert(0 <= extra <= 2 * n) by (nonlinear_arith)
        requires
            n * n <= sum < (n + 1) * (n + 1),
            extra == sum - n * n,
    ;
    let norm = q.norm();
    assert((2 * s) * (2 * s) <= 0x1000_0000_0000_0000 * s) by (nonlinear_arith)
        requires
            s == 0x1_0000_0000_0000,
    ;
    let r0 = lemma_mul_remainder(norm, norm, 2 * s, 2 * s);
    let divisor = norm * norm;
    let d = divisor.raw as int;
    assert(s * d == n * n - r0);
    assert(s * (s - 2 * t) <= n * n <= s * (s + 2 * t + 1)) by (nonlinear_arith)
        requires
            s == 0x1_0000_0000_0000,
            t == 28147,
            s - t <= n <= s + t,
    ;
    assert(s - 2 * t - 1 <= d <= s + 2 * t + 2) by (nonlinear_arith)
        requires
            s > 0,
            s * d == n * n - r0,
            -s <= 2 * r0 <= s,
            s * (s - 2 * t) <= n * n <= s * (s + 2 * t + 1),
    ;
    let c = q.spec_conj();
    let rw = lemma_div_remainder(c.w, divisor, 2);
    let rx = lemma_div_remainder(c.x, divisor, 2);
    let ry = lemma_div_remainder(c.y, divisor, 2);
    let rz = lemma_div_remainder(c.z, divisor, 2);
    let u = q.inv();
    assert(u.w == c.w / divisor && u.x == c.x / divisor && u.y == c.y / divisor && u.z == c.z
        / divisor);
    (d, Lipschitz { w: rw, x: rx, y: ry, z: rz }, r0 + extra)
}

/// A unit quaternion times its inverse is the unit quaternion, within
/// thirteen raw units in every part.
pub proof fn lemma_unit_times_inverse(q: Quaternion)
    requires
        q.is_unit(),
    ensures
        q.inv().is_finite(),
        (q * q.inv()).is_within(Quaternion::unit(), 13),
{
    let s = ONE_RAW as int;
    let (d, r, over) = lemma_unit_inverse(q);
    let a = q.raws();
    let u = q.inv().raws();
    assert((2 * s) * (2 * s) <= 0x1000_0000_0000_0000 * s) by (nonlinear_arith)
        requires
            s == 0x1_0000_0000_0000,
    ;
    let rho = lemma_product_remainder(q, q.inv(), 2 * s, 2 * s);
    let p = (q * q.inv()).raws();
    // d (s p) = a (d u) - d rho = s (a conj(a)) - a r - d rho
    lemma_product_linear_right(a, u, u, d);
    lemma_product_linear_right(a, a.conjugate().scaled(s), r, s);
    lemma_product_linear_right(a, a.conjugate(), a.conjugate(), s);
    lemma_conjugate_product(a);
    lemma_product_within(a, r, 2 * s, d);
    let e = a.product(r);
    assert(a.product(u).scaled(d) == (Lipschitz { w: a.norm_squared(), x: 0, y: 0, z: 0 }).scaled(
        s,
    ).minus(e));
    assert((2 * s) * d == 2 * (s * d)) by (nonlinear_arith);
    lemma_scaled_part(d, s, p.w, a.product(u).w, rho.w);
    lemma_scaled_part(d, s, p.x, a.product(u).x, rho.x);
    lemma_scaled_part(d, s, p.y, a.product(u).y, rho.y);
    lemma_scaled_part(d, s, p.z, a.product(u).z, rho.z);
    assert(d * (s * (p.w - s)) == s * over - e.w - d * rho.w) by (nonlinear_arith)
        requires
            d * (s * p.w) == s * (s * d + over) - e.w - d * rho.w,
    ;
    assert(-(13 * (s * d)) <= d * (s * (p.w - s)) <= 13 * (s * d)) by (nonlinear_arith)
        requires
            d * (s * (p.w - s)) == s * over - e.w - d * rho.w,
            s == 0x1_0000_0000_0000,
            -s <= over <= 3 * s,
            s - 56295 <= d,
            -(8 * (s * d)) <= e.w <= 8 * (s * d),
            -(2 * s) <= rho.w <= 2 * s,
    ;
    assert((13 * s) * d == 13 * (s * d) && (10 * s) * d == 10 * (s * d)) by (nonlinear_arith);
    lemma_cancel(d, s * (p.w - s), 13 * s);
    lemma_bounded_multiple(d, rho.x, 2 * s);
    lemma_bounded_multiple(d, rho.y, 2 * s);
    lemma_bounded_multiple(d, rho.z, 2 * s);
    lemma_cancel(d, s * p.x, 10 * s);
    lemma_cancel(d, s * p.y, 10 * s);
    lemma_cancel(d, s * p.z, 10 * s);
}

/// One part `p` of a product, with the exact part `e` and the remainder
/// `rho`, taken `d` times.
proof fn lemma_scaled_part(d: int, s: int, p: int, e: int, rho: int)
    requires
        s * p == e - rho,
    ensures
        d * (s * p) == d * e - d * rho,
{
    assert(d * (s * p) == d * e - d * rho) by (nonlinear_arith)
        requires
            s * p == e - rho,
    ;
}

/// A positive multiple of a bounded number is bounded by the multiple of the
/// bound.
proof fn lemma_bounded_multiple(d: int, x: int, bound: int)
    requires
        d > 0,
        -bound <= x <= bound,
    ensures
        -(bound * d) <= d * x <= bound * d,
{
    assert(-(bound * d) <= d * x <= bound * d) by (nonlinear_arith)
        requires
            d > 0,
            -bound <= x <= bound,
    ;
}

} // verus!
