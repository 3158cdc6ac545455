//! Normalising a quaternion leaves a quaternion of norm one, within a
//! tolerance of `1e-10`.
//!
//! The parts of the normalised quaternion are quotients rounded to the
//! nearest raw value, and the norm itself is a root rounded down. With a norm
//! of `N` raw units these roundings move the square of the new norm by at
//! most `2 / N + 2^-46` of its value, which is within the tolerance for every
//! norm of `2^-14` or more.

use vstd::prelude::*;
use crate::lemmas::exact::{lemma_bounded_product, lemma_distribute};
use crate::lemmas::rounding::{lemma_cancel, lemma_div_remainder, lemma_round_div_remainder};
use crate::quaternion::{NORMALIZABLE_RAW, Quaternion, UNIT_TOLERANCE_RAW};
use crate::scalar::{
    floor_sqrt, is_floor_sqrt, lemma_floor_sqrt_exists, magnitude, ONE_RAW, round_div,
};

verus! {

/// The square, and the bounds, of one part of a normalised quaternion.
///
/// `a` is a part of the quaternion and `n` its norm, both in raw units; `k`
/// is the part of the normalised quaternion.
proof fn lemma_normalized_part(a: int, n: int, k: int) -> (e: int)
    requires
        n > 0,
        -n <= a <= n,
        k == round_div(a * ONE_RAW, n),
    ensures
        -ONE_RAW <= k <= ONE_RAW,
        (ONE_RAW * ONE_RAW) * (a * a) == (n * n) * (k * k) + e,
        -(4 * (ONE_RAW * (n * n))) <= 4 * e <= 4 * (ONE_RAW * (n * n)) + n * n,
{
    let s = ONE_RAW as int;
    let x = a * s;
    lemma_round_div_remainder(x, n);
    let r = x - n * k;
    assert(-s <= k <= s) by (nonlinear_arith)
        requires
            n > 0,
            -n <= a <= n,
            s > 0,
            -n <= 2 * (a * s - n * k) <= n,
    ;
    let e = 2 * (n * k) * r + r * r;
    assert(x * x == (n * n) * (k * k) + e) by (nonlinear_arith)
        requires
            r == x - n * k,
            e == 2 * (n * k) * r + r * r,
    ;
    assert(-(s * (n * n)) <= 2 * ((n * k) * r) <= s * (n * n)) by (nonlinear_arith)
        requires
            n > 0,
            -s <= k <= s,
            -n <= 2 * r <= n,
    ;
    assert(0 <= 4 * (r * r) <= n * n) by (nonlinear_arith)
        requires
            n > 0,
            -n <= 2 * r <= n,
    ;
    assert(2 * (n * k) * r == 2 * ((n * k) * r)) by (nonlinear_arith);
    assert(x * x == (s * s) * (a * a)) by (nonlinear_arith)
        requires
            x == a * s,
    ;
    e
}

/// A part of a quaternion is at most its norm, rounded down, in magnitude.
pub(crate) proof fn lemma_part_at_most_norm(a: int, rest: int, n: int)
    requires
        n >= 0,
        rest >= 0,
        a * a + rest < (n + 1) * (n + 1),
    ensures
        -n <= a <= n,
{
    if a > n {
        assert(a * a >= (n + 1) * (n + 1)) by (nonlinear_arith)
            requires
                a >= n + 1,
                n >= 0,
        ;
    } else if a < -n {
        assert(a * a >= (n + 1) * (n + 1)) by (nonlinear_arith)
            requires
                a <= -(n + 1),
                n >= 0,
        ;
    }
}

/// The sum of the squares of the parts of a normalised quaternion is the
/// square of one, within `slack` and four times one, in raw units squared.
///
/// `sum` is the sum of the squares of the parts of the quaternion, `n` its
/// norm and `total` the sum of the squares of the parts of the normalised
/// quaternion; `e` gathers what rounding the four parts adds. `slack` times
/// the norm is at least twice the square of one.
proof fn lemma_normalized_square(sum: int, n: int, total: int, e: int, slack: int)
    requires
        n > 0,
        2 * (ONE_RAW * ONE_RAW) <= slack * n,
        n * n <= sum < (n + 1) * (n + 1),
        (ONE_RAW * ONE_RAW) * sum == (n * n) * total + e,
        -(4 * (ONE_RAW * (n * n))) <= e <= 4 * (ONE_RAW * (n * n)) + n * n,
    ensures
        ONE_RAW * ONE_RAW - 4 * ONE_RAW - 1 <= total <= ONE_RAW * ONE_RAW + slack + 4 * ONE_RAW,
{
    let s = ONE_RAW as int;
    let ss = s * s;
    let nn = n * n;
    assert(nn > 0 && (n + 1) * (n + 1) == nn + 2 * n + 1) by (nonlinear_arith)
        requires
            n > 0,
            nn == n * n,
    ;
    // From below: nn * total = ss * sum - e >= ss * nn - 4 s nn - nn.
    assert(ss * sum >= ss * nn) by (nonlinear_arith)
        requires
            sum >= nn,
            ss == s * s,
    ;
    assert(nn * total >= nn * (ss - 4 * s - 1)) by (nonlinear_arith)
        requires
            ss * sum == nn * total + e,
            ss * sum >= ss * nn,
            e <= 4 * (s * nn) + nn,
    ;
    assert(total >= ss - 4 * s - 1) by (nonlinear_arith)
        requires
            nn > 0,
            nn * total >= nn * (ss - 4 * s - 1),
    ;
    // From above: nn * total = ss * sum - e <= ss * (nn + 2 n) + 4 s nn.
    assert(ss * sum <= ss * nn + ss * (2 * n)) by (nonlinear_arith)
        requires
            sum <= nn + 2 * n,
            ss == s * s,
    ;
    assert(ss * (2 * n) <= slack * nn) by (nonlinear_arith)
        requires
            2 * ss <= slack * n,
            n > 0,
            nn == n * n,
    ;
    assert(nn * total <= nn * (ss + slack + 4 * s)) by (nonlinear_arith)
        requires
            ss * sum == nn * total + e,
            ss * sum <= ss * nn + ss * (2 * n),
            ss * (2 * n) <= slack * nn,
            -(4 * (s * nn)) <= e,
    ;
    assert(total <= ss + slack + 4 * s) by (nonlinear_arith)
        requires
            nn > 0,
            nn * total <= nn * (ss + slack + 4 * s),
    ;
}

/// A number that close to the square of one has a root that close to one.
proof fn lemma_root_near_one(total: nat, m: nat)
    requires
        is_floor_sqrt(total, m),
        ONE_RAW * ONE_RAW - 4 * ONE_RAW - 1 <= total <= ONE_RAW * ONE_RAW + 0x8000_0000_0000_0000
            + 4 * ONE_RAW,
    ensures
        ONE_RAW - 3 <= m <= ONE_RAW + 16385,
{
    let s = ONE_RAW as int;
    if m > s + 16385 {
        assert(m * m > s * s + 0x8000_0000_0000_0000 + 4 * s) by (nonlinear_arith)
            requires
                m >= s + 16386,
                s == 0x1_0000_0000_0000,
        ;
    }
    if m < s - 3 {
        assert((m + 1) * (m + 1) <= s * s - 4 * s - 1) by (nonlinear_arith)
            requires
                0 <= m + 1 <= s - 3,
                s == 0x1_0000_0000_0000,
        ;
    }
}

/// The parts of a normalised quaternion are at most one in magnitude, and
/// the sum of their squares is the square of one, within `slack` and four
/// times one, in raw units squared.
///
/// `slack` times the norm of the quaternion, in raw units, is at least twice
/// the square of one: the greater the norm, the less the slack.
pub proof fn lemma_normalize_bounds(q: Quaternion, slack: int)
    requires
        q.is_finite(),
        q.norm().is_finite(),
        q.norm().raw > 0,
        2 * (ONE_RAW * ONE_RAW) <= slack * q.norm().raw,
    ensures
        q.normalize().is_bounded(ONE_RAW as int),
        ONE_RAW * ONE_RAW - 4 * ONE_RAW - 1 <= q.normalize().raw_norm_squared() <= ONE_RAW
            * ONE_RAW + slack + 4 * ONE_RAW,
{
    let s = ONE_RAW as int;
    let (aw, ax, ay, az) = (q.w.raw as int, q.x.raw as int, q.y.raw as int, q.z.raw as int);
    let sum = q.raw_norm_squared();
    assert(aw * aw >= 0 && ax * ax >= 0 && ay * ay >= 0 && az * az >= 0) by (nonlinear_arith);
    lemma_floor_sqrt_exists(sum);
    let n = floor_sqrt(sum) as int;
    assert(q.norm().raw == n);
    lemma_part_at_most_norm(aw, ax * ax + ay * ay + az * az, n);
    lemma_part_at_most_norm(ax, aw * aw + ay * ay + az * az, n);
    lemma_part_at_most_norm(ay, aw * aw + ax * ax + az * az, n);
    lemma_part_at_most_norm(az, aw * aw + ax * ax + ay * ay, n);
    let kw = round_div(aw * s, n);
    let kx = round_div(ax * s, n);
    let ky = round_div(ay * s, n);
    let kz = round_div(az * s, n);
    let ew = lemma_normalized_part(aw, n, kw);
    let ex = lemma_normalized_part(ax, n, kx);
    let ey = lemma_normalized_part(ay, n, ky);
    let ez = lemma_normalized_part(az, n, kz);
    let u = q.normalize();
    assert(u.w.raw == kw && u.x.raw == kx && u.y.raw == ky && u.z.raw == kz);
    let total = kw * kw + kx * kx + ky * ky + kz * kz;
    assert(kw * kw >= 0 && kx * kx >= 0 && ky * ky >= 0 && kz * kz >= 0) by (nonlinear_arith);
    assert(u.raw_norm_squared() == total);
    let e = ew + ex + ey + ez;
    lemma_distribute(aw * aw, ax * ax, ay * ay, az * az, s * s);
    lemma_distribute(kw * kw, kx * kx, ky * ky, kz * kz, n * n);
    assert((s * s) * sum == (n * n) * total + e);
    lemma_normalized_square(sum as int, n, total, e, slack);
}

/// Normalising a finite quaternion whose norm is finite and at least `2^-14`
/// gives a quaternion of norm one, within `1e-10`, whose parts are at most
/// one in magnitude.
pub proof fn lemma_normalize_is_unit(q: Quaternion)
    requires
        q.is_normalizable(),
    ensures
        q.normalize().is_unit(),
        q.normalize().is_bounded(ONE_RAW as int),
        ONE_RAW * ONE_RAW - 4 * ONE_RAW - 1 <= q.normalize().raw_norm_squared() <= ONE_RAW
            * ONE_RAW + 0x8000_0000_0000_0000 + 4 * ONE_RAW,
{
    let s = ONE_RAW as int;
    let n = q.norm().raw as int;
    assert(2 * (s * s) <= 0x8000_0000_0000_0000 * n) by (nonlinear_arith)
        requires
            s == 0x1_0000_0000_0000,
            n >= 0x4_0000_0000,
    ;
    lemma_normalize_bounds(q, 0x8000_0000_0000_0000);
    let total = q.normalize().raw_norm_squared();
    lemma_floor_sqrt_exists(total);
    lemma_root_near_one(total, floor_sqrt(total));
}

/// The square of a number of magnitude `b` or more is the square of `b` or more.
proof fn lemma_square_at_least(a: int, b: int)
    requires
        b >= 0,
        a >= b || a <= -b,
    ensures
        a * a >= b * b,
{
    assert(a * a >= b * b) by (nonlinear_arith)
        requires
            b >= 0,
            a >= b || a <= -b,
    ;
}

/// The square of a number of magnitude less than `b` is less than the square of `b`.
proof fn lemma_square_less(a: int, b: int)
    requires
        -b < a < b,
    ensures
        a * a < b * b,
{
    assert(a * a < b * b) by (nonlinear_arith)
        requires
            -b < a < b,
    ;
}

/// A unit quaternion moved by at most one eighth in every part can be
/// normalised: the sum is finite, and its norm is finite and at least `2^-14`.
pub proof fn lemma_unit_moved_is_normalizable(q: Quaternion, d: Quaternion)
    requires
        q.is_unit(),
        d.is_finite(),
        -ONE_RAW <= 8 * d.w.raw <= ONE_RAW,
        -ONE_RAW <= 8 * d.x.raw <= ONE_RAW,
        -ONE_RAW <= 8 * d.y.raw <= ONE_RAW,
        -ONE_RAW <= 8 * d.z.raw <= ONE_RAW,
    ensures
        (q + d).is_normalizable(),
{
    let s = ONE_RAW as int;
    let t = UNIT_TOLERANCE_RAW as int;
    let (aw, ax, ay, az) = (q.w.raw as int, q.x.raw as int, q.y.raw as int, q.z.raw as int);
    let sum = q.raw_norm_squared();
    assert(aw * aw >= 0 && ax * ax >= 0 && ay * ay >= 0 && az * az >= 0) by (nonlinear_arith);
    lemma_floor_sqrt_exists(sum);
    let n = floor_sqrt(sum) as int;
    assert(q.norm().raw == n);
    lemma_part_at_most_norm(aw, ax * ax + ay * ay + az * az, n);
    lemma_part_at_most_norm(ax, aw * aw + ay * ay + az * az, n);
    lemma_part_at_most_norm(ay, aw * aw + ax * ax + az * az, n);
    lemma_part_at_most_norm(az, aw * aw + ax * ax + ay * ay, n);
    let p = q + d;
    let (pw, px, py, pz) = (aw + d.w.raw, ax + d.x.raw, ay + d.y.raw, az + d.z.raw);
    assert(p.w.raw == pw && p.x.raw == px && p.y.raw == py && p.z.raw == pz);
    let total = p.raw_norm_squared();
    let bound: int = 0x2_0000_0000_0000;
    lemma_square_less(pw, bound);
    lemma_square_less(px, bound);
    lemma_square_less(py, bound);
    lemma_square_less(pz, bound);
    assert(pw * pw >= 0 && px * px >= 0 && py * py >= 0 && pz * pz >= 0) by (nonlinear_arith);
    assert(bound * bound == 0x4_0000_0000_0000_0000_0000_0000) by (nonlinear_arith)
        requires
            bound == 0x2_0000_0000_0000,
    ;
    lemma_floor_sqrt_exists(total);
    let m = floor_sqrt(total) as int;
    if m > 0x4_0000_0000_0000 {
        lemma_square_at_least(m, 0x4_0000_0000_0001);
        assert(0x4_0000_0000_0001 * 0x4_0000_0000_0001 > 4 * (bound * bound))
            by (nonlinear_arith)
            requires
                bound == 0x2_0000_0000_0000,
        ;
    }
    // Some part of `q` is at least half the norm in magnitude.
    let half = s - t;
    assert(n * n >= half * half) by (nonlinear_arith)
        requires
            n >= half,
            half >= 0,
    ;
    if -half < 2 * aw < half && -half < 2 * ax < half && -half < 2 * ay < half && -half < 2 * az
        < half {
        lemma_square_less(2 * aw, half);
        lemma_square_less(2 * ax, half);
        lemma_square_less(2 * ay, half);
        lemma_square_less(2 * az, half);
        assert((2 * aw) * (2 * aw) == 4 * (aw * aw) && (2 * ax) * (2 * ax) == 4 * (ax * ax) && (2
            * ay) * (2 * ay) == 4 * (ay * ay) && (2 * az) * (2 * az) == 4 * (az * az))
            by (nonlinear_arith);
        assert(false);
    }
    let quarter: int = 0x4000_0000_0000;
    assert(quarter * quarter == 0x1000_0000_0000_0000_0000_0000) by (nonlinear_arith)
        requires
            quarter == 0x4000_0000_0000,
    ;
    if !(-half < 2 * aw < half) {
        lemma_square_at_least(pw, quarter);
    } else if !(-half < 2 * ax < half) {
        lemma_square_at_least(px, quarter);
    } else if !(-half < 2 * ay < half) {
        lemma_square_at_least(py, quarter);
    } else {
        lemma_square_at_least(pz, quarter);
    }
    assert(total >= quarter * quarter);
    if m < NORMALIZABLE_RAW {
        lemma_square_less(m + 1, 0x4_0000_0001);
        assert(0x4_0000_0001 * 0x4_0000_0001 < 0x1000_0000_0000_0000_0000_0000int)
            by (nonlinear_arith);
    }
}

/// Normalising a unit quaternion moves no part of it by more than the
/// tolerance of `1e-10` and one raw unit.
pub proof fn lemma_normalize_unit(q: Quaternion)
    requires
        q.is_unit(),
    ensures
        q.normalize().is_within(q, UNIT_TOLERANCE_RAW + 1),
{
    let s = ONE_RAW as int;
    let t = UNIT_TOLERANCE_RAW as int;
    let (aw, ax, ay, az) = (q.w.raw as int, q.x.raw as int, q.y.raw as int, q.z.raw as int);
    let sum = q.raw_norm_squared();
    assert(aw * aw >= 0 && ax * ax >= 0 && ay * ay >= 0 && az * az >= 0) by (nonlinear_arith);
    lemma_floor_sqrt_exists(sum);
    let n = floor_sqrt(sum) as int;
    assert(q.norm().raw == n);
    lemma_part_at_most_norm(aw, ax * ax + ay * ay + az * az, n);
    lemma_part_at_most_norm(ax, aw * aw + ay * ay + az * az, n);
    lemma_part_at_most_norm(ay, aw * aw + ax * ax + az * az, n);
    lemma_part_at_most_norm(az, aw * aw + ax * ax + ay * ay, n);
    let norm = q.norm();
    let rw = lemma_div_remainder(q.w, norm, 2);
    let rx = lemma_div_remainder(q.x, norm, 2);
    let ry = lemma_div_remainder(q.y, norm, 2);
    let rz = lemma_div_remainder(q.z, norm, 2);
    let u = q.normalize();
    lemma_normalized_part_near(aw, u.w.raw as int, n, rw);
    lemma_normalized_part_near(ax, u.x.raw as int, n, rx);
    lemma_normalized_part_near(ay, u.y.raw as int, n, ry);
    lemma_normalized_part_near(az, u.z.raw as int, n, rz);
}

/// A part `a` of a unit quaternion of norm `n`, and the part `k` of the
/// normalised quaternion, differ by at most the tolerance and one raw unit.
proof fn lemma_normalized_part_near(a: int, k: int, n: int, r: int)
    requires
        ONE_RAW - UNIT_TOLERANCE_RAW <= n <= ONE_RAW + UNIT_TOLERANCE_RAW,
        -n <= a <= n,
        n * k == a * ONE_RAW - r,
        -n <= 2 * r <= n,
    ensures
        magnitude(k - a) <= UNIT_TOLERANCE_RAW + 1,
{
    let s = ONE_RAW as int;
    let t = UNIT_TOLERANCE_RAW as int;
    assert(n * (k - a) == a * (s - n) - r) by (nonlinear_arith)
        requires
            n * k == a * s - r,
    ;
    lemma_bounded_product(a, s - n, n, t);
    assert(-((t + 1) * n) <= n * (k - a) <= (t + 1) * n) by (nonlinear_arith)
        requires
            n * (k - a) == a * (s - n) - r,
            -(n * t) <= a * (s - n) <= n * t,
            -n <= 2 * r <= n,
            n > 0,
    ;
    lemma_cancel(n, k - a, t + 1);
}

/// Normalising twice is normalising once, within the tolerance of `1e-10`
/// and one raw unit in every part.
pub proof fn lemma_normalize_idempotent(q: Quaternion)
    requires
        q.is_normalizable(),
    ensures
        q.normalize().normalize().is_within(q.normalize(), UNIT_TOLERANCE_RAW + 1),
{
    lemma_normalize_is_unit(q);
    lemma_normalize_unit(q.normalize());
}

/// No part of a unit quaternion exceeds one and the tolerance in magnitude.
pub proof fn lemma_unit_is_bounded(q: Quaternion)
    requires
        q.is_unit(),
    ensures
        q.is_bounded(ONE_RAW + UNIT_TOLERANCE_RAW),
{
    let (aw, ax, ay, az) = (q.w.raw as int, q.x.raw as int, q.y.raw as int, q.z.raw as int);
    let sum = q.raw_norm_squared();
    assert(aw * aw >= 0 && ax * ax >= 0 && ay * ay >= 0 && az * az >= 0) by (nonlinear_arith);
    lemma_floor_sqrt_exists(sum);
    let n = floor_sqrt(sum) as int;
    assert(q.norm().raw == n);
    lemma_part_at_most_norm(aw, ax * ax + ay * ay + az * az, n);
    lemma_part_at_most_norm(ax, aw * aw + ay * ay + az * az, n);
    lemma_part_at_most_norm(ay, aw * aw + ax * ax + az * az, n);
    lemma_part_at_most_norm(az, aw * aw + ax * ax + ay * ay, n);
}

} // verus!
