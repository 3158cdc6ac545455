//! Rotating a vector by a unit quaternion preserves its length, to within
//! `5e-11`.
//!
//! In exact arithmetic the sandwich `q v conj(q)` of a vector `v` is a vector
//! again, and its length is that of `v` times the square of the norm of `q`.
//! The fixed-point sandwich `q * v * q.inv()` rounds 32 products and four
//! quotients; the roundings move no coordinate of the result by more than a
//! few raw units for each unit of length of `v`.

use vstd::prelude::*;
use crate::angular_momentum::AngularMomentum;
use crate::angular_velocity::AngularVelocity;
use crate::lemmas::exact::{
    lemma_bounded_product, lemma_conjugate_product, lemma_distribute, lemma_norm_multiplicative,
    lemma_product_associative, lemma_product_linear_left, lemma_product_linear_right,
    lemma_product_within, Lipschitz,
};
use crate::lemmas::inverse::lemma_unit_inverse;
use crate::lemmas::rounding::lemma_product_remainder;
use crate::quaternion::Quaternion;
use crate::scalar::{floor_sqrt, lemma_floor_sqrt_exists, magnitude, ONE_RAW, Scalar};
use crate::torque::Torque;

verus! {

/// The scalar part of a product does not depend on the order of the factors.
proof fn lemma_scalar_part_commutes(p: Lipschitz, q: Lipschitz)
    ensures
        p.product(q).w == q.product(p).w,
{
    assert(p.w * q.w == q.w * p.w && p.x * q.x == q.x * p.x && p.y * q.y == q.y * p.y && p.z
        * q.z == q.z * p.z) by (nonlinear_arith);
}

/// The conjugate has the norm of the quaternion.
proof fn lemma_conjugate_norm(a: Lipschitz)
    ensures
        a.conjugate().norm_squared() == a.norm_squared(),
{
    assert((-a.x) * (-a.x) == a.x * a.x && (-a.y) * (-a.y) == a.y * a.y && (-a.z) * (-a.z)
        == a.z * a.z) by (nonlinear_arith);
}

/// The exact sandwich `a v conj(a)` of a vector `v` is a vector, and its
/// norm is the norm of `v` times the square of the norm of `a`.
pub proof fn lemma_exact_rotation(a: Lipschitz, v: Lipschitz)
    requires
        v.w == 0,
    ensures
        a.product(v).product(a.conjugate()).w == 0,
        a.product(v).product(a.conjugate()).norm_squared() == (a.norm_squared()
            * a.norm_squared()) * v.norm_squared(),
{
    let c = a.conjugate();
    let n = a.norm_squared();
    lemma_scalar_part_commutes(a.product(v), c);
    lemma_product_associative(c, a, v);
    lemma_conjugate_product(a);
    let unit = Lipschitz { w: n, x: 0, y: 0, z: 0 };
    assert(unit.product(v).w == 0) by {
        assert(n * 0 == 0 && 0 * v.x == 0 && 0 * v.y == 0 && 0 * v.z == 0) by (nonlinear_arith);
    }
    lemma_norm_multiplicative(a.product(v), c);
    lemma_norm_multiplicative(a, v);
    lemma_conjugate_norm(a);
    assert((n * v.norm_squared()) * n == (n * n) * v.norm_squared()) by (nonlinear_arith);
}

/// The greatest magnitude, in raw units, of the coordinates of a vector for
/// which rotating is known to preserve the length: `2^55`, the number 128.
pub const ROTATABLE_RAW: i128 = 0x80_0000_0000_0000;

/// By how many raw units rotating may change the length of such a vector:
/// about `5e-11`.
pub const ROTATION_TOLERANCE_RAW: i128 = 13927;

/// A difference and a multiple of quaternions with integer parts, part by part.
proof fn lemma_scaled_minus(a: Lipschitz, b: Lipschitz, k: int)
    ensures
        a.minus(b).scaled(k) == a.scaled(k).minus(b.scaled(k)),
{
    assert(k * (a.w - b.w) == k * a.w - k * b.w) by (nonlinear_arith);
    assert(k * (a.x - b.x) == k * a.x - k * b.x) by (nonlinear_arith);
    assert(k * (a.y - b.y) == k * a.y - k * b.y) by (nonlinear_arith);
    assert(k * (a.z - b.z) == k * a.z - k * b.z) by (nonlinear_arith);
}

/// A positive multiple of a bounded quaternion is bounded by the multiple of
/// the bound.
proof fn lemma_scaled_within(a: Lipschitz, k: int, bound: int)
    requires
        k > 0,
        a.is_within(bound),
    ensures
        a.scaled(k).is_within(bound * k),
{
    assert(a.scaled(k).is_within(bound * k)) by (nonlinear_arith)
        requires
            k > 0,
            a.is_within(bound),
    ;
}

/// A quaternion whose multiple by one is bounded by a multiple of one is
/// bounded.
proof fn lemma_unscaled_within(a: Lipschitz, e: Lipschitz, rho: Lipschitz, bound: int)
    requires
        a.scaled(ONE_RAW as int) == e.minus(rho),
        e.is_within(bound * ONE_RAW),
        rho.is_within(2 * ONE_RAW),
    ensures
        a.is_within(bound + 2),
{
    let s = ONE_RAW as int;
    assert(a.is_within(bound + 2)) by (nonlinear_arith)
        requires
            s > 0,
            s * a.w == e.w - rho.w,
            s * a.x == e.x - rho.x,
            s * a.y == e.y - rho.y,
            s * a.z == e.z - rho.z,
            e.is_within(bound * s),
            rho.is_within(2 * s),
    ;
}

/// The fixed-point sandwich of a vector against the exact one.
///
/// The result holds the divisor `d` of the inverse, what the sum of the
/// squares of the parts of `q` exceeds `d` times one by, and what the
/// roundings add to the exact sandwich.
proof fn lemma_rotation_remainder(q: Quaternion, v: Quaternion) -> (r: (int, int, Lipschitz))
    requires
        q.is_unit(),
        v.is_bounded(ROTATABLE_RAW as int),
        v.w == Scalar::zero(),
    ensures
        (q * v * q.inv()).is_bounded(0x2000_0000_0000_0012),
        ONE_RAW - 56295 <= r.0 <= ONE_RAW + 56296,
        q.raws().norm_squared() == ONE_RAW * r.0 + r.1,
        -ONE_RAW <= r.1 <= 3 * ONE_RAW,
        (q * v * q.inv()).raws().scaled(ONE_RAW as int).scaled(r.0) == q.raws().product(
            v.raws(),
        ).product(q.raws().conjugate()).minus(r.2),
        r.2.is_within((4130 * ONE_RAW + 8) * r.0),
{
    let s = ONE_RAW as int;
    let big = ROTATABLE_RAW as int;
    let (d, rem, over) = lemma_unit_inverse(q);
    let a = q.raws();
    let c = a.conjugate();
    let u = q.inv().raws();
    let vr = v.raws();
    assert((2 * s) * big == 0x100 * (s * s) && (2 * s) * (2 * s) == 4 * (s * s) && s * s
        == 0x1_0000_0000_0000_0000_0000_0000 && 0x400_0000_0000_0002 * (2 * s) == 0x800 * (s
        * s) + 4 * s) by (nonlinear_arith)
        requires
            s == 0x1_0000_0000_0000,
            big == 0x80_0000_0000_0000,
    ;
    let mid: int = 0x400_0000_0000_0002;
    // m = q * v
    let m = q * v;
    let rho1 = lemma_product_remainder(q, v, 2 * s, big);
    lemma_product_within(a, vr, 2 * s, big);
    lemma_unscaled_within(m.raws(), a.product(vr), rho1, 0x400_0000_0000_0000);
    let mr = m.raws();
    // rot = m * inv(q)
    let rot = m * q.inv();
    let rho2 = lemma_product_remainder(m, q.inv(), mid, 2 * s);
    lemma_product_within(mr, u, mid, 2 * s);
    assert(4 * (mid * (2 * s)) == 0x2000_0000_0000_0010 * s);
    lemma_unscaled_within(rot.raws(), mr.product(u), rho2, 0x2000_0000_0000_0010);
    // d (s rot) = m (d u) - d rho2 = s (m c) - m rem - d rho2
    lemma_scaled_minus(mr.product(u), rho2, d);
    lemma_product_linear_right(mr, u, u, d);
    lemma_product_linear_right(mr, c.scaled(s), rem, s);
    lemma_product_linear_right(mr, c, c, s);
    // s (m c) = (s m) c = (a v - rho1) c
    lemma_product_linear_left(mr, mr, c, s);
    lemma_product_linear_left(a.product(vr), rho1, c, s);
    let e1 = rho1.product(c);
    let e2 = mr.product(rem);
    let e3 = rho2.scaled(d);
    lemma_product_within(rho1, c, 2 * s, 2 * s);
    lemma_product_within(mr, rem, mid, d);
    lemma_scaled_within(rho2, d, 2 * s);
    let err = e1.plus(e2).plus(e3);
    assert(err.is_within((4130 * s + 8) * d)) by (nonlinear_arith)
        requires
            e1.is_within(4 * (4 * (s * s))),
            e2.is_within(4 * (0x400_0000_0000_0002 * d)),
            e3.is_within((2 * s) * d),
            err == e1.plus(e2).plus(e3),
            s == 0x1_0000_0000_0000,
            s - 56295 <= d,
    ;
    (d, over, err)
}

/// The square of a coordinate that differs from `y` by at most `beta`, where
/// `y` is less than `top` in magnitude.
pub(crate) proof fn lemma_moved_square(x: int, y: int, beta: int, top: int)
    requires
        -beta <= x - y <= beta,
        -top < y < top,
    ensures
        x * x <= y * y + 2 * (top * beta) + beta * beta,
{
    assert(x * x <= y * y + 2 * (top * beta) + beta * beta) by (nonlinear_arith)
        requires
            -beta <= x - y <= beta,
            -top < y < top,
    ;
}

/// A coordinate of a vector of length less than `top` is less than `top` in
/// magnitude.
pub(crate) proof fn lemma_coordinate_below(y: int, rest: int, top: int)
    requires
        top > 0,
        rest >= 0,
        y * y + rest < top * top,
    ensures
        -top < y < top,
{
    if y >= top {
        assert(y * y >= top * top) by (nonlinear_arith)
            requires
                y >= top,
                top > 0,
        ;
    } else if y <= -top {
        assert(y * y >= top * top) by (nonlinear_arith)
            requires
                y <= -top,
                top > 0,
        ;
    }
}

/// The sum of the squares of three integers.
pub open spec fn length_squared(x: int, y: int, z: int) -> int {
    x * x + y * y + z * z
}

/// A vector that differs by at most `beta` in every coordinate from a vector
/// of length less than `top` has a length of less than `top + 3 beta`.
proof fn lemma_vector_triangle(x: (int, int, int), y: (int, int, int), beta: int, top: int)
    requires
        beta >= 0,
        top > 0,
        -beta <= x.0 - y.0 <= beta,
        -beta <= x.1 - y.1 <= beta,
        -beta <= x.2 - y.2 <= beta,
        length_squared(y.0, y.1, y.2) < top * top,
    ensures
        length_squared(x.0, x.1, x.2) < (top + 3 * beta) * (top + 3 * beta),
{
    assert(y.0 * y.0 >= 0 && y.1 * y.1 >= 0 && y.2 * y.2 >= 0) by (nonlinear_arith);
    lemma_coordinate_below(y.0, y.1 * y.1 + y.2 * y.2, top);
    lemma_coordinate_below(y.1, y.0 * y.0 + y.2 * y.2, top);
    lemma_coordinate_below(y.2, y.0 * y.0 + y.1 * y.1, top);
    lemma_moved_square(x.0, y.0, beta, top);
    lemma_moved_square(x.1, y.1, beta, top);
    lemma_moved_square(x.2, y.2, beta, top);
    assert((top + 3 * beta) * (top + 3 * beta) == top * top + 6 * (top * beta) + 9 * (beta
        * beta)) by (nonlinear_arith);
    assert(beta * beta >= 0) by (nonlinear_arith);
}

/// Of two numbers that are not negative, the one with the lesser square is
/// the lesser.
pub(crate) proof fn lemma_square_order(a: int, b: int)
    requires
        a >= 0,
        b >= 0,
        a * a < b * b,
    ensures
        a < b,
{
    if a >= b {
        assert(a * a >= b * b) by (nonlinear_arith)
            requires
                a >= b,
                b >= 0,
        ;
    }
}

/// A number whose product with a positive `k` is less than `bound k` is less
/// than `bound`.
proof fn lemma_cancel_below(k: int, x: int, bound: int)
    requires
        k > 0,
        k * x < bound * k,
    ensures
        x < bound,
{
    assert(x < bound) by (nonlinear_arith)
        requires
            k > 0,
            k * x < bound * k,
    ;
}

/// The square of a multiple, and the order of multiples of squares.
proof fn lemma_scaled_squares(k: int, a: int, low: int, high: int)
    requires
        k > 0,
        low >= 0,
        low * low <= a < (high + 1) * (high + 1),
    ensures
        (k * low) * (k * low) <= (k * k) * a,
        (k * k) * a < (k * (high + 1)) * (k * (high + 1)),
        k * low >= 0,
{
    assert((k * low) * (k * low) <= (k * k) * a) by (nonlinear_arith)
        requires
            k > 0,
            low * low <= a,
    ;
    assert((k * k) * a < (k * (high + 1)) * (k * (high + 1))) by (nonlinear_arith)
        requires
            k > 0,
            a < (high + 1) * (high + 1),
    ;
    assert(k * low >= 0) by (nonlinear_arith)
        requires
            k > 0,
            low >= 0,
    ;
}

/// The sum of the squares of three multiples.
proof fn lemma_scaled_length(k: int, x: int, y: int, z: int)
    ensures
        length_squared(k * x, k * y, k * z) == (k * k) * length_squared(x, y, z),
{
    assert((k * x) * (k * x) == (k * k) * (x * x)) by (nonlinear_arith);
    assert((k * y) * (k * y) == (k * k) * (y * y)) by (nonlinear_arith);
    assert((k * z) * (k * z) == (k * k) * (z * z)) by (nonlinear_arith);
    lemma_distribute(x * x, y * y, z * z, 0, k * k);
    assert((k * k) * 0 == 0) by (nonlinear_arith);
}

/// The lengths of two vectors, rounded down, where the one vector times `k`
/// and the other times `sigma` differ by little in every coordinate.
///
/// `k` is the divisor `d` of the inverse times one and `sigma` the sum of
/// the squares of the parts of the quaternion; `rn` and `vn` are the lengths
/// of the rotated and of the given vector.
proof fn lemma_lengths_agree(
    r: (int, int, int),
    x: (int, int, int),
    rn: int,
    vn: int,
    vsq: int,
    d: int,
    over: int,
)
    requires
        ONE_RAW - 56295 <= d <= ONE_RAW + 56296,
        -ONE_RAW <= over <= 3 * ONE_RAW,
        0 <= rn,
        rn * rn <= length_squared(r.0, r.1, r.2) < (rn + 1) * (rn + 1),
        0 <= vn <= 0x100_0000_0000_0000,
        vn * vn <= vsq < (vn + 1) * (vn + 1),
        length_squared(x.0, x.1, x.2) == ((ONE_RAW * d + over) * (ONE_RAW * d + over)) * vsq,
        magnitude(d * (ONE_RAW * r.0) - x.0) <= (4130 * ONE_RAW + 8) * d,
        magnitude(d * (ONE_RAW * r.1) - x.1) <= (4130 * ONE_RAW + 8) * d,
        magnitude(d * (ONE_RAW * r.2) - x.2) <= (4130 * ONE_RAW + 8) * d,
    ensures
        magnitude(rn - vn) <= ROTATION_TOLERANCE_RAW,
{
    let s = ONE_RAW as int;
    let k = s * d;
    let sigma = k + over;
    let beta = 4130 * k + 8 * d;
    assert((4130 * s + 8) * d == beta) by (nonlinear_arith)
        requires
            k == s * d,
            beta == 4130 * k + 8 * d,
    ;
    assert(d * (s * r.0) == k * r.0 && d * (s * r.1) == k * r.1 && d * (s * r.2) == k * r.2)
        by (nonlinear_arith)
        requires
            k == s * d,
    ;
    assert(k > s && sigma > 0 && sigma * (vn + 1) > 0 && k * (rn + 1) > 0) by (nonlinear_arith)
        requires
            s == 0x1_0000_0000_0000,
            k == s * d,
            s - 56295 <= d,
            sigma == k + over,
            -s <= over,
            vn >= 0,
            rn >= 0,
    ;
    let y = (k * r.0, k * r.1, k * r.2);
    let rsq = length_squared(r.0, r.1, r.2);
    let xsq = length_squared(x.0, x.1, x.2);
    lemma_scaled_length(k, r.0, r.1, r.2);
    lemma_scaled_squares(k, rsq, rn, rn);
    lemma_scaled_squares(sigma, vsq, vn, vn);
    assert(256 * (s * s) <= 512 * k) by (nonlinear_arith)
        requires
            s == 0x1_0000_0000_0000,
            k == s * d,
            s - 56295 <= d,
    ;
    // The rotated vector is not much longer.
    lemma_vector_triangle(y, x, beta, sigma * (vn + 1));
    lemma_square_order(k * rn, sigma * (vn + 1) + 3 * beta);
    assert(sigma * (vn + 1) == k * vn + k + over * vn + over) by (nonlinear_arith)
        requires
            sigma == k + over,
    ;
    assert(over * vn <= 768 * (s * s)) by (nonlinear_arith)
        requires
            over <= 3 * s,
            0 <= vn <= 0x100_0000_0000_0000,
            s == 0x1_0000_0000_0000,
    ;
    assert(k * (rn - vn) == k * rn - k * vn) by (nonlinear_arith);
    lemma_cancel_below(k, rn - vn, 13928);
    // The given vector is not much longer.
    lemma_vector_triangle(x, y, beta, k * (rn + 1));
    lemma_square_order(sigma * vn, k * (rn + 1) + 3 * beta);
    assert(sigma * vn == k * vn + over * vn) by (nonlinear_arith)
        requires
            sigma == k + over,
    ;
    assert(over * vn >= -(256 * (s * s))) by (nonlinear_arith)
        requires
            -s <= over,
            0 <= vn <= 0x100_0000_0000_0000,
            s == 0x1_0000_0000_0000,
    ;
    assert(k * (rn + 1) == k * rn + k) by (nonlinear_arith);
    assert(k * (vn - rn) == k * vn - k * rn) by (nonlinear_arith);
    lemma_cancel_below(k, vn - rn, 13928);
}

/// The length, rounded down, of a vector whose coordinates are at most
/// `bound`, less than `2^61`, in magnitude.
proof fn lemma_vector_norm(v: Quaternion, bound: int) -> (n: int)
    requires
        v.w == Scalar::zero(),
        v.is_bounded(bound),
        0 <= bound < 0x2000_0000_0000_0100,
    ensures
        v.norm().is_finite(),
        v.norm().raw == n,
        0 <= n <= 2 * bound,
        n * n <= length_squared(v.x.raw as int, v.y.raw as int, v.z.raw as int) < (n + 1) * (n
            + 1),
        length_squared(v.x.raw as int, v.y.raw as int, v.z.raw as int) == v.raws().norm_squared(),
{
    let (x, y, z) = (v.x.raw as int, v.y.raw as int, v.z.raw as int);
    assert(0 <= x * x <= bound * bound && 0 <= y * y <= bound * bound && 0 <= z * z <= bound
        * bound) by (nonlinear_arith)
        requires
            -bound <= x <= bound,
            -bound <= y <= bound,
            -bound <= z <= bound,
    ;
    let sum = v.raw_norm_squared();
    assert(sum == x * x + y * y + z * z);
    lemma_floor_sqrt_exists(sum);
    let n = floor_sqrt(sum) as int;
    if n > 2 * bound {
        assert(n * n > 3 * (bound * bound)) by (nonlinear_arith)
            requires
                n >= 2 * bound + 1,
                bound >= 0,
        ;
    }
    n
}

/// Rotating a vector with coordinates of magnitude at most 128 by a unit
/// quaternion changes its length by at most 13927 raw units, about `5e-11`.
///
/// The vector is given as the quaternion `v` with no scalar part; the
/// rotated vector is the vector part of `q * v * q.inv()`.
pub proof fn lemma_rotation_preserves_length(q: Quaternion, v: Quaternion)
    requires
        q.is_unit(),
        v.w == Scalar::zero(),
        v.is_bounded(ROTATABLE_RAW as int),
    ensures
        ({
            let rotated = q * v * q.inv();
            let r = Quaternion::from_vector(rotated.x, rotated.y, rotated.z);
            &&& rotated.is_finite()
            &&& r.norm().is_finite()
            &&& v.norm().is_finite()
            &&& magnitude(r.norm().raw - v.norm().raw) <= ROTATION_TOLERANCE_RAW
        }),
{
    let s = ONE_RAW as int;
    let rotated = q * v * q.inv();
    let r = Quaternion::from_vector(rotated.x, rotated.y, rotated.z);
    let (d, over, err) = lemma_rotation_remainder(q, v);
    let a = q.raws();
    let exact = a.product(v.raws()).product(a.conjugate());
    lemma_exact_rotation(a, v.raws());
    let vn = lemma_vector_norm(v, ROTATABLE_RAW as int);
    let rn = lemma_vector_norm(r, 0x2000_0000_0000_0012);
    let sigma = a.norm_squared();
    assert(exact.norm_squared() == length_squared(exact.x, exact.y, exact.z)) by {
        assert(exact.w * exact.w == 0) by (nonlinear_arith)
            requires
                exact.w == 0,
        ;
    }
    lemma_lengths_agree(
        (rotated.x.raw as int, rotated.y.raw as int, rotated.z.raw as int),
        (exact.x, exact.y, exact.z),
        rn,
        vn,
        v.raws().norm_squared(),
        d,
        over,
    );
}

/// One part of the rotated vector against the exact sandwich.
proof fn lemma_part_near_exact(r: int, e: int, err: int, d: int, over: int)
    requires
        ONE_RAW - 56295 <= d <= ONE_RAW + 56296,
        -ONE_RAW <= over <= 3 * ONE_RAW,
        -0x2000_0000_0000_0012 <= r <= 0x2000_0000_0000_0012,
        d * (ONE_RAW * r) == e - err,
        -((4130 * ONE_RAW + 8) * d) <= err <= (4130 * ONE_RAW + 8) * d,
    ensures
        magnitude((ONE_RAW * d + over) * r - e) <= 28711 * (ONE_RAW * d + over),
{
    let s = ONE_RAW as int;
    assert((s * d + over) * r - e == over * r - err) by (nonlinear_arith)
        requires
            d * (s * r) == e - err,
    ;
    lemma_bounded_product(over, r, 3 * s, 0x2000_0000_0000_0012);
    assert(-(28711 * (s * d + over)) <= over * r - err <= 28711 * (s * d + over))
        by (nonlinear_arith)
        requires
            s == 0x1_0000_0000_0000,
            s - 56295 <= d,
            -s <= over,
            -((3 * s) * 0x2000_0000_0000_0012) <= over * r <= (3 * s) * 0x2000_0000_0000_0012,
            -((4130 * s + 8) * d) <= err <= (4130 * s + 8) * d,
    ;
}

/// The fixed-point sandwich `q * v * q.inv()` of a vector with coordinates
/// of magnitude at most 128 by a unit quaternion is the exact rotation,
/// within 28711 raw units, about `1e-10`, in every part.
///
/// The exact rotation is the exact sandwich `q v conj(q)` over the sum of the
/// squares of the parts of `q`; the parts are compared multiplied by that
/// sum.
pub proof fn lemma_rotation_is_nearly_exact(q: Quaternion, v: Quaternion)
    requires
        q.is_unit(),
        v.w == Scalar::zero(),
        v.is_bounded(ROTATABLE_RAW as int),
    ensures
        (q * v * q.inv()).is_finite(),
        q.raws().norm_squared() > 0,
        q.raws().product(v.raws()).product(q.raws().conjugate()).minus(
            (q * v * q.inv()).raws().scaled(q.raws().norm_squared()),
        ).is_within(28711 * q.raws().norm_squared()),
{
    let (d, over, err) = lemma_rotation_remainder(q, v);
    let r = (q * v * q.inv()).raws();
    let e = q.raws().product(v.raws()).product(q.raws().conjugate());
    lemma_part_near_exact(r.w, e.w, err.w, d, over);
    lemma_part_near_exact(r.x, e.x, err.x, d, over);
    lemma_part_near_exact(r.y, e.y, err.y, d, over);
    lemma_part_near_exact(r.z, e.z, err.z, d, over);
    assert(ONE_RAW * d + over > 0) by (nonlinear_arith)
        requires
            d >= ONE_RAW - 56295,
            over >= -ONE_RAW,
            ONE_RAW == 0x1_0000_0000_0000,
    ;
}

/// Rotating an angular velocity with coordinates of magnitude at most 128 by a unit
/// quaternion changes its length by at most 13927 raw units, about `5e-11`.
pub proof fn lemma_angular_velocity_rotate(v: AngularVelocity, q: Quaternion)
    requires
        q.is_unit(),
        Quaternion::from_vector(v.x, v.y, v.z).is_bounded(ROTATABLE_RAW as int),
    ensures
        v.rotate(q).is_finite(),
        v.rotate(q).length().is_finite(),
        v.length().is_finite(),
        magnitude(v.rotate(q).length().raw - v.length().raw) <= ROTATION_TOLERANCE_RAW,
{
    lemma_rotation_preserves_length(q, Quaternion::from_vector(v.x, v.y, v.z));
}

/// Rotating a torque with coordinates of magnitude at most 128 by a unit
/// quaternion changes its length by at most 13927 raw units, about `5e-11`.
pub proof fn lemma_torque_rotate(v: Torque, q: Quaternion)
    requires
        q.is_unit(),
        Quaternion::from_vector(v.x, v.y, v.z).is_bounded(ROTATABLE_RAW as int),
    ensures
        v.rotate(q).is_finite(),
        v.rotate(q).length().is_finite(),
        v.length().is_finite(),
        magnitude(v.rotate(q).length().raw - v.length().raw) <= ROTATION_TOLERANCE_RAW,
{
    lemma_rotation_preserves_length(q, Quaternion::from_vector(v.x, v.y, v.z));
}

/// Rotating an angular momentum with coordinates of magnitude at most 128 by a unit
/// quaternion changes its length by at most 13927 raw units, about `5e-11`.
pub proof fn lemma_angular_momentum_rotate(v: AngularMomentum, q: Quaternion)
    requires
        q.is_unit(),
        Quaternion::from_vector(v.x, v.y, v.z).is_bounded(ROTATABLE_RAW as int),
    ensures
        v.rotate(q).is_finite(),
        v.rotate(q).length().is_finite(),
        v.length().is_finite(),
        magnitude(v.rotate(q).length().raw - v.length().raw) <= ROTATION_TOLERANCE_RAW,
{
    lemma_rotation_preserves_length(q, Quaternion::from_vector(v.x, v.y, v.z));
}

} // verus!
