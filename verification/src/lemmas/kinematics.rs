//! The derivative of an attitude is at right angles to the attitude, to
//! within a few raw units.
//!
//! In exact arithmetic the product of a quaternion `q` and a vector is
//! orthogonal to `q`, so that moving `q` along its derivative does not
//! change its norm to first order. The fixed-point derivative rounds the
//! products and the halving; the roundings leave a dot product of at most
//! six times the greatest part of `q`, in raw units.

use vstd::prelude::*;
use crate::angular_velocity::AngularVelocity;
use crate::lemmas::exact::{
    lemma_bounded_product, lemma_derivative_is_orthogonal, lemma_distribute, lemma_linear,
    lemma_product_within, Lipschitz,
};
use crate::lemmas::rounding::{lemma_mul_remainder, lemma_product_remainder};
use crate::lemmas::unit_norm::lemma_unit_is_bounded;
use crate::quaternion::{Quaternion, UNIT_TOLERANCE_RAW};
use crate::scalar::{magnitude, Scalar, ONE_RAW};

verus! {

/// One part of the derivative: half the part `p` of the product.
proof fn lemma_halved(p: Scalar, bound: int) -> (k: int)
    requires
        p.is_finite(),
        magnitude(p.raw as int) <= bound,
        0x8000_0000_0000 * bound <= 0x1000_0000_0000_0000 * ONE_RAW,
    ensures
        (Scalar::half() * p).is_finite(),
        2 * (Scalar::half() * p).raw == p.raw - k,
        -1 <= k <= 1,
{
    let rho = lemma_mul_remainder(Scalar::half(), p, 0x8000_0000_0000, bound);
    let r = (Scalar::half() * p).raw as int;
    assert(0x1_0000_0000_0000 * r == 0x8000_0000_0000 * p.raw - rho);
    p.raw - 2 * r
}

/// The derivative of the attitude `q` under the angular velocity `w` is
/// finite and at right angles to `q`: the dot product of the raw values of
/// the two is at most six times `bq` in magnitude, where `bq` bounds the
/// parts of `q`, `bw` the coordinates of `w`, and `bq` times `bw` is at
/// most `2^58`.
pub proof fn lemma_diff_is_orthogonal(q: Quaternion, w: AngularVelocity, bq: int, bw: int)
    requires
        q.is_bounded(bq),
        Quaternion::from_vector(w.x, w.y, w.z).is_bounded(bw),
        0 <= bq,
        0 <= bw,
        bq * bw <= 0x400_0000_0000_0000 * ONE_RAW,
    ensures
        q.diff(w).is_finite(),
        magnitude(q.raws().dot(q.diff(w).raws())) <= 6 * bq,
{
    let s = ONE_RAW as int;
    let omega = Quaternion::from_vector(w.x, w.y, w.z);
    let a = q.raws();
    let e = a.product(omega.raws());
    lemma_derivative_is_orthogonal(a, omega.raws());
    let rho = lemma_product_remainder(q, omega, bq, bw);
    let p = q * omega;
    let pr = p.raws();
    assert(pr.scaled(s) == e.minus(rho));
    // every part of the product is below 2^62
    lemma_product_within(a, omega.raws(), bq, bw);
    assert(magnitude(pr.w) <= 0x1000_0000_0000_0002 && magnitude(pr.x) <= 0x1000_0000_0000_0002
        && magnitude(pr.y) <= 0x1000_0000_0000_0002 && magnitude(pr.z) <= 0x1000_0000_0000_0002)
        by (nonlinear_arith)
        requires
            s == 0x1_0000_0000_0000,
            s * pr.w == e.w - rho.w,
            s * pr.x == e.x - rho.x,
            s * pr.y == e.y - rho.y,
            s * pr.z == e.z - rho.z,
            e.is_within(4 * (bq * bw)),
            rho.is_within(2 * s),
            bq * bw <= 0x400_0000_0000_0000 * s,
    ;
    let kw = lemma_halved(p.w, 0x1000_0000_0000_0002);
    let kx = lemma_halved(p.x, 0x1000_0000_0000_0002);
    let ky = lemma_halved(p.y, 0x1000_0000_0000_0002);
    let kz = lemma_halved(p.z, 0x1000_0000_0000_0002);
    let r = q.diff(w).raws();
    assert(q.diff(w) == p.scale(Scalar::half()));
    // 2 s (q . r) = q . e - q . (rho + s k) = -q . (rho + s k)
    let dw = rho.w + s * kw;
    let dx = rho.x + s * kx;
    let dy = rho.y + s * ky;
    let dz = rho.z + s * kz;
    assert((2 * s) * r.w == e.w - dw && (2 * s) * r.x == e.x - dx && (2 * s) * r.y == e.y - dy
        && (2 * s) * r.z == e.z - dz) by (nonlinear_arith)
        requires
            s * pr.w == e.w - rho.w,
            s * pr.x == e.x - rho.x,
            s * pr.y == e.y - rho.y,
            s * pr.z == e.z - rho.z,
            2 * r.w == pr.w - kw,
            2 * r.x == pr.x - kx,
            2 * r.y == pr.y - ky,
            2 * r.z == pr.z - kz,
            dw == rho.w + s * kw,
            dx == rho.x + s * kx,
            dy == rho.y + s * ky,
            dz == rho.z + s * kz,
    ;
    lemma_distribute(a.w * r.w, a.x * r.x, a.y * r.y, a.z * r.z, 2 * s);
    lemma_linear(a.w, r.w, 0, 2 * s);
    lemma_linear(a.x, r.x, 0, 2 * s);
    lemma_linear(a.y, r.y, 0, 2 * s);
    lemma_linear(a.z, r.z, 0, 2 * s);
    lemma_linear(a.w, e.w, dw, 0);
    lemma_linear(a.x, e.x, dx, 0);
    lemma_linear(a.y, e.y, dy, 0);
    lemma_linear(a.z, e.z, dz, 0);
    assert((2 * s) * a.dot(r) == -(a.w * dw + a.x * dx + a.y * dy + a.z * dz));
    lemma_bounded_product(a.w, dw, bq, 3 * s);
    lemma_bounded_product(a.x, dx, bq, 3 * s);
    lemma_bounded_product(a.y, dy, bq, 3 * s);
    lemma_bounded_product(a.z, dz, bq, 3 * s);
    assert(magnitude(a.dot(r)) <= 6 * bq) by (nonlinear_arith)
        requires
            s > 0,
            (2 * s) * a.dot(r) == -(a.w * dw + a.x * dx + a.y * dy + a.z * dz),
            -(bq * (3 * s)) <= a.w * dw <= bq * (3 * s),
            -(bq * (3 * s)) <= a.x * dx <= bq * (3 * s),
            -(bq * (3 * s)) <= a.y * dy <= bq * (3 * s),
            -(bq * (3 * s)) <= a.z * dz <= bq * (3 * s),
    ;
}

/// The derivative of a unit attitude under an angular velocity of at most
/// two in every coordinate is finite and at most five in every part.
pub proof fn lemma_attitude_rate_is_bounded(q: Quaternion, w: AngularVelocity)
    requires
        q.is_unit(),
        Quaternion::from_vector(w.x, w.y, w.z).is_bounded(2 * ONE_RAW),
    ensures
        q.diff(w).is_bounded(5 * ONE_RAW),
{
    let s = ONE_RAW as int;
    let omega = Quaternion::from_vector(w.x, w.y, w.z);
    lemma_unit_is_bounded(q);
    let bq = s + UNIT_TOLERANCE_RAW;
    assert(bq * (2 * s) <= 0x1000_0000_0000_0000 * s && 4 * (bq * (2 * s)) <= 9 * (s * s) && 0x8000_0000_0000
        * (9 * s + 2) <= 0x1000_0000_0000_0000 * s) by (nonlinear_arith)
        requires
            s == 0x1_0000_0000_0000,
            bq == s + 28147,
    ;
    let rho = lemma_product_remainder(q, omega, bq, 2 * s);
    lemma_product_within(q.raws(), omega.raws(), bq, 2 * s);
    let p = q * omega;
    let pr = p.raws();
    let e = q.raws().product(omega.raws());
    assert(pr.scaled(s) == e.minus(rho));
    assert(pr.is_within(9 * s + 2)) by (nonlinear_arith)
        requires
            s > 0,
            s * pr.w == e.w - rho.w,
            s * pr.x == e.x - rho.x,
            s * pr.y == e.y - rho.y,
            s * pr.z == e.z - rho.z,
            e.is_within(9 * (s * s)),
            rho.is_within(2 * s),
    ;
    let kw = lemma_halved(p.w, 9 * s + 2);
    let kx = lemma_halved(p.x, 9 * s + 2);
    let ky = lemma_halved(p.y, 9 * s + 2);
    let kz = lemma_halved(p.z, 9 * s + 2);
    assert(q.diff(w) == p.scale(Scalar::half()));
}

/// The derivative of a unit attitude under an angular velocity of at most
/// `bw` raw units in every coordinate, where `bw` is at most 256, is finite
/// and at most `3 bw + 2` raw units in every part.
pub proof fn lemma_attitude_rate_within(q: Quaternion, w: AngularVelocity, bw: int)
    requires
        q.is_unit(),
        Quaternion::from_vector(w.x, w.y, w.z).is_bounded(bw),
        0 <= bw <= 0x100_0000_0000_0000,
    ensures
        q.diff(w).is_bounded(3 * bw + 2),
{
    let s = ONE_RAW as int;
    let omega = Quaternion::from_vector(w.x, w.y, w.z);
    lemma_unit_is_bounded(q);
    let bq = s + UNIT_TOLERANCE_RAW;
    assert(bq * bw <= 0x1000_0000_0000_0000 * s && 4 * (bq * bw) <= 5 * (s * bw)
        && 0x8000_0000_0000 * (5 * bw + 2) <= 0x1000_0000_0000_0000 * s) by (nonlinear_arith)
        requires
            s == 0x1_0000_0000_0000,
            bq == s + 28147,
            0 <= bw <= 0x100_0000_0000_0000,
    ;
    let rho = lemma_product_remainder(q, omega, bq, bw);
    lemma_product_within(q.raws(), omega.raws(), bq, bw);
    let p = q * omega;
    let pr = p.raws();
    let e = q.raws().product(omega.raws());
    assert(pr.scaled(s) == e.minus(rho));
    assert(pr.is_within(5 * bw + 2)) by (nonlinear_arith)
        requires
            s > 0,
            s * pr.w == e.w - rho.w,
            s * pr.x == e.x - rho.x,
            s * pr.y == e.y - rho.y,
            s * pr.z == e.z - rho.z,
            e.is_within(5 * (s * bw)),
            rho.is_within(2 * s),
    ;
    let kw = lemma_halved(p.w, 5 * bw + 2);
    let kx = lemma_halved(p.x, 5 * bw + 2);
    let ky = lemma_halved(p.y, 5 * bw + 2);
    let kz = lemma_halved(p.z, 5 * bw + 2);
    assert(q.diff(w) == p.scale(Scalar::half()));
}

} // verus!
