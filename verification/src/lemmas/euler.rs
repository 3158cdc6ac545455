//! The angular acceleration solves Euler's equations, to within the
//! rounding of the last place.
//!
//! In exact arithmetic the matrix of cofactors of the inertia, applied to
//! the torque less the gyroscopic term and divided by the determinant, is
//! the angular acceleration `a` with `J a + w x (J w) = t`. The library
//! forms the cofactors and the determinant exactly and rounds each entry of
//! the inverse once; the products on the way to the gyroscopic term and from
//! the inverse to the acceleration are rounded one by one. Wherever the
//! acceleration is finite, the two sides of the equation differ by no more
//! than `(9 |J| |t'| + 6 |J| + 4 |w| + 1) 2^-48`, where `t'` is the torque
//! less the gyroscopic term and `|.|` the greatest magnitude of an entry.

use vstd::prelude::*;
use crate::angular_momentum::AngularMomentum;
use crate::angular_velocity::AngularVelocity;
use crate::inertia::Inertia;
use crate::lemmas::exact::{
    lemma_apply_linear, lemma_apply_linear_left, lemma_apply_within, lemma_bounded_product,
    lemma_cofactors_invert, lemma_cross_linear, lemma_cross_within, Triple, Voigt,
};
use crate::lemmas::rounding::{
    lemma_cancel, lemma_mul_remainder, lemma_round_div_bound, lemma_round_div_remainder,
};
use crate::scalar::{magnitude, round_div, Scalar, MAX_RAW, ONE_RAW};
use crate::torque::Torque;
use crate::wide::spec_rounded_quotient;

verus! {

/// The raw values of three scalars.
pub open spec fn triple(x: Scalar, y: Scalar, z: Scalar) -> Triple {
    Triple { x: x.raw as int, y: y.raw as int, z: z.raw as int }
}

/// Whether three scalars are finite and at most `bound` raw units in
/// magnitude.
pub open spec fn bounded(x: Scalar, y: Scalar, z: Scalar, bound: int) -> bool {
    x.is_finite() && y.is_finite() && z.is_finite() && triple(x, y, z).is_within(bound)
}

/// A sum of three rounded products: times one it is the sum of the exact
/// products but for a remainder of at most twice one.
proof fn lemma_sum_remainder(
    a1: Scalar,
    b1: Scalar,
    a2: Scalar,
    b2: Scalar,
    a3: Scalar,
    b3: Scalar,
    ma: int,
    mb: int,
) -> (rho: int)
    requires
        bounded(a1, a2, a3, ma),
        bounded(b1, b2, b3, mb),
        ma * mb <= 0x1000_0000_0000_0000 * ONE_RAW,
    ensures
        (a1 * b1 + a2 * b2 + a3 * b3).is_finite(),
        ONE_RAW * (a1 * b1 + a2 * b2 + a3 * b3).raw == a1.raw * b1.raw + a2.raw * b2.raw + a3.raw
            * b3.raw - rho,
        -(2 * ONE_RAW) <= rho <= 2 * ONE_RAW,
{
    let r1 = lemma_mul_remainder(a1, b1, ma, mb);
    let r2 = lemma_mul_remainder(a2, b2, ma, mb);
    let r3 = lemma_mul_remainder(a3, b3, ma, mb);
    r1 + r2 + r3
}

/// A difference of two rounded products: times one it is the difference of
/// the exact products but for a remainder of at most one.
proof fn lemma_difference_remainder(
    a1: Scalar,
    b1: Scalar,
    a2: Scalar,
    b2: Scalar,
    ma: int,
    mb: int,
) -> (rho: int)
    requires
        a1.is_finite() && a2.is_finite() && b1.is_finite() && b2.is_finite(),
        magnitude(a1.raw as int) <= ma && magnitude(a2.raw as int) <= ma,
        magnitude(b1.raw as int) <= mb && magnitude(b2.raw as int) <= mb,
        ma * mb <= 0x1000_0000_0000_0000 * ONE_RAW,
    ensures
        (a1 * b1 - a2 * b2).is_finite(),
        ONE_RAW * (a1 * b1 - a2 * b2).raw == a1.raw * b1.raw - a2.raw * b2.raw - rho,
        -ONE_RAW <= rho <= ONE_RAW,
{
    let r1 = lemma_mul_remainder(a1, b1, ma, mb);
    let r2 = lemma_mul_remainder(a2, b2, ma, mb);
    r1 - r2
}

/// The rounded product of a matrix and a vector against the exact one.
proof fn lemma_matvec_remainder(j: Inertia, x: Scalar, y: Scalar, z: Scalar, mj: int, mv: int) -> (rho:
    Triple)
    requires
        j.is_bounded(mj),
        bounded(x, y, z, mv),
        mj * mv <= 0x1000_0000_0000_0000 * ONE_RAW,
    ensures
        ({
            let rx = j.j1 * x + j.j6 * y + j.j5 * z;
            let ry = j.j6 * x + j.j2 * y + j.j4 * z;
            let rz = j.j5 * x + j.j4 * y + j.j3 * z;
            &&& rx.is_finite() && ry.is_finite() && rz.is_finite()
            &&& triple(rx, ry, rz).scaled(ONE_RAW as int) == j.raws().apply(triple(x, y, z)).minus(
                rho,
            )
            &&& rho.is_within(2 * ONE_RAW)
        }),
{
    let rx = lemma_sum_remainder(j.j1, x, j.j6, y, j.j5, z, mj, mv);
    let ry = lemma_sum_remainder(j.j6, x, j.j2, y, j.j4, z, mj, mv);
    let rz = lemma_sum_remainder(j.j5, x, j.j4, y, j.j3, z, mj, mv);
    Triple { x: rx, y: ry, z: rz }
}

/// The rounded cross product against the exact one.
pub(crate) proof fn lemma_cross_remainder(
    wx: Scalar,
    wy: Scalar,
    wz: Scalar,
    hx: Scalar,
    hy: Scalar,
    hz: Scalar,
    mw: int,
    mh: int,
) -> (rho: Triple)
    requires
        bounded(wx, wy, wz, mw),
        bounded(hx, hy, hz, mh),
        mw * mh <= 0x1000_0000_0000_0000 * ONE_RAW,
    ensures
        ({
            let gx = wy * hz - wz * hy;
            let gy = wz * hx - wx * hz;
            let gz = wx * hy - wy * hx;
            &&& gx.is_finite() && gy.is_finite() && gz.is_finite()
            &&& triple(gx, gy, gz).scaled(ONE_RAW as int) == triple(wx, wy, wz).cross(
                triple(hx, hy, hz),
            ).minus(rho)
            &&& rho.is_within(ONE_RAW as int)
        }),
{
    let rx = lemma_difference_remainder(wy, hz, wz, hy, mw, mh);
    let ry = lemma_difference_remainder(wz, hx, wx, hz, mw, mh);
    let rz = lemma_difference_remainder(wx, hy, wy, hx, mw, mh);
    Triple { x: rx, y: ry, z: rz }
}

/// A vector times one is at most `bound` times one and a remainder of twice
/// one: the vector is at most `bound + 2`.
proof fn lemma_triple_within(v: Triple, e: Triple, rho: Triple, bound: int)
    requires
        v.scaled(ONE_RAW as int) == e.minus(rho),
        e.is_within(bound * ONE_RAW),
        rho.is_within(2 * ONE_RAW),
    ensures
        v.is_within(bound + 2),
{
    let s = ONE_RAW as int;
    assert(v.is_within(bound + 2)) by (nonlinear_arith)
        requires
            s > 0,
            s * v.x == e.x - rho.x,
            s * v.y == e.y - rho.y,
            s * v.z == e.z - rho.z,
            e.is_within(bound * s),
            rho.is_within(2 * s),
    ;
}

/// A multiple of a difference and of a sum of vectors, and a positive
/// multiple of a bounded vector.
proof fn lemma_triple_scaled(u: Triple, v: Triple, k: int, bound: int)
    ensures
        u.minus(v).scaled(k) == u.scaled(k).minus(v.scaled(k)),
        u.plus(v).scaled(k) == u.scaled(k).plus(v.scaled(k)),
        k >= 0 && u.is_within(bound) ==> u.scaled(k).is_within(bound * k),
{
    assert(k * (u.x - v.x) == k * u.x - k * v.x && k * (u.y - v.y) == k * u.y - k * v.y && k * (u.z
        - v.z) == k * u.z - k * v.z) by (nonlinear_arith);
    assert(k * (u.x + v.x) == k * u.x + k * v.x && k * (u.y + v.y) == k * u.y + k * v.y && k * (u.z
        + v.z) == k * u.z + k * v.z) by (nonlinear_arith);
    if k >= 0 && u.is_within(bound) {
        assert(u.scaled(k).is_within(bound * k)) by (nonlinear_arith)
            requires
                k >= 0,
                u.is_within(bound),
        ;
    }
}

/// The torque that the angular acceleration answers to: the applied torque
/// less the rounded gyroscopic term.
pub open spec fn effective_torque(w: AngularVelocity, inertia: Inertia, torque: Torque) -> Torque {
    let h = AngularMomentum::product(inertia, w);
    torque + (-Torque::new(
        w.y * h.z - w.z * h.y,
        w.z * h.x - w.x * h.z,
        w.x * h.y - w.y * h.x,
    ))
}

/// The effective torque against the exact one: times the square of one it
/// is the applied torque times that square, less the exact gyroscopic term,
/// but for the result, of at most nine times the square of one.
proof fn lemma_effective_torque(w: AngularVelocity, inertia: Inertia, torque: Torque) -> (err: Triple)
    requires
        inertia.is_bounded(4 * ONE_RAW),
        bounded(w.x, w.y, w.z, 2 * ONE_RAW),
        bounded(torque.x, torque.y, torque.z, 4 * ONE_RAW),
    ensures
        ({
            let t = effective_torque(w, inertia, torque);
            let exact = triple(w.x, w.y, w.z).cross(inertia.raws().apply(triple(w.x, w.y, w.z)));
            &&& bounded(t.x, t.y, t.z, 101 * ONE_RAW)
            &&& triple(t.x, t.y, t.z).scaled(ONE_RAW * ONE_RAW) == triple(
                torque.x,
                torque.y,
                torque.z,
            ).scaled(ONE_RAW * ONE_RAW).minus(exact).plus(err)
            &&& err.is_within(9 * (ONE_RAW * ONE_RAW))
        }),
{
    let s = ONE_RAW as int;
    let j = inertia.raws();
    let wr = triple(w.x, w.y, w.z);
    assert((4 * s) * (2 * s) == 8 * (s * s) && (2 * s) * (24 * s + 2) == 48 * (s * s) + 4 * s && s
        * s == 0x1_0000_0000_0000_0000_0000_0000 && (2 * s) * (2 * s) == 4 * (s * s))
        by (nonlinear_arith)
        requires
            s == 0x1_0000_0000_0000,
    ;
    // The angular momentum.
    let h = AngularMomentum::product(inertia, w);
    let rho_h = lemma_matvec_remainder(inertia, w.x, w.y, w.z, 4 * s, 2 * s);
    let hr = triple(h.x, h.y, h.z);
    lemma_apply_within(j, wr, 4 * s, 2 * s);
    lemma_triple_within(hr, j.apply(wr), rho_h, 24 * s);
    // The gyroscopic term.
    let g = Torque::new(w.y * h.z - w.z * h.y, w.z * h.x - w.x * h.z, w.x * h.y - w.y * h.x);
    let rho_g = lemma_cross_remainder(w.x, w.y, w.z, h.x, h.y, h.z, 2 * s, 24 * s + 2);
    let gr = triple(g.x, g.y, g.z);
    lemma_cross_within(wr, hr, 2 * s, 24 * s + 2);
    lemma_triple_within(gr, wr.cross(hr), Triple { x: rho_g.x, y: rho_g.y, z: rho_g.z }, 97 * s);
    let t = effective_torque(w, inertia, torque);
    let tr = triple(t.x, t.y, t.z);
    assert(tr == triple(torque.x, torque.y, torque.z).minus(gr));
    // s^2 g = w x (s h) - s rho_g = w x (J w) - w x rho_h - s rho_g
    lemma_cross_linear(wr, hr, hr, s);
    lemma_cross_linear(wr, j.apply(wr), rho_h, s);
    lemma_cross_within(wr, rho_h, 2 * s, 2 * s);
    lemma_triple_scaled(wr.cross(hr), rho_g, s, s);
    lemma_triple_scaled(rho_g, rho_g, s, s);
    let err = wr.cross(rho_h).plus(rho_g.scaled(s));
    assert(gr.scaled(s).scaled(s) == wr.cross(j.apply(wr)).minus(err));
    assert(gr.scaled(s).scaled(s) == gr.scaled(s * s) && triple(torque.x, torque.y, torque.z).minus(
        gr,
    ).scaled(s * s) == triple(torque.x, torque.y, torque.z).scaled(s * s).minus(gr.scaled(s * s)))
        by {
        lemma_triple_scaled(triple(torque.x, torque.y, torque.z), gr, s * s, 0);
        assert(s * (s * gr.x) == (s * s) * gr.x && s * (s * gr.y) == (s * s) * gr.y && s * (s
            * gr.z) == (s * s) * gr.z) by (nonlinear_arith);
    }
    err
}

/// The product of two scalars, where it is finite: both factors are finite,
/// and its raw value times one is the product of the raw values but for a
/// remainder of at most half of one.
proof fn lemma_finite_product(a: Scalar, b: Scalar) -> (r: int)
    requires
        (a * b).is_finite(),
    ensures
        a.is_finite(),
        b.is_finite(),
        ONE_RAW * (a * b).raw == a.raw * b.raw - r,
        -ONE_RAW <= 2 * r <= ONE_RAW,
{
    let n = a.raw * b.raw;
    lemma_round_div_remainder(n, ONE_RAW as int);
    n - ONE_RAW * round_div(n, ONE_RAW as int)
}

/// A sum of three rounded products, where it is finite: the factors are
/// finite, and the sum times one is the sum of the exact products but for a
/// remainder of at most twice one.
proof fn lemma_finite_sum(a1: Scalar, b1: Scalar, a2: Scalar, b2: Scalar, a3: Scalar, b3: Scalar) -> (rho:
    int)
    requires
        (a1 * b1 + a2 * b2 + a3 * b3).is_finite(),
    ensures
        a1.is_finite() && a2.is_finite() && a3.is_finite(),
        b1.is_finite() && b2.is_finite() && b3.is_finite(),
        ONE_RAW * (a1 * b1 + a2 * b2 + a3 * b3).raw == a1.raw * b1.raw + a2.raw * b2.raw + a3.raw
            * b3.raw - rho,
        -(2 * ONE_RAW) <= rho <= 2 * ONE_RAW,
{
    assert((a1 * b1 + a2 * b2).is_finite() && (a3 * b3).is_finite());
    assert((a1 * b1).is_finite() && (a2 * b2).is_finite());
    let r1 = lemma_finite_product(a1, b1);
    let r2 = lemma_finite_product(a2, b2);
    let r3 = lemma_finite_product(a3, b3);
    r1 + r2 + r3
}

/// A difference of two rounded products, where it is finite: the factors
/// are finite, and the difference times one is the difference of the exact
/// products but for a remainder of at most one.
proof fn lemma_finite_difference(a1: Scalar, b1: Scalar, a2: Scalar, b2: Scalar) -> (rho: int)
    requires
        (a1 * b1 - a2 * b2).is_finite(),
    ensures
        a1.is_finite() && a2.is_finite() && b1.is_finite() && b2.is_finite(),
        ONE_RAW * (a1 * b1 - a2 * b2).raw == a1.raw * b1.raw - a2.raw * b2.raw - rho,
        -ONE_RAW <= rho <= ONE_RAW,
{
    assert((a1 * b1).is_finite() && (a2 * b2).is_finite());
    let r1 = lemma_finite_product(a1, b1);
    let r2 = lemma_finite_product(a2, b2);
    r1 - r2
}

/// The rounded product of a matrix and a vector, where it is finite,
/// against the exact one.
proof fn lemma_finite_matvec(j: Inertia, x: Scalar, y: Scalar, z: Scalar) -> (rho: Triple)
    requires
        (j.j1 * x + j.j6 * y + j.j5 * z).is_finite(),
        (j.j6 * x + j.j2 * y + j.j4 * z).is_finite(),
        (j.j5 * x + j.j4 * y + j.j3 * z).is_finite(),
    ensures
        j.is_finite(),
        x.is_finite() && y.is_finite() && z.is_finite(),
        ({
            let rx = j.j1 * x + j.j6 * y + j.j5 * z;
            let ry = j.j6 * x + j.j2 * y + j.j4 * z;
            let rz = j.j5 * x + j.j4 * y + j.j3 * z;
            &&& triple(rx, ry, rz).scaled(ONE_RAW as int) == j.raws().apply(triple(x, y, z)).minus(
                rho,
            )
            &&& rho.is_within(2 * ONE_RAW)
        }),
{
    let rx = lemma_finite_sum(j.j1, x, j.j6, y, j.j5, z);
    let ry = lemma_finite_sum(j.j6, x, j.j2, y, j.j4, z);
    let rz = lemma_finite_sum(j.j5, x, j.j4, y, j.j3, z);
    Triple { x: rx, y: ry, z: rz }
}

/// The rounded cross product, where it is finite, against the exact one.
proof fn lemma_finite_cross(
    wx: Scalar,
    wy: Scalar,
    wz: Scalar,
    hx: Scalar,
    hy: Scalar,
    hz: Scalar,
) -> (rho: Triple)
    requires
        (wy * hz - wz * hy).is_finite(),
        (wz * hx - wx * hz).is_finite(),
        (wx * hy - wy * hx).is_finite(),
    ensures
        wx.is_finite() && wy.is_finite() && wz.is_finite(),
        hx.is_finite() && hy.is_finite() && hz.is_finite(),
        ({
            let gx = wy * hz - wz * hy;
            let gy = wz * hx - wx * hz;
            let gz = wx * hy - wy * hx;
            &&& triple(gx, gy, gz).scaled(ONE_RAW as int) == triple(wx, wy, wz).cross(
                triple(hx, hy, hz),
            ).minus(rho)
            &&& rho.is_within(ONE_RAW as int)
        }),
{
    let rx = lemma_finite_difference(wy, hz, wz, hy);
    let ry = lemma_finite_difference(wz, hx, wx, hz);
    let rz = lemma_finite_difference(wx, hy, wy, hx);
    Triple { x: rx, y: ry, z: rz }
}

/// The effective torque, where it is finite, against the exact one: times
/// the square of one it is the applied torque times that square, less the
/// exact gyroscopic term, but for the result, which the rounding of the
/// angular momentum and of the cross product leave.
proof fn lemma_finite_effective_torque(
    w: AngularVelocity,
    inertia: Inertia,
    torque: Torque,
    mw: int,
) -> (err: Triple)
    requires
        effective_torque(w, inertia, torque).is_finite(),
        triple(w.x, w.y, w.z).is_within(mw),
    ensures
        ({
            let t = effective_torque(w, inertia, torque);
            let exact = triple(w.x, w.y, w.z).cross(inertia.raws().apply(triple(w.x, w.y, w.z)));
            &&& triple(t.x, t.y, t.z).scaled(ONE_RAW * ONE_RAW) == triple(
                torque.x,
                torque.y,
                torque.z,
            ).scaled(ONE_RAW * ONE_RAW).minus(exact).plus(err)
            &&& err.is_within(4 * (mw * ONE_RAW) + ONE_RAW * ONE_RAW)
        }),
{
    let s = ONE_RAW as int;
    let j = inertia.raws();
    let wr = triple(w.x, w.y, w.z);
    let h = AngularMomentum::product(inertia, w);
    let g = Torque::new(w.y * h.z - w.z * h.y, w.z * h.x - w.x * h.z, w.x * h.y - w.y * h.x);
    let t = effective_torque(w, inertia, torque);
    assert(t.x == torque.x + (-g.x) && t.y == torque.y + (-g.y) && t.z == torque.z + (-g.z));
    assert(g.x.is_finite() && g.y.is_finite() && g.z.is_finite());
    let rho_g = lemma_finite_cross(w.x, w.y, w.z, h.x, h.y, h.z);
    let rho_h = lemma_finite_matvec(inertia, w.x, w.y, w.z);
    let hr = triple(h.x, h.y, h.z);
    let gr = triple(g.x, g.y, g.z);
    let tr = triple(t.x, t.y, t.z);
    assert(tr == triple(torque.x, torque.y, torque.z).minus(gr));
    // s^2 g = w x (s h) - s rho_g = w x (J w) - w x rho_h - s rho_g
    lemma_cross_linear(wr, hr, hr, s);
    lemma_cross_linear(wr, j.apply(wr), rho_h, s);
    lemma_cross_within(wr, rho_h, mw, 2 * s);
    lemma_triple_scaled(wr.cross(hr), rho_g, s, s);
    lemma_triple_scaled(rho_g, rho_g, s, s);
    assert(2 * (mw * (2 * s)) == 4 * (mw * s)) by (nonlinear_arith);
    let err = wr.cross(rho_h).plus(rho_g.scaled(s));
    assert(gr.scaled(s).scaled(s) == wr.cross(j.apply(wr)).minus(err));
    assert(gr.scaled(s).scaled(s) == gr.scaled(s * s) && triple(torque.x, torque.y, torque.z).minus(
        gr,
    ).scaled(s * s) == triple(torque.x, torque.y, torque.z).scaled(s * s).minus(gr.scaled(s * s)))
        by {
        lemma_triple_scaled(triple(torque.x, torque.y, torque.z), gr, s * s, 0);
        assert(s * (s * gr.x) == (s * s) * gr.x && s * (s * gr.y) == (s * s) * gr.y && s * (s
            * gr.z) == (s * s) * gr.z) by (nonlinear_arith);
    }
    err
}

/// A quotient rounded once, where it is finite: the divisor is not zero,
/// and the divisor times the quotient is the dividend but for a remainder
/// of at most half the divisor.
proof fn lemma_finite_quotient(c: int, det: int) -> (r: int)
    requires
        spec_rounded_quotient(c * (ONE_RAW * ONE_RAW), det).is_finite(),
    ensures
        det != 0,
        det * spec_rounded_quotient(c * (ONE_RAW * ONE_RAW), det).raw == (ONE_RAW * ONE_RAW) * c
            - r,
        -magnitude(det) <= 2 * r <= magnitude(det),
{
    let n = c * (ONE_RAW * ONE_RAW);
    let q = round_div(n, det);
    assert(n == (ONE_RAW * ONE_RAW) * c) by (nonlinear_arith)
        requires
            n == c * (ONE_RAW * ONE_RAW),
    ;
    if det > 0 {
        lemma_round_div_remainder(n, det);
    } else {
        lemma_round_div_remainder(-n, -det);
        assert((-det) * q == -(det * q)) by (nonlinear_arith);
    }
    n - det * q
}

/// The inverse of an inertia, where it is finite: the inertia is finite, its
/// determinant is not zero, and the determinant times the inverse is the
/// matrix of cofactors but for remainders of at most half the determinant.
pub proof fn lemma_finite_inverse(inertia: Inertia) -> (rem: Voigt)
    requires
        inertia.spec_inverse().is_finite(),
    ensures
        inertia.is_finite(),
        inertia.raws().determinant() != 0,
        inertia.spec_inverse().raws().scaled(inertia.raws().determinant())
            == inertia.raws().cofactors().scaled(ONE_RAW * ONE_RAW).minus(rem),
        rem.scaled(2).is_within(magnitude(inertia.raws().determinant())),
{
    let c = inertia.raws().cofactors();
    let det = inertia.raws().determinant();
    let r1 = lemma_finite_quotient(c.j1, det);
    let r2 = lemma_finite_quotient(c.j2, det);
    let r3 = lemma_finite_quotient(c.j3, det);
    let r4 = lemma_finite_quotient(c.j4, det);
    let r5 = lemma_finite_quotient(c.j5, det);
    let r6 = lemma_finite_quotient(c.j6, det);
    Voigt { j1: r1, j2: r2, j3: r3, j4: r4, j5: r5, j6: r6 }
}

/// No cofactor of a matrix exceeds twice the square of the bound of its
/// entries.
proof fn lemma_cofactors_within(j: Voigt, mj: int)
    requires
        j.is_within(mj),
    ensures
        j.cofactors().is_within(2 * (mj * mj)),
{
    lemma_bounded_product(j.j2, j.j3, mj, mj);
    lemma_bounded_product(j.j4, j.j4, mj, mj);
    lemma_bounded_product(j.j1, j.j3, mj, mj);
    lemma_bounded_product(j.j5, j.j5, mj, mj);
    lemma_bounded_product(j.j1, j.j2, mj, mj);
    lemma_bounded_product(j.j6, j.j6, mj, mj);
    lemma_bounded_product(j.j5, j.j6, mj, mj);
    lemma_bounded_product(j.j1, j.j4, mj, mj);
    lemma_bounded_product(j.j4, j.j6, mj, mj);
    lemma_bounded_product(j.j2, j.j5, mj, mj);
    lemma_bounded_product(j.j5, j.j4, mj, mj);
    lemma_bounded_product(j.j3, j.j6, mj, mj);
}

/// A quotient rounded once is finite and at most `k` raw units in magnitude
/// where the dividend is at most `k` times the divisor in magnitude.
proof fn lemma_bounded_quotient(c: int, det: int, most: int, k: int)
    requires
        det != 0,
        -most <= c <= most,
        most * (ONE_RAW * ONE_RAW) <= k * magnitude(det),
        0 <= k <= MAX_RAW,
    ensures
        spec_rounded_quotient(c * (ONE_RAW * ONE_RAW), det).is_finite(),
        magnitude(spec_rounded_quotient(c * (ONE_RAW * ONE_RAW), det).raw as int) <= k,
{
    let unit = ONE_RAW * ONE_RAW;
    let n = c * unit;
    lemma_bounded_product(c, unit as int, most, unit as int);
    if det > 0 {
        lemma_round_div_bound(n, det, k);
    } else {
        lemma_round_div_bound(-n, -det, k);
    }
}

/// The inverse of a finite inertia with entries of at most `mj` raw units in
/// magnitude is finite, with entries of at most `k` raw units, where the
/// determinant is not zero and `k` times its magnitude is at least twice
/// the square of `mj`, times the square of one.
pub proof fn lemma_inverse_is_bounded(inertia: Inertia, mj: int, k: int)
    requires
        inertia.is_bounded(mj),
        inertia.raws().determinant() != 0,
        (2 * (mj * mj)) * (ONE_RAW * ONE_RAW) <= k * magnitude(inertia.raws().determinant()),
        0 <= k <= MAX_RAW,
    ensures
        inertia.spec_inverse().is_bounded(k),
{
    let c = inertia.raws().cofactors();
    let det = inertia.raws().determinant();
    lemma_cofactors_within(inertia.raws(), mj);
    lemma_bounded_quotient(c.j1, det, 2 * (mj * mj), k);
    lemma_bounded_quotient(c.j2, det, 2 * (mj * mj), k);
    lemma_bounded_quotient(c.j3, det, 2 * (mj * mj), k);
    lemma_bounded_quotient(c.j4, det, 2 * (mj * mj), k);
    lemma_bounded_quotient(c.j5, det, 2 * (mj * mj), k);
    lemma_bounded_quotient(c.j6, det, 2 * (mj * mj), k);
}

/// One coordinate of the inertia times the angular acceleration against the
/// effective torque.
///
/// `x` is the coordinate of the inertia applied to the acceleration, `tr`
/// that of the effective torque and `y` that of the inertia applied to the
/// rounded inverse applied to the torque; `e2` and `e3` hold what the
/// roundings add.
proof fn lemma_residual(det: int, x: int, tr: int, y: int, e2: int, e3: int, b2: int, b3: int)
    requires
        det != 0,
        ONE_RAW * x == y - e3,
        det * y == (ONE_RAW * ONE_RAW) * (det * tr) - e2,
        -(b2 * magnitude(det)) <= e2 <= b2 * magnitude(det),
        -b3 <= e3 <= b3,
    ensures
        magnitude(ONE_RAW * x - (ONE_RAW * ONE_RAW) * tr) <= b2 + b3,
{
    let s = ONE_RAW as int;
    let ss = s * s;
    let pd = magnitude(det);
    let z = s * x - ss * tr;
    assert(det * z == -e2 - det * e3) by (nonlinear_arith)
        requires
            z == s * x - ss * tr,
            s * x == y - e3,
            det * y == ss * (det * tr) - e2,
    ;
    lemma_bounded_product(det, e3, pd, b3);
    assert(pd * b3 == b3 * pd && (b2 + b3) * pd == b2 * pd + b3 * pd) by (nonlinear_arith);
    if det > 0 {
        lemma_cancel(pd, z, b2 + b3);
    } else {
        assert(pd * (-z) == det * z) by (nonlinear_arith)
            requires
                pd == -det,
        ;
        lemma_cancel(pd, -z, b2 + b3);
    }
}

/// What is left of Euler's equations at the angular acceleration `a`: the
/// inertia times `a`, and the gyroscopic term `w x (J w)`, less the torque,
/// in exact arithmetic on the raw values, times the square of one.
pub open spec fn euler_residual(
    w: AngularVelocity,
    inertia: Inertia,
    torque: Torque,
    a: AngularVelocity,
) -> Triple {
    let j = inertia.raws();
    let wr = triple(w.x, w.y, w.z);
    j.apply(triple(a.x, a.y, a.z)).scaled(ONE_RAW as int).plus(wr.cross(j.apply(wr))).minus(
        triple(torque.x, torque.y, torque.z).scaled(ONE_RAW * ONE_RAW),
    )
}

/// By how much the two sides of Euler's equations may differ at the angular
/// acceleration that the library returns, times the cube of one:
/// `9 |J| |t'| + 6 |J| + 4 |w| + 1` raw units, where `t'` is the torque less
/// the gyroscopic term and `|.|` the greatest magnitude of an entry.
pub open spec fn euler_tolerance(w: AngularVelocity, inertia: Inertia, torque: Torque) -> int {
    let t = effective_torque(w, inertia, torque);
    let mj = inertia.raws().largest();
    let mw = triple(w.x, w.y, w.z).largest();
    let mt = triple(t.x, t.y, t.z).largest();
    9 * (mj * mt) + 6 * (mj * ONE_RAW) + 4 * (mw * ONE_RAW) + ONE_RAW * ONE_RAW
}

/// Wherever the angular acceleration is finite it solves Euler's equations
/// to within the tolerance: the inertia times the acceleration and the
/// gyroscopic term `w x (J w)` add up to the torque.
pub proof fn lemma_diff_solves_eulers_equations(
    w: AngularVelocity,
    inertia: Inertia,
    torque: Torque,
)
    requires
        w.diff(inertia, torque).is_finite(),
    ensures
        euler_residual(w, inertia, torque, w.diff(inertia, torque)).is_within(
            euler_tolerance(w, inertia, torque),
        ),
{
    let s = ONE_RAW as int;
    let ss = s * s;
    let j = inertia.raws();
    let wr = triple(w.x, w.y, w.z);
    let t = effective_torque(w, inertia, torque);
    let tr = triple(t.x, t.y, t.z);
    let inv = inertia.spec_inverse();
    let ir = inv.raws();
    let mj = j.largest();
    let mw = wr.largest();
    let mt = tr.largest();
    // The acceleration: the rounded inverse applied to the effective torque.
    let a = w.diff(inertia, torque);
    assert(a.x == inv.j1 * t.x + inv.j6 * t.y + inv.j5 * t.z);
    assert(a.y == inv.j6 * t.x + inv.j2 * t.y + inv.j4 * t.z);
    assert(a.z == inv.j5 * t.x + inv.j4 * t.y + inv.j3 * t.z);
    let rho_a = lemma_finite_matvec(inv, t.x, t.y, t.z);
    let ar = triple(a.x, a.y, a.z);
    let err = lemma_finite_effective_torque(w, inertia, torque, mw);
    let rem = lemma_finite_inverse(inertia);
    let det = j.determinant();
    let pd = magnitude(det);
    assert(rem.is_within(pd));
    let exact_cofactors = j.cofactors();
    // s (J a) = J (inv t) - J rho_a
    lemma_apply_linear(j, ar, ar, s);
    lemma_apply_linear(j, ir.apply(tr), rho_a, s);
    let y = j.apply(ir.apply(tr));
    let e3 = j.apply(rho_a);
    lemma_apply_within(j, rho_a, mj, 2 * s);
    assert(j.apply(ar).scaled(s) == y.minus(e3));
    // det (J (inv t)) = J ((det inv) t) = s^2 det t - J (rem t)
    lemma_apply_linear(j, ir.apply(tr), ir.apply(tr), det);
    lemma_apply_linear_left(ir, ir, tr, det);
    lemma_apply_linear_left(exact_cofactors.scaled(ss), rem, tr, 0);
    lemma_apply_linear_left(exact_cofactors, exact_cofactors, tr, ss);
    lemma_apply_linear(j, exact_cofactors.apply(tr).scaled(ss), rem.apply(tr), 0);
    lemma_apply_linear(j, exact_cofactors.apply(tr), exact_cofactors.apply(tr), ss);
    lemma_cofactors_invert(j, tr);
    let e2 = j.apply(rem.apply(tr));
    assert(y.scaled(det) == tr.scaled(det).scaled(ss).minus(e2));
    lemma_apply_within(rem, tr, pd, mt);
    lemma_apply_within(j, rem.apply(tr), mj, 3 * (pd * mt));
    assert(3 * (mj * (3 * (pd * mt))) == (9 * (mj * mt)) * pd && 3 * (mj * (2 * s)) == 6 * (mj
        * s)) by (nonlinear_arith);
    let b2 = 9 * (mj * mt);
    let b3 = 6 * (mj * s);
    lemma_residual(det, j.apply(ar).x, tr.x, y.x, e2.x, e3.x, b2, b3);
    lemma_residual(det, j.apply(ar).y, tr.y, y.y, e2.y, e3.y, b2, b3);
    lemma_residual(det, j.apply(ar).z, tr.z, y.z, e2.z, e3.z, b2, b3);
}

/// Whether the inertia has entries of magnitude at most four and a
/// determinant of magnitude one or more, the angular velocity is at most two
/// and the torque at most four in every coordinate.
pub open spec fn is_moderate(w: AngularVelocity, inertia: Inertia, torque: Torque) -> bool {
    &&& inertia.is_bounded(4 * ONE_RAW)
    &&& magnitude(inertia.raws().determinant()) >= ONE_RAW * (ONE_RAW * ONE_RAW)
    &&& bounded(w.x, w.y, w.z, 2 * ONE_RAW)
    &&& bounded(torque.x, torque.y, torque.z, 4 * ONE_RAW)
}

/// The angular acceleration of a body with an inertia with entries of
/// magnitude at most four and a determinant of magnitude one or more, at an
/// angular velocity of at most two and under a torque of at most four in
/// every coordinate, is finite.
pub proof fn lemma_moderate_acceleration_is_finite(
    w: AngularVelocity,
    inertia: Inertia,
    torque: Torque,
)
    requires
        is_moderate(w, inertia, torque),
    ensures
        w.diff(inertia, torque).is_finite(),
{
    let s = ONE_RAW as int;
    let det = inertia.raws().determinant();
    assert((2 * ((4 * s) * (4 * s))) * (s * s) == (32 * s) * (s * (s * s)) && (32 * s) * (101 * s)
        <= 0x1000_0000_0000_0000 * s) by (nonlinear_arith)
        requires
            s == 0x1_0000_0000_0000,
    ;
    assert((32 * s) * (s * (s * s)) <= (32 * s) * magnitude(det)) by (nonlinear_arith)
        requires
            s > 0,
            magnitude(det) >= s * (s * s),
    ;
    lemma_inverse_is_bounded(inertia, 4 * s, 32 * s);
    let t = effective_torque(w, inertia, torque);
    let err = lemma_effective_torque(w, inertia, torque);
    let inv = inertia.spec_inverse();
    let a = w.diff(inertia, torque);
    assert(a.x == inv.j1 * t.x + inv.j6 * t.y + inv.j5 * t.z);
    assert(a.y == inv.j6 * t.x + inv.j2 * t.y + inv.j4 * t.z);
    assert(a.z == inv.j5 * t.x + inv.j4 * t.y + inv.j3 * t.z);
    let rho = lemma_matvec_remainder(inv, t.x, t.y, t.z, 32 * s, 101 * s);
}

/// The angular acceleration of a body whose inertia has entries of magnitude
/// at most four and an inverse with entries of magnitude at most one, at an
/// angular velocity of at most two and under a torque of at most four in
/// every coordinate, is finite and at most 304 in every coordinate.
pub proof fn lemma_acceleration_is_bounded(w: AngularVelocity, inertia: Inertia, torque: Torque)
    requires
        inertia.is_bounded(4 * ONE_RAW),
        inertia.spec_inverse().is_bounded(ONE_RAW as int),
        bounded(w.x, w.y, w.z, 2 * ONE_RAW),
        bounded(torque.x, torque.y, torque.z, 4 * ONE_RAW),
    ensures
        bounded(
            w.diff(inertia, torque).x,
            w.diff(inertia, torque).y,
            w.diff(inertia, torque).z,
            304 * ONE_RAW,
        ),
{
    let s = ONE_RAW as int;
    let t = effective_torque(w, inertia, torque);
    let err = lemma_effective_torque(w, inertia, torque);
    let inv = inertia.spec_inverse();
    let a = w.diff(inertia, torque);
    assert(a.x == inv.j1 * t.x + inv.j6 * t.y + inv.j5 * t.z);
    assert(a.y == inv.j6 * t.x + inv.j2 * t.y + inv.j4 * t.z);
    assert(a.z == inv.j5 * t.x + inv.j4 * t.y + inv.j3 * t.z);
    assert(s * (101 * s) <= 0x1000_0000_0000_0000 * s && s * (101 * s) == (101 * s) * s)
        by (nonlinear_arith)
        requires
            s == 0x1_0000_0000_0000,
    ;
    let rho = lemma_matvec_remainder(inv, t.x, t.y, t.z, s, 101 * s);
    lemma_apply_within(inv.raws(), triple(t.x, t.y, t.z), s, 101 * s);
    lemma_triple_within(triple(a.x, a.y, a.z), inv.raws().apply(triple(t.x, t.y, t.z)), rho, 303 * s);
}

} // verus!
