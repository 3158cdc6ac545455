//! The gyroscopic term does no work and the damper takes energy out, to
//! within a few raw units.
//!
//! In exact arithmetic the cross product `w x h` is at right angles to `w`,
//! and the damping torque `c (wd - w)` on the body with its opposite on the
//! damper has the power `-c |wd - w|^2`. The fixed-point cross product and
//! damping torque round every product once.

use vstd::prelude::*;
use crate::angular_velocity::AngularVelocity;
use crate::damper::KaneDamper;
use crate::integrator::damping_torque;
use crate::lemmas::euler::{bounded, lemma_cross_remainder, triple};
use crate::lemmas::exact::{
    lemma_bounded_product, lemma_distribute, lemma_gyroscopic_term_is_orthogonal, lemma_linear,
    Triple,
};
use crate::lemmas::rounding::lemma_mul_remainder;
use crate::scalar::{magnitude, Scalar, ONE_RAW};

verus! {

/// The rounded cross product of `w` and `h` is at right angles to `w`: the
/// dot product of the raw values is at most three times `bw` in magnitude,
/// where `bw` bounds the coordinates of `w`, `bh` those of `h`, and `bw`
/// times `bh` is at most `2^60`.
pub proof fn lemma_gyroscopic_term_does_no_work(
    w: AngularVelocity,
    hx: Scalar,
    hy: Scalar,
    hz: Scalar,
    bw: int,
    bh: int,
)
    requires
        bounded(w.x, w.y, w.z, bw),
        bounded(hx, hy, hz, bh),
        bw * bh <= 0x1000_0000_0000_0000 * ONE_RAW,
    ensures
        ({
            let gx = w.y * hz - w.z * hy;
            let gy = w.z * hx - w.x * hz;
            let gz = w.x * hy - w.y * hx;
            &&& gx.is_finite() && gy.is_finite() && gz.is_finite()
            &&& magnitude(triple(w.x, w.y, w.z).dot(triple(gx, gy, gz))) <= 3 * bw
        }),
{
    let s = ONE_RAW as int;
    let gx = w.y * hz - w.z * hy;
    let gy = w.z * hx - w.x * hz;
    let gz = w.x * hy - w.y * hx;
    let rho = lemma_cross_remainder(w.x, w.y, w.z, hx, hy, hz, bw, bh);
    let wr = triple(w.x, w.y, w.z);
    let g = triple(gx, gy, gz);
    let exact = wr.cross(triple(hx, hy, hz));
    lemma_gyroscopic_term_is_orthogonal(wr, triple(hx, hy, hz));
    // s (w . g) = w . (w x h) - w . rho = -w . rho
    lemma_distribute(wr.x * g.x, wr.y * g.y, wr.z * g.z, 0, s);
    lemma_linear(wr.x, g.x, 0, s);
    lemma_linear(wr.y, g.y, 0, s);
    lemma_linear(wr.z, g.z, 0, s);
    lemma_linear(wr.x, exact.x, rho.x, 0);
    lemma_linear(wr.y, exact.y, rho.y, 0);
    lemma_linear(wr.z, exact.z, rho.z, 0);
    assert(s * 0 == 0) by (nonlinear_arith);
    assert(s * wr.dot(g) == -(wr.x * rho.x + wr.y * rho.y + wr.z * rho.z));
    lemma_bounded_product(wr.x, rho.x, bw, s);
    lemma_bounded_product(wr.y, rho.y, bw, s);
    lemma_bounded_product(wr.z, rho.z, bw, s);
    assert(magnitude(wr.dot(g)) <= 3 * bw) by (nonlinear_arith)
        requires
            s > 0,
            s * wr.dot(g) == -(wr.x * rho.x + wr.y * rho.y + wr.z * rho.z),
            -(bw * s) <= wr.x * rho.x <= bw * s,
            -(bw * s) <= wr.y * rho.y <= bw * s,
            -(bw * s) <= wr.z * rho.z <= bw * s,
    ;
}

/// The power of the damping torque on the body and of its opposite on the
/// damper: the body's rate less the damper's, dotted with the torque. It is
/// `-c |wd - w|^2` to within twice the greatest relative rate, and so not
/// positive by more than that for a damping coefficient that is not
/// negative.
///
/// `bd` bounds the coordinates of the relative rate `wd - w`, `bc` the
/// damping coefficient, and `bc` times `bd` is at most `2^60`. The power is
/// taken in exact arithmetic on the raw values, times one.
pub proof fn lemma_damper_dissipates(damper: KaneDamper, w: AngularVelocity, bd: int, bc: int)
    requires
        (damper.angular_velocity - w).is_finite(),
        triple(
            (damper.angular_velocity - w).x,
            (damper.angular_velocity - w).y,
            (damper.angular_velocity - w).z,
        ).is_within(bd),
        damper.coefficient.is_finite(),
        magnitude(damper.coefficient.raw as int) <= bc,
        bc * bd <= 0x1000_0000_0000_0000 * ONE_RAW,
    ensures
        ({
            let d = damper.angular_velocity - w;
            let t = damping_torque(damper, w);
            let dr = triple(d.x, d.y, d.z);
            let power = -dr.dot(triple(t.x, t.y, t.z));
            &&& t.is_finite()
            &&& magnitude(ONE_RAW * power + damper.coefficient.raw * dr.dot(dr)) <= 2 * (ONE_RAW * bd)
            &&& damper.coefficient.raw >= 0 ==> power <= 2 * bd
        }),
{
    let s = ONE_RAW as int;
    let c = damper.coefficient;
    let d = damper.angular_velocity - w;
    let t = damping_torque(damper, w);
    let dr = triple(d.x, d.y, d.z);
    let tr = triple(t.x, t.y, t.z);
    let rx = lemma_mul_remainder(c, d.x, bc, bd);
    let ry = lemma_mul_remainder(c, d.y, bc, bd);
    let rz = lemma_mul_remainder(c, d.z, bc, bd);
    assert(t.x == c * d.x && t.y == c * d.y && t.z == c * d.z);
    // s (d . t) = c (d . d) - d . r
    lemma_distribute(dr.x * tr.x, dr.y * tr.y, dr.z * tr.z, 0, s);
    lemma_linear(dr.x, tr.x, 0, s);
    lemma_linear(dr.y, tr.y, 0, s);
    lemma_linear(dr.z, tr.z, 0, s);
    lemma_linear(dr.x, c.raw * dr.x, rx, 0);
    lemma_linear(dr.y, c.raw * dr.y, ry, 0);
    lemma_linear(dr.z, c.raw * dr.z, rz, 0);
    lemma_distribute(dr.x * dr.x, dr.y * dr.y, dr.z * dr.z, 0, c.raw as int);
    assert(dr.x * (c.raw * dr.x) == c.raw * (dr.x * dr.x) && dr.y * (c.raw * dr.y) == c.raw * (dr.y
        * dr.y) && dr.z * (c.raw * dr.z) == c.raw * (dr.z * dr.z)) by (nonlinear_arith);
    assert(s * 0 == 0 && c.raw * 0 == 0) by (nonlinear_arith);
    let e = dr.x * rx + dr.y * ry + dr.z * rz;
    assert(s * dr.dot(tr) == c.raw * dr.dot(dr) - e);
    lemma_bounded_product(dr.x, 2 * rx, bd, s);
    lemma_bounded_product(dr.y, 2 * ry, bd, s);
    lemma_bounded_product(dr.z, 2 * rz, bd, s);
    assert(dr.x * (2 * rx) == 2 * (dr.x * rx) && dr.y * (2 * ry) == 2 * (dr.y * ry) && dr.z * (2
        * rz) == 2 * (dr.z * rz) && bd * s == s * bd) by (nonlinear_arith);
    let power = -dr.dot(tr);
    assert(s * power == -(s * dr.dot(tr))) by (nonlinear_arith)
        requires
            power == -dr.dot(tr),
    ;
    if c.raw >= 0 {
        assert(c.raw * dr.dot(dr) >= 0) by (nonlinear_arith)
            requires
                c.raw >= 0,
                dr.dot(dr) == dr.x * dr.x + dr.y * dr.y + dr.z * dr.z,
        ;
        assert(power <= 2 * bd) by (nonlinear_arith)
            requires
                s > 0,
                bd >= 0,
                s * power <= 2 * (s * bd),
        ;
    }
}

} // verus!
