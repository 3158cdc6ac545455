//! Free rotation of a body whose inertia is the same about every axis.
//!
//! With an inertia of `j` about every axis the angular momentum is `j w` and
//! its cross product with `w` vanishes. Where `j` is a whole number the
//! fixed-point products cancel to the last bit, so that under no torque the
//! angular velocity does not change at all; for any other `j` they cancel
//! but for their roundings, and the angular velocity changes by a few raw
//! units in a step, or by `1 / j` times as much where `j` is less than one.

use vstd::prelude::*;
use crate::angular_momentum::AngularMomentum;
use crate::angular_velocity::AngularVelocity;
use crate::inertia::Inertia;
use crate::integrator::{Integrator, spec_displace, spec_dynamics, spec_step};
use crate::integrator::forward_euler::ForwardEuler;
use crate::integrator::runge_kutta::{RungeKutta4, spec_combine};
use crate::lemmas::algebra::lemma_scalar_mul_zero;
use crate::lemmas::euler::{bounded, effective_torque};
use crate::lemmas::exact::lemma_bounded_product;
use crate::lemmas::stages::{lemma_runge_kutta_keeps_attitude_unit, lemma_small_product, stages};
use crate::lemmas::rounding::{
    lemma_cancel, lemma_mul_remainder, lemma_mul_remainder_wide, lemma_round_div_bound,
    lemma_round_div_exact,
};
use crate::quaternion::Quaternion;
use crate::scalar::{magnitude, ONE_RAW, Scalar};
use crate::state::State;
use crate::torque::Torque;
use crate::wide::spec_rounded_quotient;

verus! {

impl Inertia {
    /// Whether the inertia is the same whole number about every axis.
    pub open spec fn is_whole_sphere(self) -> bool {
        &&& self.j1.is_whole()
        &&& self.j2 == self.j1
        &&& self.j3 == self.j1
        &&& self.j4 == Scalar::zero()
        &&& self.j5 == Scalar::zero()
        &&& self.j6 == Scalar::zero()
    }
}

impl Inertia {
    /// Whether the inertia is the same about every axis, between `1 / k` and
    /// 128.
    pub open spec fn is_symmetric(self, k: int) -> bool {
        &&& self.j1.is_finite()
        &&& ONE_RAW <= k * self.j1.raw
        &&& 0 < self.j1.raw <= 0x80 * ONE_RAW
        &&& self.j2 == self.j1
        &&& self.j3 == self.j1
        &&& self.j4 == Scalar::zero()
        &&& self.j5 == Scalar::zero()
        &&& self.j6 == Scalar::zero()
    }
}

/// One coordinate of the gyroscopic term of a body with the inertia `j`
/// about every axis: the two products of the cross product cancel but for
/// their roundings.
proof fn lemma_sphere_cross(a: Scalar, b: Scalar, j: Scalar, bw: int)
    requires
        a.is_finite(),
        b.is_finite(),
        j.is_finite(),
        magnitude(a.raw as int) <= bw,
        magnitude(b.raw as int) <= bw,
        0 <= bw <= 0x400_0000_0000_0000,
        0 <= j.raw <= 0x80 * ONE_RAW,
    ensures
        (j * a).is_finite(),
        (j * b).is_finite(),
        (a * (j * b) - b * (j * a)).is_finite(),
        ONE_RAW * magnitude((a * (j * b) - b * (j * a)).raw as int) <= bw + ONE_RAW,
{
    let s = ONE_RAW as int;
    let big: int = 0x400_0000_0000_0000;
    assert((0x80 * s) * big <= 0x1000_0000_0000_0000_0000 * s && big * (0x80 * big + 1)
        <= 0x1000_0000_0000_0000_0000 * s) by (nonlinear_arith)
        requires
            s == 0x1_0000_0000_0000,
            big == 0x400_0000_0000_0000,
    ;
    let ra = lemma_mul_remainder_wide(j, a, 0x80 * s, big);
    let rb = lemma_mul_remainder_wide(j, b, 0x80 * s, big);
    let ha = (j * a).raw as int;
    let hb = (j * b).raw as int;
    lemma_bounded_product(j.raw as int, a.raw as int, 0x80 * s, big);
    lemma_bounded_product(j.raw as int, b.raw as int, 0x80 * s, big);
    assert((0x80 * s) * big == s * (0x80 * big)) by (nonlinear_arith);
    assert(magnitude(ha) <= 0x80 * big + 1 && magnitude(hb) <= 0x80 * big + 1);
    let r1 = lemma_mul_remainder_wide(a, j * b, big, 0x80 * big + 1);
    let r2 = lemma_mul_remainder_wide(b, j * a, big, 0x80 * big + 1);
    let p1 = a * (j * b);
    let p2 = b * (j * a);
    assert((p1 - p2).is_finite() && (p1 - p2).raw == p1.raw - p2.raw);
    let g = (a * (j * b) - b * (j * a)).raw as int;
    assert(s * g == a.raw * hb - b.raw * ha - (r1 - r2)) by (nonlinear_arith)
        requires
            g == (a * (j * b)).raw - (b * (j * a)).raw,
            s * (a * (j * b)).raw == a.raw * hb - r1,
            s * (b * (j * a)).raw == b.raw * ha - r2,
    ;
    // s (a hb - b ha) = a (j b - rb) - b (j a - ra) = b ra - a rb
    assert(s * (a.raw * hb - b.raw * ha) == b.raw * ra - a.raw * rb) by (nonlinear_arith)
        requires
            s * ha == j.raw * a.raw - ra,
            s * hb == j.raw * b.raw - rb,
    ;
    lemma_bounded_product(b.raw as int, 2 * ra, bw, s);
    lemma_bounded_product(a.raw as int, 2 * rb, bw, s);
    assert(b.raw * (2 * ra) == 2 * (b.raw * ra) && a.raw * (2 * rb) == 2 * (a.raw * rb))
        by (nonlinear_arith);
    let e = a.raw * hb - b.raw * ha;
    assert(-bw <= e <= bw) by (nonlinear_arith)
        requires
            s > 0,
            -(bw * s) <= s * e <= bw * s,
    ;
}

/// The product of an entry of the inverse, of at most `k`, and a coordinate
/// of the gyroscopic term, which times one is at most `bw` and one.
proof fn lemma_light_product(i: int, t: int, k: int, bw: int)
    requires
        k >= 1,
        magnitude(i) <= k * ONE_RAW,
        ONE_RAW * magnitude(t) <= bw + ONE_RAW,
    ensures
        magnitude(i * t) <= k * (bw + ONE_RAW),
{
    let s = ONE_RAW as int;
    lemma_bounded_product(i, t, k * s, magnitude(t));
    assert((k * s) * magnitude(t) == k * (s * magnitude(t)) && k * (s * magnitude(t)) <= k * (bw
        + s)) by (nonlinear_arith)
        requires
            k >= 1,
            s * magnitude(t) <= bw + s,
    ;
}

/// Under no torque a body with the same inertia, between `1 / k` and 128,
/// about every axis has next to no angular acceleration: for an inertia of
/// one or more at most two raw units, and one more for each unit of the
/// greatest coordinate of its angular velocity, which `bw`, at most 1024,
/// bounds; for a lesser inertia `k` times as much, where `k` is at most
/// 1024.
pub proof fn lemma_free_symmetric_acceleration(
    w: AngularVelocity,
    inertia: Inertia,
    bw: int,
    k: int,
)
    requires
        inertia.is_symmetric(k),
        1 <= k <= 1024,
        bounded(w.x, w.y, w.z, bw),
        bw <= 0x400_0000_0000_0000,
    ensures
        w.diff(inertia, Torque::zero()).is_finite(),
        ONE_RAW * magnitude(w.diff(inertia, Torque::zero()).x.raw as int) <= k * (bw + ONE_RAW)
            + ONE_RAW,
        ONE_RAW * magnitude(w.diff(inertia, Torque::zero()).y.raw as int) <= k * (bw + ONE_RAW)
            + ONE_RAW,
        ONE_RAW * magnitude(w.diff(inertia, Torque::zero()).z.raw as int) <= k * (bw + ONE_RAW)
            + ONE_RAW,
{
    let s = ONE_RAW as int;
    let j = inertia.j1;
    let o = Scalar::zero();
    lemma_scalar_mul_zero(w.x);
    lemma_scalar_mul_zero(w.y);
    lemma_scalar_mul_zero(w.z);
    lemma_scalar_mul_zero(j);
    lemma_scalar_mul_zero(o);
    lemma_sphere_cross(w.y, w.z, j, bw);
    lemma_sphere_cross(w.z, w.x, j, bw);
    lemma_sphere_cross(w.x, w.y, j, bw);
    let h = AngularMomentum::product(inertia, w);
    assert(h.x == j * w.x && h.y == j * w.y && h.z == j * w.z);
    let t = effective_torque(w, inertia, Torque::zero());
    let gx = w.y * h.z - w.z * h.y;
    let gy = w.z * h.x - w.x * h.z;
    let gz = w.x * h.y - w.y * h.x;
    assert(t.x.raw == -gx.raw && t.y.raw == -gy.raw && t.z.raw == -gz.raw);
    // The inverse: the cofactors are the square and the determinant the cube
    // of the one moment of inertia.
    let jr = j.raw as int;
    let c = inertia.raws().cofactors();
    let det = inertia.raws().determinant();
    let sq = jr * jr;
    let unit = ONE_RAW * ONE_RAW;
    assert(c.j1 == sq && c.j2 == sq && c.j3 == sq && c.j4 == 0 && c.j5 == 0 && c.j6 == 0 && det
        == jr * sq) by (nonlinear_arith)
        requires
            c == inertia.raws().cofactors(),
            det == inertia.raws().determinant(),
            inertia.raws().j1 == jr,
            inertia.raws().j2 == jr,
            inertia.raws().j3 == jr,
            inertia.raws().j4 == 0,
            inertia.raws().j5 == 0,
            inertia.raws().j6 == 0,
            sq == jr * jr,
    ;
    let n = sq * unit;
    let u = sq * s;
    assert(sq > 0 && u > 0 && det > 0 && n == u * s && (k * s) * det == u * (k * jr) && u * s <= u
        * (k * jr) && 0 * unit == 0 && 0 * det == 0) by (nonlinear_arith)
        requires
            k * jr >= s,
            jr > 0,
            s > 0,
            sq == jr * jr,
            u == sq * s,
            det == jr * sq,
            n == sq * unit,
            unit == s * s,
    ;
    assert(0 <= k * s <= 1024 * s && (k * s) * 0x800 <= 0x1000_0000_0000_0000 * s)
        by (nonlinear_arith)
        requires
            1 <= k <= 1024,
            s == 0x1_0000_0000_0000,
    ;
    lemma_round_div_bound(n, det, k * s);
    lemma_round_div_exact(0, det);
    let inv = inertia.spec_inverse();
    let i1 = spec_rounded_quotient(n, det);
    assert(i1.is_finite() && magnitude(i1.raw as int) <= k * s);
    assert(spec_rounded_quotient(0, det) == o);
    assert(inv.j1 == i1 && inv.j2 == i1 && inv.j3 == i1 && inv.j4 == o && inv.j5 == o && inv.j6
        == o);
    // The acceleration.
    lemma_scalar_mul_zero(t.x);
    lemma_scalar_mul_zero(t.y);
    lemma_scalar_mul_zero(t.z);
    let a = w.diff(inertia, Torque::zero());
    let px = lemma_mul_remainder(i1, t.x, k * s, 0x800);
    let py = lemma_mul_remainder(i1, t.y, k * s, 0x800);
    let pz = lemma_mul_remainder(i1, t.z, k * s, 0x800);
    assert(a.x == i1 * t.x && a.y == i1 * t.y && a.z == i1 * t.z);
    lemma_light_product(i1.raw as int, t.x.raw as int, k, bw);
    lemma_light_product(i1.raw as int, t.y.raw as int, k, bw);
    lemma_light_product(i1.raw as int, t.z.raw as int, k, bw);
}

/// The zero angular velocity.
pub open spec fn at_rest() -> AngularVelocity {
    AngularVelocity::new(Scalar::zero(), Scalar::zero(), Scalar::zero())
}

/// Whether `state` is a body without damper, under no torque, with the same
/// whole inertia about every axis and a finite angular acceleration.
pub open spec fn is_free_sphere(state: State) -> bool {
    &&& state.damper is None
    &&& state.torque == Torque::zero()
    &&& state.inertia.is_whole_sphere()
    &&& state.angular_velocity.diff(state.inertia, state.torque).is_finite()
}

/// The product of a whole scalar and a finite one is the whole number times
/// the other's raw value.
proof fn lemma_whole_times(j: Scalar, a: Scalar)
    requires
        j.is_whole(),
        a.is_finite(),
    ensures
        (j * a).is_finite() ==> (j * a).raw == j.units() * a.raw,
{
    let s = ONE_RAW as int;
    let m = j.units();
    assert(j.raw * a.raw == (m * a.raw) * s) by (nonlinear_arith)
        requires
            j.raw == m * s,
    ;
    lemma_round_div_exact(m * a.raw, s);
}

/// The two products of a cross product of `w` with a multiple of `w` are the
/// same scalar.
proof fn lemma_cross_cancels(a: Scalar, b: Scalar, ha: Scalar, hb: Scalar, m: int)
    requires
        a.is_finite(),
        b.is_finite(),
        ha.is_finite(),
        hb.is_finite(),
        ha.raw == m * a.raw,
        hb.raw == m * b.raw,
    ensures
        a * hb == b * ha,
{
    assert(a.raw * hb.raw == b.raw * ha.raw) by (nonlinear_arith)
        requires
            ha.raw == m * a.raw,
            hb.raw == m * b.raw,
    ;
}

/// Under no torque a body with the same whole inertia about every axis has
/// no angular acceleration, wherever its angular acceleration is finite.
pub proof fn lemma_free_sphere_acceleration(w: AngularVelocity, inertia: Inertia)
    requires
        inertia.is_whole_sphere(),
        w.diff(inertia, Torque::zero()).is_finite(),
    ensures
        w.diff(inertia, Torque::zero()) == at_rest(),
{
    let j = inertia.j1;
    let m = j.units();
    let o = Scalar::zero();
    let h = AngularMomentum::product(inertia, w);
    let r = w.diff(inertia, Torque::zero());
    let i = inertia.spec_inverse();
    let free = -Torque::new(
        w.y * h.z - w.z * h.y,
        w.z * h.x - w.x * h.z,
        w.x * h.y - w.y * h.x,
    );
    let t = Torque::zero() + free;
    assert(r.x == i.j1 * t.x + i.j6 * t.y + i.j5 * t.z);
    assert(r.y == i.j6 * t.x + i.j2 * t.y + i.j4 * t.z);
    assert(r.z == i.j5 * t.x + i.j4 * t.y + i.j3 * t.z);
    assert(t.x.is_finite() && t.y.is_finite() && t.z.is_finite());
    assert(free.x.is_finite() && free.y.is_finite() && free.z.is_finite());
    assert(h.x.is_finite() && h.y.is_finite() && h.z.is_finite());
    assert(w.x.is_finite() && w.y.is_finite() && w.z.is_finite());
    lemma_scalar_mul_zero(w.x);
    lemma_scalar_mul_zero(w.y);
    lemma_scalar_mul_zero(w.z);
    lemma_whole_times(j, w.x);
    lemma_whole_times(j, w.y);
    lemma_whole_times(j, w.z);
    assert(h.x == j * w.x && h.y == j * w.y && h.z == j * w.z);
    lemma_cross_cancels(w.y, w.z, h.y, h.z, m);
    lemma_cross_cancels(w.z, w.x, h.z, h.x, m);
    lemma_cross_cancels(w.x, w.y, h.x, h.y, m);
    assert(free.x == o && free.y == o && free.z == o);
    assert(t.x == o && t.y == o && t.z == o);
    assert(i.j1.is_finite() && i.j2.is_finite() && i.j3.is_finite() && i.j4.is_finite()
        && i.j5.is_finite() && i.j6.is_finite());
    lemma_scalar_mul_zero(i.j1);
    lemma_scalar_mul_zero(i.j2);
    lemma_scalar_mul_zero(i.j3);
    lemma_scalar_mul_zero(i.j4);
    lemma_scalar_mul_zero(i.j5);
    lemma_scalar_mul_zero(i.j6);
}

/// Moving a finite angular velocity along no acceleration for a finite time
/// leaves it as it is.
proof fn lemma_displace_at_rest(
    state: State,
    rates: (Quaternion, AngularVelocity, AngularVelocity),
    dt: Scalar,
)
    requires
        rates.1 == at_rest(),
        dt.is_finite(),
        state.angular_velocity.is_finite(),
    ensures
        spec_displace(state, rates, dt).angular_velocity == state.angular_velocity,
        spec_displace(state, rates, dt).inertia == state.inertia,
        spec_displace(state, rates, dt).torque == state.torque,
        spec_displace(state, rates, dt).damper is None <==> state.damper is None,
{
    lemma_scalar_mul_zero(dt);
}

/// A forward Euler step with a finite step size leaves the angular velocity
/// of a free body, with the same whole inertia about every axis, unchanged,
/// and with it the angular momentum and its magnitude.
pub proof fn lemma_euler_free_sphere(integrator: ForwardEuler, state: State)
    requires
        is_free_sphere(state),
        integrator.step_size().is_finite(),
    ensures
        spec_step(state, integrator.slope(state), integrator.step_size()).angular_velocity
            == state.angular_velocity,
        ({
            let next = spec_step(state, integrator.slope(state), integrator.step_size());
            AngularMomentum::product(next.inertia, next.angular_velocity).length()
                == AngularMomentum::product(state.inertia, state.angular_velocity).length()
        }),
{
    lemma_free_sphere_acceleration(state.angular_velocity, state.inertia);
    lemma_displace_at_rest(state, integrator.slope(state), integrator.step_size());
}

/// A Runge-Kutta step with a finite step size leaves the angular velocity of
/// a free body, with the same whole inertia about every axis, unchanged,
/// and with it the angular momentum and its magnitude.
#[verifier::rlimit(40)]
pub proof fn lemma_runge_kutta_free_sphere(integrator: RungeKutta4, state: State)
    requires
        is_free_sphere(state),
        integrator.step_size().is_finite(),
    ensures
        spec_step(state, integrator.slope(state), integrator.step_size()).angular_velocity
            == state.angular_velocity,
        ({
            let next = spec_step(state, integrator.slope(state), integrator.step_size());
            AngularMomentum::product(next.inertia, next.angular_velocity).length()
                == AngularMomentum::product(state.inertia, state.angular_velocity).length()
        }),
{
    let h = integrator.step_size();
    let half_step = Scalar::half() * h;
    assert(half_step.is_finite()) by {
        let n = Scalar::half().raw * h.raw;
        assert(n == 0x8000_0000_0000 * h.raw);
    }
    lemma_free_sphere_acceleration(state.angular_velocity, state.inertia);
    let k1 = spec_dynamics(state);
    assert(k1.1 == at_rest());
    let s2 = spec_displace(state, k1, half_step);
    lemma_displace_at_rest(state, k1, half_step);
    let k2 = spec_dynamics(s2);
    assert(k2.1 == at_rest());
    let s3 = spec_displace(state, k2, half_step);
    lemma_displace_at_rest(state, k2, half_step);
    let k3 = spec_dynamics(s3);
    assert(k3.1 == at_rest());
    let s4 = spec_displace(state, k3, h);
    lemma_displace_at_rest(state, k3, h);
    let k4 = spec_dynamics(s4);
    assert(k4.1 == at_rest());
    let two = Scalar::spec_from_int(2);
    let sixth = Scalar::spec_from_ratio(1, 6);
    assert(two.is_finite());
    assert(sixth.is_finite());
    lemma_scalar_mul_zero(two);
    lemma_scalar_mul_zero(sixth);
    let k = spec_combine(k1, k2, k3, k4);
    assert(k.1 == at_rest());
    lemma_displace_at_rest(state, k, h);
}

/// A forward Euler step with a step size of at most one changes the angular
/// velocity of a free body with the same inertia, between `1 / k` and 128,
/// about every axis by next to nothing: for an inertia of one or more, in
/// every coordinate by at most three raw units, and one more for each unit
/// of the greatest coordinate of the angular velocity, which `bw`, at most
/// 1024, bounds; for a lesser inertia by `k` times as much, where `k` is at
/// most 1024.
pub proof fn lemma_euler_free_symmetric(integrator: ForwardEuler, state: State, bw: int, k: int)
    requires
        state.damper is None,
        state.torque == Torque::zero(),
        state.inertia.is_symmetric(k),
        1 <= k <= 1024,
        bounded(state.angular_velocity.x, state.angular_velocity.y, state.angular_velocity.z, bw),
        bw <= 0x400_0000_0000_0000,
        integrator.step_size().is_finite(),
        magnitude(integrator.step_size().raw as int) <= ONE_RAW,
    ensures
        ({
            let old_rate = state.angular_velocity;
            let new_rate = spec_step(
                state,
                integrator.slope(state),
                integrator.step_size(),
            ).angular_velocity;
            let most = k * (bw + ONE_RAW) + 2 * ONE_RAW;
            &&& new_rate.is_finite()
            &&& ONE_RAW * magnitude(new_rate.x.raw - old_rate.x.raw) <= most
            &&& ONE_RAW * magnitude(new_rate.y.raw - old_rate.y.raw) <= most
            &&& ONE_RAW * magnitude(new_rate.z.raw - old_rate.z.raw) <= most
        }),
{
    let s = ONE_RAW as int;
    let h = integrator.step_size();
    let w = state.angular_velocity;
    lemma_free_symmetric_acceleration(w, state.inertia, bw, k);
    let a = w.diff(state.inertia, Torque::zero());
    assert(integrator.slope(state).1 == a);
    assert(k * (bw + s) + s <= 0x20_0000 * s && s * 0x20_0000 <= 0x1000_0000_0000_0000 * s)
        by (nonlinear_arith)
        requires
            1 <= k <= 1024,
            bw <= 0x400_0000_0000_0000,
            s == 0x1_0000_0000_0000,
    ;
    let rx = lemma_mul_remainder(h, a.x, s, 0x20_0000);
    let ry = lemma_mul_remainder(h, a.y, s, 0x20_0000);
    let rz = lemma_mul_remainder(h, a.z, s, 0x20_0000);
    lemma_bounded_product(h.raw as int, a.x.raw as int, s, magnitude(a.x.raw as int));
    lemma_bounded_product(h.raw as int, a.y.raw as int, s, magnitude(a.y.raw as int));
    lemma_bounded_product(h.raw as int, a.z.raw as int, s, magnitude(a.z.raw as int));
}

/// At every stage of a Runge-Kutta step a free body, with the same whole
/// inertia about every axis, has the angular velocity that it starts with.
proof fn lemma_sphere_stages(state: State, h: Scalar)
    requires
        is_free_sphere(state),
        h.is_finite(),
    ensures
        stages(state, h).1.angular_velocity == state.angular_velocity,
        stages(state, h).2.angular_velocity == state.angular_velocity,
        stages(state, h).3.angular_velocity == state.angular_velocity,
{
    let half_step = Scalar::half() * h;
    assert(half_step.is_finite()) by {
        let n = Scalar::half().raw * h.raw;
        assert(n == 0x8000_0000_0000 * h.raw);
    }
    lemma_free_sphere_acceleration(state.angular_velocity, state.inertia);
    let k1 = spec_dynamics(state);
    assert(k1.1 == at_rest());
    let s2 = spec_displace(state, k1, half_step);
    lemma_displace_at_rest(state, k1, half_step);
    let k2 = spec_dynamics(s2);
    assert(k2.1 == at_rest());
    let s3 = spec_displace(state, k2, half_step);
    lemma_displace_at_rest(state, k2, half_step);
    let k3 = spec_dynamics(s3);
    assert(k3.1 == at_rest());
    lemma_displace_at_rest(state, k3, h);
}

/// A Runge-Kutta step of a free body, with the same whole inertia about
/// every axis, from a unit attitude leaves a unit attitude, wherever no
/// coordinate of the angular velocity exceeds `w`, `w` is at most 256 and
/// the step size times `w` is at most one thirty-second.
pub proof fn lemma_runge_kutta_free_sphere_keeps_attitude_unit(
    integrator: RungeKutta4,
    state: State,
    w: int,
)
    requires
        is_free_sphere(state),
        state.quaternion.is_unit(),
        integrator.step_size().is_finite(),
        bounded(state.angular_velocity.x, state.angular_velocity.y, state.angular_velocity.z, w),
        0 <= w <= 0x100_0000_0000_0000,
        32 * (magnitude(integrator.step_size().raw as int) * w) <= ONE_RAW * ONE_RAW,
        magnitude(integrator.step_size().raw as int) <= 0x400_0000_0000_0000,
    ensures
        spec_step(state, integrator.slope(state), integrator.step_size()).quaternion.is_unit(),
{
    lemma_sphere_stages(state, integrator.step_size());
    lemma_runge_kutta_keeps_attitude_unit(integrator, state, w);
}

/// Whether `state` is a body without damper, under no torque, with the same
/// inertia, between `1 / k` and 128, about every axis, and a rate of at
/// most `rate` raw units in every coordinate.
pub open spec fn is_free_symmetric(state: State, rate: int, k: int) -> bool {
    &&& 1 <= k <= 1024
    &&& state.damper is None
    &&& state.torque == Torque::zero()
    &&& state.inertia.is_symmetric(k)
    &&& bounded(state.angular_velocity.x, state.angular_velocity.y, state.angular_velocity.z, rate)
}

/// Whether the angular acceleration is finite and at most `1025 k + 1` raw
/// units in every coordinate.
pub open spec fn is_slight(a: AngularVelocity, k: int) -> bool {
    bounded(a.x, a.y, a.z, 1025 * k + 1)
}

/// The angular acceleration of a free symmetric body that turns at no more
/// than 1024 in any coordinate is slight.
proof fn lemma_stage_acceleration(state: State, k: int)
    requires
        is_free_symmetric(state, 0x400_0000_0000_0000, k),
    ensures
        is_slight(spec_dynamics(state).1, k),
{
    let s = ONE_RAW as int;
    lemma_free_symmetric_acceleration(
        state.angular_velocity,
        state.inertia,
        0x400_0000_0000_0000,
        k,
    );
    let a = state.angular_velocity.diff(state.inertia, Torque::zero());
    assert(spec_dynamics(state).1 == a);
    assert(k * (0x400_0000_0000_0000 + s) + s == (1025 * k + 1) * s) by (nonlinear_arith)
        requires
            s == 0x1_0000_0000_0000,
    ;
    lemma_cancel(s, a.x.raw as int, 1025 * k + 1);
    lemma_cancel(s, a.y.raw as int, 1025 * k + 1);
    lemma_cancel(s, a.z.raw as int, 1025 * k + 1);
}

/// A free symmetric body that turns at no more than 1023 in any coordinate,
/// moved along a slight acceleration for a time of at most one, turns at no
/// more than 1024.
proof fn lemma_stage_moved(
    state: State,
    rates: (Quaternion, AngularVelocity, AngularVelocity),
    dt: Scalar,
    k: int,
)
    requires
        is_free_symmetric(state, 0x3ff_0000_0000_0000, k),
        is_slight(rates.1, k),
        dt.is_finite(),
        magnitude(dt.raw as int) <= ONE_RAW,
    ensures
        is_free_symmetric(spec_displace(state, rates, dt), 0x400_0000_0000_0000, k),
        is_slight(spec_dynamics(spec_displace(state, rates, dt)).1, k),
{
    let s = ONE_RAW as int;
    let m = 1025 * k + 1;
    assert(s * m <= 0x1000_0000_0000_0000 * s && s * m == m * s) by (nonlinear_arith)
        requires
            s == 0x1_0000_0000_0000,
            0 <= m <= 0x20_0000,
    ;
    lemma_small_product(dt, rates.1.x, s, m, m);
    lemma_small_product(dt, rates.1.y, s, m, m);
    lemma_small_product(dt, rates.1.z, s, m, m);
    lemma_stage_acceleration(spec_displace(state, rates, dt), k);
}

/// One coordinate of the weighted mean of four accelerations of at most `m`
/// raw units is at most `m + 1` raw units.
proof fn lemma_mean_is_slight(a: Scalar, b: Scalar, c: Scalar, d: Scalar, m: int)
    requires
        a.is_finite() && b.is_finite() && c.is_finite() && d.is_finite(),
        0 <= m <= 0x20_0000,
        magnitude(a.raw as int) <= m,
        magnitude(b.raw as int) <= m,
        magnitude(c.raw as int) <= m,
        magnitude(d.raw as int) <= m,
    ensures
        ({
            let two = Scalar::spec_from_int(2);
            let sixth = Scalar::spec_from_ratio(1, 6);
            let mean = sixth * (a + two * b + two * c + d);
            mean.is_finite() && magnitude(mean.raw as int) <= m + 1
        }),
{
    let s = ONE_RAW as int;
    let two = Scalar::spec_from_int(2);
    let sixth = Scalar::spec_from_ratio(1, 6);
    assert(two.raw == 2 * s);
    assert(sixth.is_finite() && 0 <= sixth.raw <= 0x2aaa_aaaa_aaab);
    assert((2 * s) * m <= 0x1000_0000_0000_0000 * s && (2 * s) * m <= (2 * m) * s
        && 0x2aaa_aaaa_aaab * (6 * m) <= 0x1000_0000_0000_0000 * s && 0x2aaa_aaaa_aaab * (6 * m)
        <= (m + 1) * s) by (nonlinear_arith)
        requires
            s == 0x1_0000_0000_0000,
            0 <= m <= 0x20_0000,
    ;
    lemma_small_product(two, b, 2 * s, m, 2 * m);
    lemma_small_product(two, c, 2 * s, m, 2 * m);
    let sum = a + two * b + two * c + d;
    assert(sum.is_finite() && magnitude(sum.raw as int) <= 6 * m);
    lemma_small_product(sixth, sum, 0x2aaa_aaaa_aaab, 6 * m, m + 1);
}

/// A Runge-Kutta step with a step size of at most one changes the angular
/// velocity of a free body with the same inertia, between `1 / k` and 128,
/// about every axis, that turns at no more than 1023 in any coordinate, by
/// next to nothing: for an inertia of one or more by at most 1027 raw
/// units, about `4e-12`, in every coordinate; for a lesser inertia by at
/// most `1025 k + 2`, where `k` is at most 1024.
pub proof fn lemma_runge_kutta_free_symmetric(integrator: RungeKutta4, state: State, k: int)
    requires
        is_free_symmetric(state, 0x3ff_0000_0000_0000, k),
        integrator.step_size().is_finite(),
        magnitude(integrator.step_size().raw as int) <= ONE_RAW,
    ensures
        ({
            let old_rate = state.angular_velocity;
            let new_rate = spec_step(
                state,
                integrator.slope(state),
                integrator.step_size(),
            ).angular_velocity;
            &&& new_rate.is_finite()
            &&& magnitude(new_rate.x.raw - old_rate.x.raw) <= 1025 * k + 2
            &&& magnitude(new_rate.y.raw - old_rate.y.raw) <= 1025 * k + 2
            &&& magnitude(new_rate.z.raw - old_rate.z.raw) <= 1025 * k + 2
        }),
{
    let s = ONE_RAW as int;
    let m = 1025 * k + 1;
    let h = integrator.step_size();
    let half_step = Scalar::half() * h;
    assert(half_step.is_finite() && magnitude(half_step.raw as int) <= s) by {
        assert(0x8000_0000_0000 * s <= 0x1000_0000_0000_0000 * s && 0x8000_0000_0000 * s <= s * s)
            by (nonlinear_arith)
            requires
                s == 0x1_0000_0000_0000,
        ;
        lemma_small_product(Scalar::half(), h, 0x8000_0000_0000, s, s);
    }
    let k1 = spec_dynamics(state);
    lemma_stage_acceleration(state, k);
    let k2 = spec_dynamics(spec_displace(state, k1, half_step));
    lemma_stage_moved(state, k1, half_step, k);
    let k3 = spec_dynamics(spec_displace(state, k2, half_step));
    lemma_stage_moved(state, k2, half_step, k);
    let k4 = spec_dynamics(spec_displace(state, k3, h));
    lemma_stage_moved(state, k3, h, k);
    let mean = spec_combine(k1, k2, k3, k4);
    lemma_mean_is_slight(k1.1.x, k2.1.x, k3.1.x, k4.1.x, m);
    lemma_mean_is_slight(k1.1.y, k2.1.y, k3.1.y, k4.1.y, m);
    lemma_mean_is_slight(k1.1.z, k2.1.z, k3.1.z, k4.1.z, m);
    assert(s * (m + 1) <= 0x1000_0000_0000_0000 * s && s * (m + 1) == (m + 1) * s)
        by (nonlinear_arith)
        requires
            s == 0x1_0000_0000_0000,
            0 <= m <= 0x20_0000,
    ;
    lemma_small_product(h, mean.1.x, s, m + 1, m + 1);
    lemma_small_product(h, mean.1.y, s, m + 1, m + 1);
    lemma_small_product(h, mean.1.z, s, m + 1, m + 1);
}

} // verus!
