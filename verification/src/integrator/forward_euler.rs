//! Forward Euler integrator.

use vstd::prelude::*;
use crate::angular_velocity::AngularVelocity;
use crate::integrator::{
    displace, dynamics, Integrator, lemma_step_keeps_attitude_unit, spec_dynamics, spec_step,
};
use crate::lemmas::exact::{lemma_bounded_product, lemma_product_within};
use crate::lemmas::rounding::{lemma_mul_remainder, lemma_product_remainder};
use crate::lemmas::unit_norm::lemma_unit_is_bounded;
use crate::quaternion::{Quaternion, UNIT_TOLERANCE_RAW};
use crate::scalar::{magnitude, ONE_RAW, Scalar};
use crate::state::State;

verus! {

/// Forward Euler integrator for rigid-body motion.
pub struct ForwardEuler {
    // Time step.
    h: Scalar,
}

impl ForwardEuler {
    /// Construct a new forward Euler integrator.
    pub fn new(h: Scalar) -> (r: ForwardEuler)
        ensures
            r.step_size() == h,
    {
        ForwardEuler { h }
    }

    /// Integrate one step.
    pub fn step(&self, state: State) -> (r: State)
        ensures
            r == spec_step(state, self.slope(state), self.step_size()),
            r.time == state.time + self.step_size(),
            r.inertia == state.inertia,
            r.torque == state.torque,
            r.damper is Some <==> state.damper is Some,
            (state.quaternion + self.slope(state).0.scale(self.step_size())).is_normalizable()
                ==> r.quaternion.is_unit(),
    {
        let rates = self.dynamics(state);

        // Construct new state
        let mut newstate = displace(state, rates, self.h);

        // Step time
        newstate.time = state.time + self.h;

        newstate
    }
}

impl Integrator for ForwardEuler {
    closed spec fn step_size(&self) -> Scalar {
        self.h
    }

    /// The derivatives at the state itself.
    open spec fn slope(&self, state: State) -> (Quaternion, AngularVelocity, AngularVelocity) {
        spec_dynamics(state)
    }

    fn dynamics(&self, state: State) -> (r: (Quaternion, AngularVelocity, AngularVelocity)) {
        dynamics(state)
    }

    fn step(&self, state: State) -> (r: State) {
        self.step(state)
    }
}

/// One part of the attitude's move in a forward Euler step: the step size
/// `h` times one half times the part `p` of the product of the attitude and
/// the angular velocity.
///
/// `w` bounds the coordinates of the angular velocity, and `h` times `w` is
/// at most one thirty-second.
proof fn lemma_attitude_move(h: Scalar, p: Scalar, w: int)
    requires
        h.is_finite(),
        p.is_finite(),
        0 <= w <= 0x400_0000_0000_0000,
        magnitude(p.raw as int) <= 5 * w + 2,
        32 * (magnitude(h.raw as int) * w) <= ONE_RAW * ONE_RAW,
        magnitude(h.raw as int) <= 0x400_0000_0000_0000,
    ensures
        (h * (Scalar::half() * p)).is_finite(),
        -ONE_RAW <= 8 * (h * (Scalar::half() * p)).raw <= ONE_RAW,
{
    let s = ONE_RAW as int;
    let hm = magnitude(h.raw as int);
    assert(0x8000_0000_0000 * (5 * w + 2) <= 0x1000_0000_0000_0000 * s) by (nonlinear_arith)
        requires
            s == 0x1_0000_0000_0000,
            0 <= w <= 0x400_0000_0000_0000,
    ;
    let r1 = lemma_mul_remainder(Scalar::half(), p, 0x8000_0000_0000, 5 * w + 2);
    let m = (Scalar::half() * p).raw as int;
    assert(s * m == 0x8000_0000_0000 * p.raw - r1);
    assert(magnitude(m) <= 3 * w + 2);
    assert(hm * (3 * w + 2) == 3 * (hm * w) + 2 * hm && hm * (3 * w + 2) <= 0x1000_0000_0000_0000
        * s) by (nonlinear_arith)
        requires
            s == 0x1_0000_0000_0000,
            32 * (hm * w) <= s * s,
            0 <= hm <= 0x400_0000_0000_0000,
            0 <= w,
    ;
    let r2 = lemma_mul_remainder(h, Scalar::half() * p, hm, 3 * w + 2);
    let d = (h * (Scalar::half() * p)).raw as int;
    lemma_bounded_product(h.raw as int, m, hm, 3 * w + 2);
    assert(-s <= 8 * d <= s) by (nonlinear_arith)
        requires
            s * d == h.raw * m - r2,
            -s <= 2 * r2 <= s,
            s == 0x1_0000_0000_0000,
            -(3 * (hm * w) + 2 * hm) <= h.raw * m <= 3 * (hm * w) + 2 * hm,
            32 * (hm * w) <= s * s,
            0 <= hm <= 0x400_0000_0000_0000,
    ;
}

/// A forward Euler step from a unit attitude leaves a unit attitude,
/// wherever no coordinate of the angular velocity exceeds `w` in magnitude,
/// `w` is at most 1024 and the step size times `w` is at most one
/// thirty-second.
pub proof fn lemma_euler_keeps_attitude_unit(integrator: ForwardEuler, state: State, w: int)
    requires
        state.quaternion.is_unit(),
        integrator.step_size().is_finite(),
        Quaternion::from_vector(
            state.angular_velocity.x,
            state.angular_velocity.y,
            state.angular_velocity.z,
        ).is_bounded(w),
        0 <= w <= 0x400_0000_0000_0000,
        32 * (magnitude(integrator.step_size().raw as int) * w) <= ONE_RAW * ONE_RAW,
        magnitude(integrator.step_size().raw as int) <= 0x400_0000_0000_0000,
    ensures
        spec_step(state, integrator.slope(state), integrator.step_size()).quaternion.is_unit(),
{
    let s = ONE_RAW as int;
    let h = integrator.step_size();
    let q = state.quaternion;
    let rate = state.angular_velocity;
    let omega = Quaternion::from_vector(rate.x, rate.y, rate.z);
    lemma_unit_is_bounded(q);
    let bound = s + UNIT_TOLERANCE_RAW;
    assert(bound * w <= 0x1000_0000_0000_0000 * s && 4 * (bound * w) <= 5 * (s * w))
        by (nonlinear_arith)
        requires
            s == 0x1_0000_0000_0000,
            bound == s + 28147,
            0 <= w <= 0x400_0000_0000_0000,
    ;
    let rho = lemma_product_remainder(q, omega, bound, w);
    lemma_product_within(q.raws(), omega.raws(), bound, w);
    let p = q * omega;
    assert(p.is_bounded(5 * w + 2)) by {
        assert(p.raws().scaled(s) == q.raws().product(omega.raws()).minus(rho));
        lemma_unscaled(p.raws().w, q.raws().product(omega.raws()).w, rho.w, w);
        lemma_unscaled(p.raws().x, q.raws().product(omega.raws()).x, rho.x, w);
        lemma_unscaled(p.raws().y, q.raws().product(omega.raws()).y, rho.y, w);
        lemma_unscaled(p.raws().z, q.raws().product(omega.raws()).z, rho.z, w);
    }
    lemma_attitude_move(h, p.w, w);
    lemma_attitude_move(h, p.x, w);
    lemma_attitude_move(h, p.y, w);
    lemma_attitude_move(h, p.z, w);
    let rates = integrator.slope(state);
    assert(rates.0 == p.scale(Scalar::half()));
    lemma_step_keeps_attitude_unit(state, rates, h);
}

/// A part `p` of a product whose multiple by one is `e - rho`, with `e` at
/// most five times one times `w` and `rho` at most twice one in magnitude.
proof fn lemma_unscaled(p: int, e: int, rho: int, w: int)
    requires
        ONE_RAW * p == e - rho,
        -(5 * (ONE_RAW * w)) <= e <= 5 * (ONE_RAW * w),
        -(2 * ONE_RAW) <= rho <= 2 * ONE_RAW,
    ensures
        magnitude(p) <= 5 * w + 2,
{
    let s = ONE_RAW as int;
    assert(-(5 * w + 2) <= p <= 5 * w + 2) by (nonlinear_arith)
        requires
            s > 0,
            s * p == e - rho,
            -(5 * (s * w)) <= e <= 5 * (s * w),
            -(2 * s) <= rho <= 2 * s,
    ;
}

} // verus!
