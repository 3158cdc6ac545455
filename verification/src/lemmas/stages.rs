//! A Runge-Kutta step keeps a unit attitude.
//!
//! Wherever the angular velocity at each of the four stages of a step is at
//! most `w` in every coordinate, and the step size times `w` at most one
//! thirty-second, every stage starts from a unit attitude and the step ends
//! in one, whatever the inertia, the torque and the damper.
//!
//! The stages are known to be that slow, for one, for a body without damper
//! that turns at no more than one radian a second in any coordinate, under
//! a torque of at most four, with an inertia whose entries are at most four
//! and whose inverse has entries of at most one, and for a step of at most
//! `2^-10`: every stage then has a rate of at most two.

use vstd::prelude::*;
use crate::angular_velocity::AngularVelocity;
use crate::integrator::runge_kutta::{spec_combine, RungeKutta4};
use crate::integrator::{
    lemma_step_keeps_attitude_unit, spec_displace, spec_dynamics, spec_step, Integrator,
};
use crate::lemmas::euler::{bounded, lemma_acceleration_is_bounded};
use crate::lemmas::exact::lemma_bounded_product;
use crate::lemmas::kinematics::{lemma_attitude_rate_is_bounded, lemma_attitude_rate_within};
use crate::lemmas::rounding::lemma_mul_remainder;
use crate::lemmas::unit_norm::{lemma_normalize_is_unit, lemma_unit_moved_is_normalizable};
use crate::quaternion::Quaternion;
use crate::scalar::{magnitude, Scalar, ONE_RAW};
use crate::state::State;

verus! {

/// The greatest step size, in raw units, for which a Runge-Kutta step of a
/// gentle state is known to keep a unit attitude: `2^-10`.
pub const GENTLE_STEP_RAW: i128 = 0x40_0000_0000;

/// The four states at which a Runge-Kutta step of size `h` takes the
/// derivatives: `state` itself, `state` moved half a step along the
/// derivatives at the first and at the second, and a whole step along those
/// at the third.
pub open spec fn stages(state: State, h: Scalar) -> (State, State, State, State) {
    let half_step = Scalar::half() * h;
    let second = spec_displace(state, spec_dynamics(state), half_step);
    let third = spec_displace(state, spec_dynamics(second), half_step);
    let fourth = spec_displace(state, spec_dynamics(third), h);
    (state, second, third, fourth)
}

/// Whether the angular velocity of `state` is finite and at most `w` raw
/// units in every coordinate.
pub open spec fn turns_within(state: State, w: int) -> bool {
    bounded(state.angular_velocity.x, state.angular_velocity.y, state.angular_velocity.z, w)
}

/// Whether `state` is a body without damper, with a unit attitude, a rate
/// of at most `rate` raw units in every coordinate, a torque of at most
/// four, an inertia with entries of at most four and an inverse with
/// entries of at most one.
pub open spec fn is_gentle(state: State, rate: int) -> bool {
    &&& state.damper is None
    &&& state.quaternion.is_unit()
    &&& bounded(state.angular_velocity.x, state.angular_velocity.y, state.angular_velocity.z, rate)
    &&& bounded(state.torque.x, state.torque.y, state.torque.z, 4 * ONE_RAW)
    &&& state.inertia.is_bounded(4 * ONE_RAW)
    &&& state.inertia.spec_inverse().is_bounded(ONE_RAW as int)
}

/// Whether the derivatives are finite, that of the attitude at most five in
/// every part and that of the rate at most 304 in every coordinate.
pub open spec fn are_bounded(rates: (Quaternion, AngularVelocity, AngularVelocity)) -> bool {
    &&& rates.0.is_bounded(5 * ONE_RAW)
    &&& bounded(rates.1.x, rates.1.y, rates.1.z, 304 * ONE_RAW)
}

/// The product of a small step and a bounded scalar is at most `bound`.
pub(crate) proof fn lemma_small_product(h: Scalar, x: Scalar, bh: int, bx: int, bound: int)
    requires
        h.is_finite(),
        x.is_finite(),
        magnitude(h.raw as int) <= bh,
        magnitude(x.raw as int) <= bx,
        bh * bx <= 0x1000_0000_0000_0000 * ONE_RAW,
        bh * bx <= bound * ONE_RAW,
    ensures
        (h * x).is_finite(),
        magnitude((h * x).raw as int) <= bound,
{
    let s = ONE_RAW as int;
    let r = lemma_mul_remainder(h, x, bh, bx);
    lemma_bounded_product(h.raw as int, x.raw as int, bh, bx);
    let p = (h * x).raw as int;
    assert(-bound <= p <= bound) by (nonlinear_arith)
        requires
            s > 0,
            s * p == h.raw * x.raw - r,
            -(bound * s) <= h.raw * x.raw <= bound * s,
            -s <= 2 * r <= s,
    ;
}

/// The derivatives at a gentle state with a rate of at most two are bounded.
proof fn lemma_stage_rates(state: State)
    requires
        is_gentle(state, 2 * ONE_RAW),
    ensures
        are_bounded(spec_dynamics(state)),
{
    lemma_attitude_rate_is_bounded(state.quaternion, state.angular_velocity);
    lemma_acceleration_is_bounded(state.angular_velocity, state.inertia, state.torque);
}

/// A gentle state with a rate of at most one, moved along bounded
/// derivatives for a time of at most `2^-10`, is gentle with a rate of at
/// most two.
proof fn lemma_displaced(
    state: State,
    rates: (Quaternion, AngularVelocity, AngularVelocity),
    dt: Scalar,
)
    requires
        is_gentle(state, ONE_RAW as int),
        are_bounded(rates),
        dt.is_finite(),
        magnitude(dt.raw as int) <= GENTLE_STEP_RAW,
    ensures
        is_gentle(spec_displace(state, rates, dt), 2 * ONE_RAW),
        moves_little(rates.0.scale(dt)),
{
    let s = ONE_RAW as int;
    let step = GENTLE_STEP_RAW as int;
    assert(step * (5 * s) <= 0x1000_0000_0000_0000 * s && step * (5 * s) <= 0x1400_0000_0000 * s
        && step * (304 * s) <= 0x1000_0000_0000_0000 * s && step * (304 * s) <= 0x4c00_0000_0000
        * s) by (nonlinear_arith)
        requires
            s == 0x1_0000_0000_0000,
            step == 0x40_0000_0000,
    ;
    lemma_small_product(dt, rates.0.w, step, 5 * s, 0x1400_0000_0000);
    lemma_small_product(dt, rates.0.x, step, 5 * s, 0x1400_0000_0000);
    lemma_small_product(dt, rates.0.y, step, 5 * s, 0x1400_0000_0000);
    lemma_small_product(dt, rates.0.z, step, 5 * s, 0x1400_0000_0000);
    lemma_small_product(dt, rates.1.x, step, 304 * s, 0x4c00_0000_0000);
    lemma_small_product(dt, rates.1.y, step, 304 * s, 0x4c00_0000_0000);
    lemma_small_product(dt, rates.1.z, step, 304 * s, 0x4c00_0000_0000);
    let moved = state.quaternion + rates.0.scale(dt);
    lemma_unit_moved_is_normalizable(state.quaternion, rates.0.scale(dt));
    lemma_normalize_is_unit(moved);
}

/// Whether a move of the attitude is finite and at most one eighth in every
/// part.
pub open spec fn moves_little(d: Quaternion) -> bool {
    &&& d.is_finite()
    &&& -ONE_RAW <= 8 * d.w.raw <= ONE_RAW
    &&& -ONE_RAW <= 8 * d.x.raw <= ONE_RAW
    &&& -ONE_RAW <= 8 * d.y.raw <= ONE_RAW
    &&& -ONE_RAW <= 8 * d.z.raw <= ONE_RAW
}

/// One part of the weighted mean of four stage derivatives of at most `m`
/// raw units each is at most `mean`, which exceeds `m` by a little.
proof fn lemma_combined_part(a: Scalar, b: Scalar, c: Scalar, d: Scalar, m: int, mean: int)
    requires
        a.is_finite() && b.is_finite() && c.is_finite() && d.is_finite(),
        magnitude(a.raw as int) <= m,
        magnitude(b.raw as int) <= m,
        magnitude(c.raw as int) <= m,
        magnitude(d.raw as int) <= m,
        0 <= m <= 0x400_0000_0000_0000,
        (ONE_RAW + 2) * m <= mean * ONE_RAW,
    ensures
        ({
            let two = Scalar::spec_from_int(2);
            let sixth = Scalar::spec_from_ratio(1, 6);
            let combined = sixth * (a + two * b + two * c + d);
            combined.is_finite() && magnitude(combined.raw as int) <= mean
        }),
{
    let s = ONE_RAW as int;
    let two = Scalar::spec_from_int(2);
    let sixth = Scalar::spec_from_ratio(1, 6);
    assert(two.raw == 2 * s);
    assert(sixth.is_finite() && 0 <= sixth.raw <= 0x2aaa_aaaa_aaab);
    assert((2 * s) * m <= 0x1000_0000_0000_0000 * s && (2 * s) * m == (2 * m) * s
        && 0x2aaa_aaaa_aaab * (6 * m) <= 0x1000_0000_0000_0000 * s && 0x2aaa_aaaa_aaab * (6 * m)
        == (s + 2) * m) by (nonlinear_arith)
        requires
            s == 0x1_0000_0000_0000,
            0 <= m <= 0x400_0000_0000_0000,
    ;
    lemma_small_product(two, b, 2 * s, m, 2 * m);
    lemma_small_product(two, c, 2 * s, m, 2 * m);
    let sum = a + two * b + two * c + d;
    assert(sum.is_finite() && magnitude(sum.raw as int) <= 6 * m);
    lemma_small_product(sixth, sum, 0x2aaa_aaaa_aaab, 6 * m, mean);
}

/// The mean of four stage derivatives of the attitude, of at most
/// `3 w + 2` raw units in every part, moves the attitude by little in a
/// step whose size times `w` is at most one thirty-second.
proof fn lemma_combined_moves_little(
    k1: (Quaternion, AngularVelocity, AngularVelocity),
    k2: (Quaternion, AngularVelocity, AngularVelocity),
    k3: (Quaternion, AngularVelocity, AngularVelocity),
    k4: (Quaternion, AngularVelocity, AngularVelocity),
    h: Scalar,
    w: int,
)
    requires
        k1.0.is_bounded(3 * w + 2),
        k2.0.is_bounded(3 * w + 2),
        k3.0.is_bounded(3 * w + 2),
        k4.0.is_bounded(3 * w + 2),
        h.is_finite(),
        0 <= w <= 0x100_0000_0000_0000,
        magnitude(h.raw as int) <= 0x400_0000_0000_0000,
        32 * (magnitude(h.raw as int) * w) <= ONE_RAW * ONE_RAW,
    ensures
        moves_little(spec_combine(k1, k2, k3, k4).0.scale(h)),
{
    let s = ONE_RAW as int;
    let hm = magnitude(h.raw as int);
    let k = spec_combine(k1, k2, k3, k4);
    let m = 3 * w + 2;
    let eighth = w / 8;
    let mean = m + eighth + 2;
    assert((s + 2) * m <= mean * s) by (nonlinear_arith)
        requires
            s == 0x1_0000_0000_0000,
            m == 3 * w + 2,
            mean == m + eighth + 2,
            w <= 8 * eighth + 7,
            0 <= w,
    ;
    lemma_combined_part(k1.0.w, k2.0.w, k3.0.w, k4.0.w, m, mean);
    lemma_combined_part(k1.0.x, k2.0.x, k3.0.x, k4.0.x, m, mean);
    lemma_combined_part(k1.0.y, k2.0.y, k3.0.y, k4.0.y, m, mean);
    lemma_combined_part(k1.0.z, k2.0.z, k3.0.z, k4.0.z, m, mean);
    assert(k.0.is_bounded(mean));
    assert(8 * (hm * eighth) <= hm * w && hm * mean == 3 * (hm * w) + hm * eighth + 4 * hm)
        by (nonlinear_arith)
        requires
            0 <= hm,
            0 <= 8 * eighth <= w,
            mean == 3 * w + eighth + 4,
    ;
    assert(hm * mean <= 0x1000_0000_0000_0000 * s && hm * mean <= 0x2000_0000_0000 * s)
        by (nonlinear_arith)
        requires
            s == 0x1_0000_0000_0000,
            0 <= hm <= 0x400_0000_0000_0000,
            32 * (hm * w) <= s * s,
            8 * (hm * mean) <= 25 * (hm * w) + 32 * hm,
            0 <= hm * w,
    ;
    lemma_small_product(h, k.0.w, hm, mean, 0x2000_0000_0000);
    lemma_small_product(h, k.0.x, hm, mean, 0x2000_0000_0000);
    lemma_small_product(h, k.0.y, hm, mean, 0x2000_0000_0000);
    lemma_small_product(h, k.0.z, hm, mean, 0x2000_0000_0000);
}

/// A unit attitude, moved along a derivative of at most `3 w + 2` raw units
/// in every part for a time of at most `hm` raw units, where `hm` times `w`
/// is at most one thirty-second, and normalised, is a unit attitude.
proof fn lemma_stage_attitude(
    state: State,
    rates: (Quaternion, AngularVelocity, AngularVelocity),
    dt: Scalar,
    hm: int,
    w: int,
)
    requires
        state.quaternion.is_unit(),
        rates.0.is_bounded(3 * w + 2),
        dt.is_finite(),
        magnitude(dt.raw as int) <= hm,
        0 <= w <= 0x100_0000_0000_0000,
        hm <= 0x400_0000_0000_0000,
        32 * (hm * w) <= ONE_RAW * ONE_RAW,
    ensures
        spec_displace(state, rates, dt).quaternion.is_unit(),
{
    let s = ONE_RAW as int;
    let m = 3 * w + 2;
    assert(hm * m <= 0x1000_0000_0000_0000 * s && hm * m <= 0x2000_0000_0000 * s)
        by (nonlinear_arith)
        requires
            s == 0x1_0000_0000_0000,
            0 <= hm <= 0x400_0000_0000_0000,
            0 <= w,
            m == 3 * w + 2,
            32 * (hm * w) <= s * s,
    ;
    lemma_small_product(dt, rates.0.w, hm, m, 0x2000_0000_0000);
    lemma_small_product(dt, rates.0.x, hm, m, 0x2000_0000_0000);
    lemma_small_product(dt, rates.0.y, hm, m, 0x2000_0000_0000);
    lemma_small_product(dt, rates.0.z, hm, m, 0x2000_0000_0000);
    let moved = state.quaternion + rates.0.scale(dt);
    lemma_unit_moved_is_normalizable(state.quaternion, rates.0.scale(dt));
    lemma_normalize_is_unit(moved);
}

/// A Runge-Kutta step from a unit attitude leaves a unit attitude, wherever
/// the angular velocity at each of its four stages is finite and at most
/// `w` in every coordinate, `w` is at most 256 and the step size times `w`
/// is at most one thirty-second: whatever the inertia, the torque and the
/// damper.
pub proof fn lemma_runge_kutta_keeps_attitude_unit(
    integrator: RungeKutta4,
    state: State,
    w: int,
)
    requires
        state.quaternion.is_unit(),
        integrator.step_size().is_finite(),
        0 <= w <= 0x100_0000_0000_0000,
        32 * (magnitude(integrator.step_size().raw as int) * w) <= ONE_RAW * ONE_RAW,
        magnitude(integrator.step_size().raw as int) <= 0x400_0000_0000_0000,
        turns_within(stages(state, integrator.step_size()).0, w),
        turns_within(stages(state, integrator.step_size()).1, w),
        turns_within(stages(state, integrator.step_size()).2, w),
        turns_within(stages(state, integrator.step_size()).3, w),
    ensures
        spec_step(state, integrator.slope(state), integrator.step_size()).quaternion.is_unit(),
{
    let s = ONE_RAW as int;
    let h = integrator.step_size();
    let hm = magnitude(h.raw as int);
    let half_step = Scalar::half() * h;
    assert(half_step.is_finite() && magnitude(half_step.raw as int) <= hm) by {
        assert(0x8000_0000_0000 * hm <= 0x1000_0000_0000_0000 * s && 0x8000_0000_0000 * hm <= hm
            * s) by (nonlinear_arith)
            requires
                s == 0x1_0000_0000_0000,
                0 <= hm <= 0x400_0000_0000_0000,
        ;
        lemma_small_product(Scalar::half(), h, 0x8000_0000_0000, hm, hm);
    }
    let k1 = spec_dynamics(state);
    lemma_attitude_rate_within(state.quaternion, state.angular_velocity, w);
    let second = spec_displace(state, k1, half_step);
    lemma_stage_attitude(state, k1, half_step, hm, w);
    let k2 = spec_dynamics(second);
    lemma_attitude_rate_within(second.quaternion, second.angular_velocity, w);
    let third = spec_displace(state, k2, half_step);
    lemma_stage_attitude(state, k2, half_step, hm, w);
    let k3 = spec_dynamics(third);
    lemma_attitude_rate_within(third.quaternion, third.angular_velocity, w);
    let fourth = spec_displace(state, k3, h);
    lemma_stage_attitude(state, k3, h, hm, w);
    let k4 = spec_dynamics(fourth);
    lemma_attitude_rate_within(fourth.quaternion, fourth.angular_velocity, w);
    let k = spec_combine(k1, k2, k3, k4);
    lemma_combined_moves_little(k1, k2, k3, k4, h, w);
    lemma_step_keeps_attitude_unit(state, k, h);
}

/// A Runge-Kutta step of at most `2^-10` from a unit attitude leaves a unit
/// attitude, for a body without damper that turns at no more than one in
/// any coordinate, under a torque of at most four, with an inertia whose
/// entries are at most four and whose inverse has entries of at most one.
pub proof fn lemma_runge_kutta_keeps_gentle_attitude_unit(integrator: RungeKutta4, state: State)
    requires
        is_gentle(state, ONE_RAW as int),
        integrator.step_size().is_finite(),
        magnitude(integrator.step_size().raw as int) <= GENTLE_STEP_RAW,
    ensures
        spec_step(state, integrator.slope(state), integrator.step_size()).quaternion.is_unit(),
{
    let s = ONE_RAW as int;
    let h = integrator.step_size();
    let half_step = Scalar::half() * h;
    assert(half_step.is_finite() && magnitude(half_step.raw as int) <= GENTLE_STEP_RAW) by {
        assert(0x8000_0000_0000 * 0x40_0000_0000 <= 0x1000_0000_0000_0000 * s && 0x8000_0000_0000
            * 0x40_0000_0000 <= 0x20_0000_0000 * s);
        lemma_small_product(Scalar::half(), h, 0x8000_0000_0000, 0x40_0000_0000, 0x20_0000_0000);
    }
    let k1 = spec_dynamics(state);
    assert(are_bounded(k1)) by {
        lemma_stage_rates(state);
    }
    let second = spec_displace(state, k1, half_step);
    lemma_displaced(state, k1, half_step);
    let k2 = spec_dynamics(second);
    lemma_stage_rates(second);
    let third = spec_displace(state, k2, half_step);
    lemma_displaced(state, k2, half_step);
    let k3 = spec_dynamics(third);
    lemma_stage_rates(third);
    let fourth = spec_displace(state, k3, h);
    lemma_displaced(state, k3, h);
    assert(stages(state, h) == (state, second, third, fourth));
    assert(32 * (magnitude(h.raw as int) * (2 * s)) <= s * s) by (nonlinear_arith)
        requires
            s == 0x1_0000_0000_0000,
            0 <= magnitude(h.raw as int) <= 0x40_0000_0000,
    ;
    lemma_runge_kutta_keeps_attitude_unit(integrator, state, 2 * s);
}

} // verus!
