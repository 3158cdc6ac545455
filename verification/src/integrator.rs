//! Integrator abstraction.

pub mod forward_euler;
pub mod runge_kutta;

use vstd::prelude::*;
use core::ops::Neg;
use crate::angular_velocity::AngularVelocity;
use crate::damper::KaneDamper;
use crate::lemmas::unit_norm::{lemma_normalize_is_unit, lemma_unit_moved_is_normalizable};
use crate::quaternion::Quaternion;
use crate::scalar::{ONE_RAW, Scalar};
use crate::state::State;
use crate::torque::Torque;

verus! {

/// The torque that a damper applies to a body turning at `angular_velocity`:
/// the damper's rate relative to the body, times the damping coefficient.
pub open spec fn damping_torque(damper: KaneDamper, angular_velocity: AngularVelocity) -> Torque {
    let relative = damper.angular_velocity - angular_velocity;
    Torque::new(relative.x, relative.y, relative.z).scale(damper.coefficient)
}

/// The time derivatives of attitude, body rate and damper rate in `state`.
///
/// The damper applies its damping torque to the body and receives the
/// opposite torque; without a damper the damper's derivative is zero.
pub open spec fn spec_dynamics(state: State) -> (Quaternion, AngularVelocity, AngularVelocity) {
    let q = state.quaternion;
    let w = state.angular_velocity;
    match state.damper {
        Some(d) => {
            let td = damping_torque(d, w);
            (
                q.diff(w),
                w.diff(state.inertia, state.torque + td),
                d.angular_velocity.diff(d.inertia, -td),
            )
        },
        None => (
            q.diff(w),
            w.diff(state.inertia, state.torque),
            AngularVelocity::new(Scalar::zero(), Scalar::zero(), Scalar::zero()),
        ),
    }
}

/// `state` moved along `rates` for the time `dt`, at the same instant: the
/// attitude renormalised, the damper's rate moved where there is a damper.
pub open spec fn spec_displace(
    state: State,
    rates: (Quaternion, AngularVelocity, AngularVelocity),
    dt: Scalar,
) -> State {
    State {
        time: state.time,
        quaternion: (state.quaternion + rates.0.scale(dt)).normalize(),
        angular_velocity: state.angular_velocity + rates.1.scale(dt),
        inertia: state.inertia,
        torque: state.torque,
        damper: match state.damper {
            Some(d) => Some(
                KaneDamper {
                    inertia: d.inertia,
                    coefficient: d.coefficient,
                    angular_velocity: d.angular_velocity + rates.2.scale(dt),
                },
            ),
            None => None,
        },
    }
}

/// `state` at the instant `dt` later.
pub open spec fn spec_advance_time(state: State, dt: Scalar) -> State {
    State {
        time: state.time + dt,
        quaternion: state.quaternion,
        angular_velocity: state.angular_velocity,
        inertia: state.inertia,
        torque: state.torque,
        damper: state.damper,
    }
}

/// The state that one step of size `h` along `rates` leads to from `state`.
pub open spec fn spec_step(
    state: State,
    rates: (Quaternion, AngularVelocity, AngularVelocity),
    h: Scalar,
) -> State {
    spec_advance_time(spec_displace(state, rates, h), h)
}

/// A step leaves a unit attitude wherever the attitude that it normalises,
/// the old one moved along its derivative, is finite and has a finite norm
/// of `2^-14` or more.
pub proof fn lemma_step_attitude_is_unit(
    state: State,
    rates: (Quaternion, AngularVelocity, AngularVelocity),
    h: Scalar,
)
    requires
        (state.quaternion + rates.0.scale(h)).is_normalizable(),
    ensures
        spec_step(state, rates, h).quaternion.is_unit(),
        spec_displace(state, rates, h).quaternion.is_unit(),
{
    lemma_normalize_is_unit(state.quaternion + rates.0.scale(h));
}

/// A step from a unit attitude leaves a unit attitude wherever it moves no
/// part of the attitude by more than one eighth.
pub proof fn lemma_step_keeps_attitude_unit(
    state: State,
    rates: (Quaternion, AngularVelocity, AngularVelocity),
    h: Scalar,
)
    requires
        state.quaternion.is_unit(),
        rates.0.scale(h).is_finite(),
        -ONE_RAW <= 8 * rates.0.scale(h).w.raw <= ONE_RAW,
        -ONE_RAW <= 8 * rates.0.scale(h).x.raw <= ONE_RAW,
        -ONE_RAW <= 8 * rates.0.scale(h).y.raw <= ONE_RAW,
        -ONE_RAW <= 8 * rates.0.scale(h).z.raw <= ONE_RAW,
    ensures
        spec_step(state, rates, h).quaternion.is_unit(),
{
    lemma_unit_moved_is_normalizable(state.quaternion, rates.0.scale(h));
    lemma_step_attitude_is_unit(state, rates, h);
}

/// Move `state` along `rates` for the time `dt`, at the same instant.
pub fn displace(
    state: State,
    rates: (Quaternion, AngularVelocity, AngularVelocity),
    dt: Scalar,
) -> (r: State)
    ensures
        r == spec_displace(state, rates, dt),
        (state.quaternion + rates.0.scale(dt)).is_normalizable() ==> r.quaternion.is_unit(),
{
    proof {
        if (state.quaternion + rates.0.scale(dt)).is_normalizable() {
            lemma_step_attitude_is_unit(state, rates, dt);
        }
    }
    let damper = match state.damper {
        Some(d) => Some(
            KaneDamper {
                inertia: d.inertia,
                coefficient: d.coefficient,
                angular_velocity: d.angular_velocity + rates.2.scale(dt),
            },
        ),
        None => None,
    };
    State {
        time: state.time,
        quaternion: (state.quaternion + rates.0.scale(dt)).normalize(),
        angular_velocity: state.angular_velocity + rates.1.scale(dt),
        inertia: state.inertia,
        torque: state.torque,
        damper,
    }
}

/// Determine the time derivatives of both attitude and angular velocity for the
/// rigid body, and the time derivative of angular velocity for the simulated damper.
pub fn dynamics(state: State) -> (r: (Quaternion, AngularVelocity, AngularVelocity))
    ensures
        r == spec_dynamics(state),
{
    let (q, w) = (state.quaternion, state.angular_velocity);

    // Applied torque
    let mut t = state.torque;

    // Damper velocity derivative (if damping present)
    let wddot = if let Some(d) = state.damper {
        let wd = d.angular_velocity;

        // Damping torque (damper ON rigid body)
        let wdiff = wd - w;
        let td = Torque::new(wdiff.x, wdiff.y, wdiff.z).scale(d.coefficient);

        // Update applied torque
        t = t + td;

        wd.diff(d.inertia, td.neg())
    } else {
        AngularVelocity::new(Scalar::zero(), Scalar::zero(), Scalar::zero())
    };

    // Rigid-body orientation derivative
    let qdot = q.diff(w);

    // Rigid-body velocity derivative
    let wdot = w.diff(state.inertia, t);

    (qdot, wdot, wddot)
}

/// Numerical integrator for Ordinary Differential Equations (ODEs).
pub trait Integrator {
    /// The fixed time step.
    spec fn step_size(&self) -> Scalar;

    /// The derivatives along which one step moves a state.
    spec fn slope(&self, state: State) -> (Quaternion, AngularVelocity, AngularVelocity);

    /// Determine the time derivatives of both attitude and angular velocity for the
    /// rigid body, and the time derivative of angular velocity for the simulated damper.
    fn dynamics(&self, state: State) -> (r: (Quaternion, AngularVelocity, AngularVelocity))
        ensures
            r == spec_dynamics(state),
    ;

    /// Perform one integration step.
    fn step(&self, state: State) -> (r: State)
        ensures
            r == spec_step(state, self.slope(state), self.step_size()),
            r.time == state.time + self.step_size(),
            r.inertia == state.inertia,
            r.torque == state.torque,
            r.damper is Some <==> state.damper is Some,
            (state.quaternion + self.slope(state).0.scale(self.step_size())).is_normalizable()
                ==> r.quaternion.is_unit(),
    ;
}

} // verus!
