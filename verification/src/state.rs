//! Rigid-body state abstraction.

use vstd::prelude::*;
use crate::angular_velocity::AngularVelocity;
use crate::damper::KaneDamper;
use crate::inertia::Inertia;
use crate::quaternion::Quaternion;
use crate::scalar::Scalar;
use crate::torque::Torque;

verus! {

/// Rigid-body state.
#[derive(Clone, Copy, Debug, PartialEq, Eq)]
pub struct State {
    /// Simulation time.
    pub time: Scalar,
    /// Attitude (rotation from body frame to inertial frame).
    pub quaternion: Quaternion,
    /// Angular velocity (body frame).
    pub angular_velocity: AngularVelocity,
    /// Rigid-body inertia (body frame).
    pub inertia: Inertia,
    /// Input torques (body frame).
    pub torque: Torque,
    /// Kane damper.
    pub damper: Option<KaneDamper>,
}

impl State {
    /// The state at time zero of a body with the given inertia, at the
    /// default attitude, at rest, under no torque and without a damper.
    pub open spec fn spec_new(inertia: Inertia) -> State {
        State {
            time: Scalar::zero(),
            quaternion: Quaternion::unit(),
            angular_velocity: AngularVelocity::new(Scalar::zero(), Scalar::zero(), Scalar::zero()),
            inertia,
            torque: Torque::zero(),
            damper: None,
        }
    }

    /// Initialize a new state, with body at default attitude and no velocities or torque.
    #[verifier::when_used_as_spec(spec_new)]
    pub fn new(inertia: Inertia) -> (r: State)
        ensures
            r == State::spec_new(inertia),
    {
        State {
            time: Scalar::zero(),
            quaternion: Quaternion::unit(),
            angular_velocity: AngularVelocity::new(Scalar::zero(), Scalar::zero(), Scalar::zero()),
            inertia,
            torque: Torque::zero(),
            damper: None,
        }
    }
}

} // verus!
