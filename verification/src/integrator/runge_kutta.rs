//! Runge-Kutta integrators.

use vstd::prelude::*;
use crate::angular_velocity::AngularVelocity;
use crate::integrator::{displace, dynamics, Integrator, spec_displace, spec_dynamics, spec_step};
use crate::quaternion::Quaternion;
use crate::scalar::Scalar;
use crate::state::State;

verus! {

/// Fourth-order Runge-Kutta integrator for rigid-body motion.
pub struct RungeKutta4 {
    // Time step.
    h: Scalar,
}

/// The weighted mean `(k1 + 2 k2 + 2 k3 + k4) / 6` of four stage derivatives.
pub open spec fn spec_combine(
    k1: (Quaternion, AngularVelocity, AngularVelocity),
    k2: (Quaternion, AngularVelocity, AngularVelocity),
    k3: (Quaternion, AngularVelocity, AngularVelocity),
    k4: (Quaternion, AngularVelocity, AngularVelocity),
) -> (Quaternion, AngularVelocity, AngularVelocity) {
    let two = Scalar::spec_from_int(2);
    let sixth = Scalar::spec_from_ratio(1, 6);
    (
        (k1.0 + k2.0.scale(two) + k3.0.scale(two) + k4.0).scale(sixth),
        (k1.1 + k2.1.scale(two) + k3.1.scale(two) + k4.1).scale(sixth),
        (k1.2 + k2.2.scale(two) + k3.2.scale(two) + k4.2).scale(sixth),
    )
}

/// The weighted mean `(k1 + 2 k2 + 2 k3 + k4) / 6` of four stage derivatives.
pub fn combine(
    k1: (Quaternion, AngularVelocity, AngularVelocity),
    k2: (Quaternion, AngularVelocity, AngularVelocity),
    k3: (Quaternion, AngularVelocity, AngularVelocity),
    k4: (Quaternion, AngularVelocity, AngularVelocity),
) -> (r: (Quaternion, AngularVelocity, AngularVelocity))
    ensures
        r == spec_combine(k1, k2, k3, k4),
{
    let two = Scalar::from_int(2);
    let sixth = Scalar::from_ratio(1, 6);
    (
        (k1.0 + k2.0.scale(two) + k3.0.scale(two) + k4.0).scale(sixth),
        (k1.1 + k2.1.scale(two) + k3.1.scale(two) + k4.1).scale(sixth),
        (k1.2 + k2.2.scale(two) + k3.2.scale(two) + k4.2).scale(sixth),
    )
}

impl RungeKutta4 {
    /// Construct a new fourth-order Runge-Kutta integrator.
    pub fn new(h: Scalar) -> (r: RungeKutta4)
        ensures
            r.step_size() == h,
    {
        RungeKutta4 { h }
    }

    /// Integrate one step.
    pub fn step(&self, state: State) -> (r: State)
        ensures
            r == spec_step(state, self.slope(state), self.step_size()),
            r.time == state.time + self.step_size(),
            r.inertia == state.inertia,
            r.torque == state.torque,
            r.damper is Some <==> state.damper is Some,
            (state.quaternion + self.slope(state).0.scale(self.step_size())).is_normalizable()
                ==> r.quaternion.is_unit(),
    {
        let half_step = Scalar::half() * self.h;

        // First step
        let k1 = self.dynamics(state);

        // Second step
        let k2 = self.dynamics(displace(state, k1, half_step));

        // Third step
        let k3 = self.dynamics(displace(state, k2, half_step));

        // Fourth step
        let k4 = self.dynamics(displace(state, k3, self.h));

        // Combine
        let rates = combine(k1, k2, k3, k4);

        // Construct new state
        let mut newstate = displace(state, rates, self.h);

        // Step time
        newstate.time = state.time + self.h;

        newstate
    }
}

impl Integrator for RungeKutta4 {
    closed spec fn step_size(&self) -> Scalar {
        self.h
    }

    /// The weighted mean of the derivatives at four stages: at the state
    /// itself, at the state moved half a step along the first and along the
    /// second stage's derivatives, and at the state moved a whole step along
    /// the third's.
    open spec fn slope(&self, state: State) -> (Quaternion, AngularVelocity, AngularVelocity) {
        let h = self.step_size();
        let k1 = spec_dynamics(state);
        let k2 = spec_dynamics(spec_displace(state, k1, Scalar::half() * h));
        let k3 = spec_dynamics(spec_displace(state, k2, Scalar::half() * h));
        let k4 = spec_dynamics(spec_displace(state, k3, h));
        spec_combine(k1, k2, k3, k4)
    }

    fn dynamics(&self, state: State) -> (r: (Quaternion, AngularVelocity, AngularVelocity)) {
        dynamics(state)
    }

    fn step(&self, state: State) -> (r: State) {
        self.step(state)
    }
}

} // verus!
