//! Rigid-body attitude dynamics over a 128-bit fixed-point scalar.
//!
//! The library simulates the rotation of a rigid body under applied torques,
//! with or without a Kane damper inside it: quaternions, body-frame vectors
//! and a symmetric inertia tensor, the derivatives of attitude and angular
//! velocity, and two fixed-step integrators that renormalise the attitude at
//! every stage.
//!
//! Every number is a [`Scalar`]: a multiple of `2^-48` of magnitude less
//! than `2^30`, or the non-finite value that takes the place of every
//! result outside that range. All functions are total and none panics; what
//! each returns is stated, to the last bit, in its contract.

pub mod angular_momentum;
pub mod angular_velocity;
pub mod damper;
pub mod inertia;
pub mod integrator;
pub mod lemmas;
pub mod quaternion;
pub mod scalar;
pub mod state;
pub mod torque;
pub mod trig;
pub mod wide;

pub use angular_momentum::AngularMomentum;
pub use angular_velocity::AngularVelocity;
pub use damper::KaneDamper;
pub use inertia::Inertia;
pub use integrator::forward_euler::ForwardEuler;
pub use integrator::runge_kutta::RungeKutta4;
pub use integrator::Integrator;
pub use quaternion::Quaternion;
pub use scalar::Scalar;
pub use state::State;
pub use torque::Torque;
