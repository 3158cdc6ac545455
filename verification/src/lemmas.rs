//! What is proved of the library beyond the contracts of its functions.
//!
//! `exact` holds the algebra in exact integer arithmetic and `rounding` what
//! a rounded product or quotient differs from the exact one by. On these
//! rest the identities of the value types (`algebra`), the norm of a
//! normalised quaternion (`unit_norm`), of an axis-angle quaternion
//! (`axis_angle`) and of a product (`norms`), the product of a quaternion
//! and its inverse (`inverse`), the length of a rotated vector
//! (`rotation`), the attitude rate (`kinematics`), Euler's equations at the
//! angular acceleration (`euler`), the work of the gyroscopic term and of
//! the damper (`energy`), the attitude after a step of the fourth order
//! Runge-Kutta method (`stages`), the free rotation of a symmetric body
//! (`free_rotation`), and the polynomials of sine and cosine against the
//! exact Taylor sums (`series`).

pub mod algebra;
pub mod axis_angle;
pub mod energy;
pub mod euler;
pub mod exact;
pub mod free_rotation;
pub mod inverse;
pub mod kinematics;
pub mod norms;
pub mod rotation;
pub mod rounding;
pub mod series;
pub mod stages;
pub mod unit_norm;
