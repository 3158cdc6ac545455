//! Rigid-body damper.

use vstd::prelude::*;
use crate::angular_velocity::AngularVelocity;
use crate::inertia::Inertia;
use crate::scalar::Scalar;

verus! {

/// Kane damper.
///
/// The _Kane damper_ is a simple model of rigid-body damping used to account
/// for energy dissipation in rotating rigid bodies.
///
/// A conceptual model of the Kane damper is a solid sphere inside the rigid
/// body suspended in a viscous fluid.  As the rigid body rotates, the solid
/// sphere begins to rotate along with it.  The torque due to viscous forces
/// is proportional to the vector difference of the sphere's angular velocity
/// and the rigid body's angular velocity.
#[derive(Clone, Copy, Debug, PartialEq, Eq, Structural)]
pub struct KaneDamper {
    /// Damper inertia.
    pub inertia: Inertia,
    /// Damping coefficient.
    pub coefficient: Scalar,
    /// Damper angular velocity.
    pub angular_velocity: AngularVelocity,
}

impl KaneDamper {
    /// The damper at rest whose inertia is `inertia` about every axis.
    pub open spec fn spec_new(inertia: Scalar, coefficient: Scalar) -> KaneDamper {
        KaneDamper {
            inertia: Inertia::new(
                inertia,
                inertia,
                inertia,
                Scalar::zero(),
                Scalar::zero(),
                Scalar::zero(),
            ),
            coefficient,
            angular_velocity: AngularVelocity::new(Scalar::zero(), Scalar::zero(), Scalar::zero()),
        }
    }

    /// Construct a new Kane damper, given a damper inertia and damping coefficient.
    ///
    /// Note that, when constructing a Kane damper, a _scalar_ inertia is specified.
    /// This is because the Kane damper model of energy dissipation conceptually
    /// models the damper as a solid sphere.  Because the inertia of a sphere is equal
    /// about any axis, a positive scalar is sufficient.
    #[verifier::when_used_as_spec(spec_new)]
    pub fn new(inertia: Scalar, coefficient: Scalar) -> (r: KaneDamper)
        ensures
            r == KaneDamper::spec_new(inertia, coefficient),
    {
        let inertia = Inertia::new(
            inertia,
            inertia,
            inertia,
            Scalar::zero(),
            Scalar::zero(),
            Scalar::zero(),
        );
        KaneDamper {
            inertia,
            coefficient,
            angular_velocity: AngularVelocity::new(Scalar::zero(), Scalar::zero(), Scalar::zero()),
        }
    }
}

} // verus!
