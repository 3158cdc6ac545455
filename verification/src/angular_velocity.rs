//! Angular velocity vectors.

use vstd::prelude::*;
use core::ops::Neg;
use vstd::std_specs::ops::AddSpecImpl;
use vstd::std_specs::ops::NegSpecImpl;
use vstd::std_specs::ops::SubSpecImpl;
use crate::angular_momentum::AngularMomentum;
use crate::inertia::Inertia;
use crate::lemmas::euler::{
    euler_residual, euler_tolerance, is_moderate, lemma_diff_solves_eulers_equations,
    lemma_moderate_acceleration_is_finite,
};
use crate::lemmas::rotation::{
    lemma_rotation_preserves_length, ROTATABLE_RAW, ROTATION_TOLERANCE_RAW,
};
use crate::quaternion::Quaternion;
use crate::scalar::{magnitude, Scalar, ONE_RAW};
use crate::torque::Torque;

verus! {

/// Angular velocity vector, given in the body frame.
#[derive(Clone, Copy, Debug, PartialEq, Eq, Structural)]
pub struct AngularVelocity {
    /// X coordinate.
    pub x: Scalar,
    /// Y coordinate.
    pub y: Scalar,
    /// Z coordinate.
    pub z: Scalar,
}

impl AngularVelocity {
    /// The vector with the given coordinates.
    pub open spec fn spec_new(x: Scalar, y: Scalar, z: Scalar) -> AngularVelocity {
        AngularVelocity { x, y, z }
    }

    /// Whether every coordinate is finite.
    pub open spec fn is_finite(self) -> bool {
        self.x.is_finite() && self.y.is_finite() && self.z.is_finite()
    }

    /// The length: the root of the sum of the squares of the coordinates,
    /// rounded down.
    pub open spec fn length(self) -> Scalar {
        Quaternion::from_vector(self.x, self.y, self.z).norm()
    }

    /// The coordinatewise sum.
    pub open spec fn spec_add(self, rhs: AngularVelocity) -> AngularVelocity {
        AngularVelocity { x: self.x + rhs.x, y: self.y + rhs.y, z: self.z + rhs.z }
    }

    /// The coordinatewise difference.
    pub open spec fn spec_sub(self, rhs: AngularVelocity) -> AngularVelocity {
        AngularVelocity { x: self.x - rhs.x, y: self.y - rhs.y, z: self.z - rhs.z }
    }

    /// The coordinatewise negation.
    pub open spec fn spec_neg(self) -> AngularVelocity {
        AngularVelocity { x: -self.x, y: -self.y, z: -self.z }
    }

    /// The vector with every coordinate multiplied by `s`.
    pub open spec fn spec_scale(&self, s: Scalar) -> AngularVelocity {
        AngularVelocity { x: s * self.x, y: s * self.y, z: s * self.z }
    }

    /// The vector part of `q * (0, self) * q.inv()`.
    pub open spec fn spec_rotate(&self, q: Quaternion) -> AngularVelocity {
        let rotated = q * Quaternion::from_vector(self.x, self.y, self.z) * q.inv();
        AngularVelocity { x: rotated.x, y: rotated.y, z: rotated.z }
    }

    /// Construct a new angular velocity vector.
    #[verifier::when_used_as_spec(spec_new)]
    pub fn new(x: Scalar, y: Scalar, z: Scalar) -> (r: AngularVelocity)
        ensures
            r == AngularVelocity::spec_new(x, y, z),
    {
        AngularVelocity { x, y, z }
    }

    /// Rotate this vector by a given unit quaternion.
    #[verifier::when_used_as_spec(spec_rotate)]
    pub fn rotate(&self, q: Quaternion) -> (r: AngularVelocity)
        ensures
            r == self.spec_rotate(q),
            q.is_unit() && Quaternion::from_vector(self.x, self.y, self.z).is_bounded(
                ROTATABLE_RAW as int,
            ) ==> r.length().is_finite() && self.length().is_finite() && magnitude(
                r.length().raw - self.length().raw,
            ) <= ROTATION_TOLERANCE_RAW,
    {
        proof {
            if q.is_unit() && Quaternion::from_vector(self.x, self.y, self.z).is_bounded(
                ROTATABLE_RAW as int,
            ) {
                lemma_rotation_preserves_length(q, Quaternion::from_vector(self.x, self.y, self.z));
            }
        }
        let v = Quaternion::from_vector(self.x, self.y, self.z);
        let rotated = q * v * q.inv();
        AngularVelocity { x: rotated.x, y: rotated.y, z: rotated.z }
    }

    /// Scale this vector by a given scalar.
    #[verifier::when_used_as_spec(spec_scale)]
    pub fn scale(&self, s: Scalar) -> (r: AngularVelocity)
        ensures
            r == self.spec_scale(s),
    {
        AngularVelocity { x: s * self.x, y: s * self.y, z: s * self.z }
    }

    /// The angular acceleration `inv(J) (t - w x (J w))` of a body with
    /// inertia `J` and angular velocity `w = self` under the torque `t`.
    pub open spec fn spec_diff(&self, inertia: Inertia, torque: Torque) -> AngularVelocity {
        let h = AngularMomentum::product(inertia, *self);
        let torque_free = -Torque::new(
            self.y * h.z - self.z * h.y,
            self.z * h.x - self.x * h.z,
            self.x * h.y - self.y * h.x,
        );
        let i = inertia.spec_inverse();
        let t = torque + torque_free;
        AngularVelocity {
            x: i.j1 * t.x + i.j6 * t.y + i.j5 * t.z,
            y: i.j6 * t.x + i.j2 * t.y + i.j4 * t.z,
            z: i.j5 * t.x + i.j4 * t.y + i.j3 * t.z,
        }
    }

    /// Given an input torque and inertia tensor, determine an angular
    /// acceleration vector.
    ///
    /// Every coordinate is non-finite where the determinant of the inertia
    /// is zero, or where an entry of the inverse or another intermediate
    /// value is outside the finite range. Wherever the result is finite it
    /// solves Euler's equations to within the rounding of the last place.
    #[verifier::when_used_as_spec(spec_diff)]
    pub fn diff(&self, inertia: Inertia, torque: Torque) -> (r: AngularVelocity)
        ensures
            r == self.spec_diff(inertia, torque),
            is_moderate(*self, inertia, torque) ==> r.is_finite(),
            r.is_finite() ==> euler_residual(*self, inertia, torque, r).is_within(
                euler_tolerance(*self, inertia, torque),
            ),
    {
        proof {
            if is_moderate(*self, inertia, torque) {
                lemma_moderate_acceleration_is_finite(*self, inertia, torque);
            }
            if self.spec_diff(inertia, torque).is_finite() {
                lemma_diff_solves_eulers_equations(*self, inertia, torque);
            }
        }
        let h = AngularMomentum::product(inertia, *self);
        let torque_free = Torque::new(
            self.y * h.z - self.z * h.y,
            self.z * h.x - self.x * h.z,
            self.x * h.y - self.y * h.x,
        ).neg();
        let i = inertia.inverse();
        let t = torque + torque_free;
        AngularVelocity {
            x: i.j1 * t.x + i.j6 * t.y + i.j5 * t.z,
            y: i.j6 * t.x + i.j2 * t.y + i.j4 * t.z,
            z: i.j5 * t.x + i.j4 * t.y + i.j3 * t.z,
        }
    }
}

impl core::ops::Add for AngularVelocity {
    type Output = AngularVelocity;

    fn add(self, rhs: AngularVelocity) -> (r: AngularVelocity) {
        AngularVelocity { x: self.x + rhs.x, y: self.y + rhs.y, z: self.z + rhs.z }
    }
}

impl AddSpecImpl for AngularVelocity {
    open spec fn obeys_add_spec() -> bool {
        true
    }

    open spec fn add_req(self, rhs: AngularVelocity) -> bool {
        true
    }

    open spec fn add_spec(self, rhs: AngularVelocity) -> AngularVelocity {
        self.spec_add(rhs)
    }
}

impl core::ops::Sub for AngularVelocity {
    type Output = AngularVelocity;

    fn sub(self, rhs: AngularVelocity) -> (r: AngularVelocity) {
        AngularVelocity { x: self.x - rhs.x, y: self.y - rhs.y, z: self.z - rhs.z }
    }
}

impl SubSpecImpl for AngularVelocity {
    open spec fn obeys_sub_spec() -> bool {
        true
    }

    open spec fn sub_req(self, rhs: AngularVelocity) -> bool {
        true
    }

    open spec fn sub_spec(self, rhs: AngularVelocity) -> AngularVelocity {
        self.spec_sub(rhs)
    }
}

impl core::ops::Neg for AngularVelocity {
    type Output = AngularVelocity;

    fn neg(self) -> (r: AngularVelocity) {
        AngularVelocity { x: self.x.neg(), y: self.y.neg(), z: self.z.neg() }
    }
}

impl NegSpecImpl for AngularVelocity {
    open spec fn obeys_neg_spec() -> bool {
        true
    }

    open spec fn neg_req(self) -> bool {
        true
    }

    open spec fn neg_spec(self) -> AngularVelocity {
        self.spec_neg()
    }
}

} // verus!
