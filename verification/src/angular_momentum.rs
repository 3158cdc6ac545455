//! Angular momentum vectors.

use vstd::prelude::*;
use core::ops::Neg;
use vstd::std_specs::ops::AddSpecImpl;
use vstd::std_specs::ops::NegSpecImpl;
use vstd::std_specs::ops::SubSpecImpl;
use crate::angular_velocity::AngularVelocity;
use crate::inertia::Inertia;
use crate::lemmas::rotation::{
    lemma_rotation_preserves_length, ROTATABLE_RAW, ROTATION_TOLERANCE_RAW,
};
use crate::quaternion::Quaternion;
use crate::scalar::{magnitude, Scalar};

verus! {

/// Angular momentum vector, given in the body frame.
#[derive(Clone, Copy, Debug, PartialEq, Eq, Structural)]
pub struct AngularMomentum {
    /// X coordinate.
    pub x: Scalar,
    /// Y coordinate.
    pub y: Scalar,
    /// Z coordinate.
    pub z: Scalar,
}

impl AngularMomentum {
    /// The vector with the given coordinates.
    pub open spec fn spec_new(x: Scalar, y: Scalar, z: Scalar) -> AngularMomentum {
        AngularMomentum { x, y, z }
    }

    /// The zero vector.
    pub open spec fn spec_zero() -> AngularMomentum {
        AngularMomentum { x: Scalar::zero(), y: Scalar::zero(), z: Scalar::zero() }
    }

    /// Whether every coordinate is finite.
    pub open spec fn is_finite(self) -> bool {
        self.x.is_finite() && self.y.is_finite() && self.z.is_finite()
    }

    /// The length: the root of the sum of the squares of the coordinates,
    /// rounded down.
    pub open spec fn length(self) -> Scalar {
        Quaternion::from_vector(self.x, self.y, self.z).norm()
    }

    /// The coordinatewise sum.
    pub open spec fn spec_add(self, rhs: AngularMomentum) -> AngularMomentum {
        AngularMomentum { x: self.x + rhs.x, y: self.y + rhs.y, z: self.z + rhs.z }
    }

    /// The coordinatewise difference.
    pub open spec fn spec_sub(self, rhs: AngularMomentum) -> AngularMomentum {
        AngularMomentum { x: self.x - rhs.x, y: self.y - rhs.y, z: self.z - rhs.z }
    }

    /// The coordinatewise negation.
    pub open spec fn spec_neg(self) -> AngularMomentum {
        AngularMomentum { x: -self.x, y: -self.y, z: -self.z }
    }

    /// The vector with every coordinate multiplied by `s`.
    pub open spec fn spec_scale(&self, s: Scalar) -> AngularMomentum {
        AngularMomentum { x: s * self.x, y: s * self.y, z: s * self.z }
    }

    /// The vector part of `q * (0, self) * q.inv()`.
    pub open spec fn spec_rotate(&self, q: Quaternion) -> AngularMomentum {
        let rotated = q * Quaternion::from_vector(self.x, self.y, self.z) * q.inv();
        AngularMomentum { x: rotated.x, y: rotated.y, z: rotated.z }
    }

    /// Construct a new angular momentum vector.
    #[verifier::when_used_as_spec(spec_new)]
    pub fn new(x: Scalar, y: Scalar, z: Scalar) -> (r: AngularMomentum)
        ensures
            r == AngularMomentum::spec_new(x, y, z),
    {
        AngularMomentum { x, y, z }
    }

    /// Construct the zero vector.
    #[verifier::when_used_as_spec(spec_zero)]
    pub fn zero() -> (r: AngularMomentum)
        ensures
            r == AngularMomentum::spec_zero(),
    {
        AngularMomentum { x: Scalar::zero(), y: Scalar::zero(), z: Scalar::zero() }
    }

    /// Rotate this vector by a given unit quaternion.
    #[verifier::when_used_as_spec(spec_rotate)]
    pub fn rotate(&self, q: Quaternion) -> (r: AngularMomentum)
        ensures
            r == self.spec_rotate(q),
            q.is_unit() && Quaternion::from_vector(self.x, self.y, self.z).is_bounded(
                ROTATABLE_RAW as int,
            ) ==> r.length().is_finite() && self.length().is_finite() && magnitude(
                r.length().raw - self.length().raw,
            ) <= ROTATION_TOLERANCE_RAW,
    {
        proof {
            if q.is_unit() && Quaternion::from_vector(self.x, self.y, self.z).is_bounded(
                ROTATABLE_RAW as int,
            ) {
                lemma_rotation_preserves_length(q, Quaternion::from_vector(self.x, self.y, self.z));
            }
        }
        let v = Quaternion::from_vector(self.x, self.y, self.z);
        let rotated = q * v * q.inv();
        AngularMomentum { x: rotated.x, y: rotated.y, z: rotated.z }
    }

    /// Scale this vector by a given scalar.
    #[verifier::when_used_as_spec(spec_scale)]
    pub fn scale(&self, s: Scalar) -> (r: AngularMomentum)
        ensures
            r == self.spec_scale(s),
    {
        AngularMomentum { x: s * self.x, y: s * self.y, z: s * self.z }
    }

    /// The product of the inertia tensor and the angular velocity, `J w`.
    pub open spec fn spec_product(
        inertia: Inertia,
        angular_velocity: AngularVelocity,
    ) -> AngularMomentum {
        let j = inertia;
        let w = angular_velocity;
        AngularMomentum {
            x: j.j1 * w.x + j.j6 * w.y + j.j5 * w.z,
            y: j.j6 * w.x + j.j2 * w.y + j.j4 * w.z,
            z: j.j5 * w.x + j.j4 * w.y + j.j3 * w.z,
        }
    }

    /// Construct an angular momentum vector from an inertia tensor and an
    /// angular velocity.
    #[verifier::when_used_as_spec(spec_product)]
    pub fn product(inertia: Inertia, angular_velocity: AngularVelocity) -> (r: AngularMomentum)
        ensures
            r == AngularMomentum::spec_product(inertia, angular_velocity),
            r.x == inertia.j1 * angular_velocity.x + inertia.j6 * angular_velocity.y + inertia.j5
                * angular_velocity.z,
            r.y == inertia.j6 * angular_velocity.x + inertia.j2 * angular_velocity.y + inertia.j4
                * angular_velocity.z,
            r.z == inertia.j5 * angular_velocity.x + inertia.j4 * angular_velocity.y + inertia.j3
                * angular_velocity.z,
    {
        let j = inertia;
        let w = angular_velocity;
        AngularMomentum {
            x: j.j1 * w.x + j.j6 * w.y + j.j5 * w.z,
            y: j.j6 * w.x + j.j2 * w.y + j.j4 * w.z,
            z: j.j5 * w.x + j.j4 * w.y + j.j3 * w.z,
        }
    }
}

impl core::ops::Add for AngularMomentum {
    type Output = AngularMomentum;

    fn add(self, rhs: AngularMomentum) -> (r: AngularMomentum) {
        AngularMomentum { x: self.x + rhs.x, y: self.y + rhs.y, z: self.z + rhs.z }
    }
}

impl AddSpecImpl for AngularMomentum {
    open spec fn obeys_add_spec() -> bool {
        true
    }

    open spec fn add_req(self, rhs: AngularMomentum) -> bool {
        true
    }

    open spec fn add_spec(self, rhs: AngularMomentum) -> AngularMomentum {
        self.spec_add(rhs)
    }
}

impl core::ops::Sub for AngularMomentum {
    type Output = AngularMomentum;

    fn sub(self, rhs: AngularMomentum) -> (r: AngularMomentum) {
        AngularMomentum { x: self.x - rhs.x, y: self.y - rhs.y, z: self.z - rhs.z }
    }
}

impl SubSpecImpl for AngularMomentum {
    open spec fn obeys_sub_spec() -> bool {
        true
    }

    open spec fn sub_req(self, rhs: AngularMomentum) -> bool {
        true
    }

    open spec fn sub_spec(self, rhs: AngularMomentum) -> AngularMomentum {
        self.spec_sub(rhs)
    }
}

impl core::ops::Neg for AngularMomentum {
    type Output = AngularMomentum;

    fn neg(self) -> (r: AngularMomentum) {
        AngularMomentum { x: self.x.neg(), y: self.y.neg(), z: self.z.neg() }
    }
}

impl NegSpecImpl for AngularMomentum {
    open spec fn obeys_neg_spec() -> bool {
        true
    }

    open spec fn neg_req(self) -> bool {
        true
    }

    open spec fn neg_spec(self) -> AngularMomentum {
        self.spec_neg()
    }
}

} // verus!
