//! Torque vectors.

use vstd::prelude::*;
use core::ops::Neg;
use vstd::std_specs::ops::AddSpecImpl;
use vstd::std_specs::ops::NegSpecImpl;
use vstd::std_specs::ops::SubSpecImpl;
use crate::lemmas::rotation::{
    lemma_rotation_preserves_length, ROTATABLE_RAW, ROTATION_TOLERANCE_RAW,
};
use crate::quaternion::Quaternion;
use crate::scalar::{magnitude, Scalar};

verus! {

/// Torque vector, given in the body frame.
#[derive(Clone, Copy, Debug, PartialEq, Eq, Structural)]
pub struct Torque {
    /// X coordinate.
    pub x: Scalar,
    /// Y coordinate.
    pub y: Scalar,
    /// Z coordinate.
    pub z: Scalar,
}

impl Torque {
    /// The vector with the given coordinates.
    pub open spec fn spec_new(x: Scalar, y: Scalar, z: Scalar) -> Torque {
        Torque { x, y, z }
    }

    /// The zero vector.
    pub open spec fn spec_zero() -> Torque {
        Torque { x: Scalar::zero(), y: Scalar::zero(), z: Scalar::zero() }
    }

    /// Whether every coordinate is finite.
    pub open spec fn is_finite(self) -> bool {
        self.x.is_finite() && self.y.is_finite() && self.z.is_finite()
    }

    /// The length: the root of the sum of the squares of the coordinates,
    /// rounded down.
    pub open spec fn length(self) -> Scalar {
        Quaternion::from_vector(self.x, self.y, self.z).norm()
    }

    /// The coordinatewise sum.
    pub open spec fn spec_add(self, rhs: Torque) -> Torque {
        Torque { x: self.x + rhs.x, y: self.y + rhs.y, z: self.z + rhs.z }
    }

    /// The coordinatewise difference.
    pub open spec fn spec_sub(self, rhs: Torque) -> Torque {
        Torque { x: self.x - rhs.x, y: self.y - rhs.y, z: self.z - rhs.z }
    }

    /// The coordinatewise negation.
    pub open spec fn spec_neg(self) -> Torque {
        Torque { x: -self.x, y: -self.y, z: -self.z }
    }

    /// The vector with every coordinate multiplied by `s`.
    pub open spec fn spec_scale(&self, s: Scalar) -> Torque {
        Torque { x: s * self.x, y: s * self.y, z: s * self.z }
    }

    /// The vector part of `q * (0, self) * q.inv()`.
    pub open spec fn spec_rotate(&self, q: Quaternion) -> Torque {
        let rotated = q * Quaternion::from_vector(self.x, self.y, self.z) * q.inv();
        Torque { x: rotated.x, y: rotated.y, z: rotated.z }
    }

    /// Construct a new torque vector.
    #[verifier::when_used_as_spec(spec_new)]
    pub fn new(x: Scalar, y: Scalar, z: Scalar) -> (r: Torque)
        ensures
            r == Torque::spec_new(x, y, z),
    {
        Torque { x, y, z }
    }

    /// Construct the zero vector.
    #[verifier::when_used_as_spec(spec_zero)]
    pub fn zero() -> (r: Torque)
        ensures
            r == Torque::spec_zero(),
    {
        Torque { x: Scalar::zero(), y: Scalar::zero(), z: Scalar::zero() }
    }

    /// Rotate this vector by a given unit quaternion.
    #[verifier::when_used_as_spec(spec_rotate)]
    pub fn rotate(&self, q: Quaternion) -> (r: Torque)
        ensures
            r == self.spec_rotate(q),
            q.is_unit() && Quaternion::from_vector(self.x, self.y, self.z).is_bounded(
                ROTATABLE_RAW as int,
            ) ==> r.length().is_finite() && self.length().is_finite() && magnitude(
                r.length().raw - self.length().raw,
            ) <= ROTATION_TOLERANCE_RAW,
    {
        proof {
            if q.is_unit() && Quaternion::from_vector(self.x, self.y, self.z).is_bounded(
                ROTATABLE_RAW as int,
            ) {
                lemma_rotation_preserves_length(q, Quaternion::from_vector(self.x, self.y, self.z));
            }
        }
        let v = Quaternion::from_vector(self.x, self.y, self.z);
        let rotated = q * v * q.inv();
        Torque { x: rotated.x, y: rotated.y, z: rotated.z }
    }

    /// Scale this vector by a given scalar.
    #[verifier::when_used_as_spec(spec_scale)]
    pub fn scale(&self, s: Scalar) -> (r: Torque)
        ensures
            r == self.spec_scale(s),
    {
        Torque { x: s * self.x, y: s * self.y, z: s * self.z }
    }
}

impl core::ops::Add for Torque {
    type Output = Torque;

    fn add(self, rhs: Torque) -> (r: Torque) {
        Torque { x: self.x + rhs.x, y: self.y + rhs.y, z: self.z + rhs.z }
    }
}

impl AddSpecImpl for Torque {
    open spec fn obeys_add_spec() -> bool {
        true
    }

    open spec fn add_req(self, rhs: Torque) -> bool {
        true
    }

    open spec fn add_spec(self, rhs: Torque) -> Torque {
        self.spec_add(rhs)
    }
}

impl core::ops::Sub for Torque {
    type Output = Torque;

    fn sub(self, rhs: Torque) -> (r: Torque) {
        Torque { x: self.x - rhs.x, y: self.y - rhs.y, z: self.z - rhs.z }
    }
}

impl SubSpecImpl for Torque {
    open spec fn obeys_sub_spec() -> bool {
        true
    }

    open spec fn sub_req(self, rhs: Torque) -> bool {
        true
    }

    open spec fn sub_spec(self, rhs: Torque) -> Torque {
        self.spec_sub(rhs)
    }
}

impl core::ops::Neg for Torque {
    type Output = Torque;

    fn neg(self) -> (r: Torque) {
        Torque { x: self.x.neg(), y: self.y.neg(), z: self.z.neg() }
    }
}

impl NegSpecImpl for Torque {
    open spec fn obeys_neg_spec() -> bool {
        true
    }

    open spec fn neg_req(self) -> bool {
        true
    }

    open spec fn neg_spec(self) -> Torque {
        self.spec_neg()
    }
}

} // verus!
