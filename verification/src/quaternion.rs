//! Quaternion type.

use vstd::prelude::*;
use core::ops::Neg;
use vstd::std_specs::ops::AddSpecImpl;
use vstd::std_specs::ops::MulSpecImpl;
use vstd::std_specs::ops::NegSpecImpl;
use vstd::std_specs::ops::SubSpecImpl;
use crate::angular_velocity::AngularVelocity;
use crate::lemmas::axis_angle::lemma_from_rotation_is_unit;
use crate::lemmas::exact::Lipschitz;
use crate::lemmas::inverse::lemma_unit_times_inverse;
use crate::lemmas::unit_norm::lemma_normalize_is_unit;
use crate::scalar::{
    floor_sqrt, isqrt_wide, magnitude, sum_of_squares, wide_value, MAX_RAW, ONE_RAW, Scalar,
};

verus! {

/// By how many raw units the norm of a unit quaternion may differ from one:
/// `1e-10`, rounded down.
pub const UNIT_TOLERANCE_RAW: i128 = 28147;

/// The least norm, in raw units, from which normalising is known to give a
/// unit quaternion: `2^-14`.
pub const NORMALIZABLE_RAW: i128 = 0x4_0000_0000;

/// Quaternion.
#[derive(Clone, Copy, Debug, PartialEq, Eq, Structural)]
pub struct Quaternion {
    /// Scalar part of the quaternion.
    pub w: Scalar,
    /// Vector part of the quaternion, X coordinate.
    pub x: Scalar,
    /// Vector part of the quaternion, Y coordinate.
    pub y: Scalar,
    /// Vector part of the quaternion, Z coordinate.
    pub z: Scalar,
}

impl Quaternion {
    /// The quaternion with the given parts.
    pub open spec fn spec_new(w: Scalar, x: Scalar, y: Scalar, z: Scalar) -> Quaternion {
        Quaternion { w, x, y, z }
    }

    /// The multiplicative identity, `(1, 0, 0, 0)`.
    pub open spec fn spec_unit() -> Quaternion {
        Quaternion { w: Scalar::one(), x: Scalar::zero(), y: Scalar::zero(), z: Scalar::zero() }
    }

    /// The quaternion with zero scalar part and the given vector part.
    pub open spec fn spec_from_vector(x: Scalar, y: Scalar, z: Scalar) -> Quaternion {
        Quaternion { w: Scalar::zero(), x, y, z }
    }

    /// The rotation by `angle` radians about the axis `(x, y, z)`:
    /// `(cos(angle / 2), sin(angle / 2) * n)`, where `n` is the axis
    /// normalised.
    pub open spec fn spec_from_rotation(
        angle: Scalar,
        x: Scalar,
        y: Scalar,
        z: Scalar,
    ) -> Quaternion {
        let half_angle = angle * Scalar::half();
        let c = half_angle.cos();
        let s = half_angle.sin();
        let a = Quaternion::from_vector(x, y, z).normalize();
        Quaternion { w: c, x: s * a.x, y: s * a.y, z: s * a.z }
    }

    /// Whether every part is finite.
    pub open spec fn is_finite(self) -> bool {
        self.w.is_finite() && self.x.is_finite() && self.y.is_finite() && self.z.is_finite()
    }

    /// The sum of the squares of the four raw parts.
    pub open spec fn raw_norm_squared(self) -> nat {
        (self.w.raw * self.w.raw + self.x.raw * self.x.raw + self.y.raw * self.y.raw + self.z.raw
            * self.z.raw) as nat
    }

    /// The square root of the sum of the squares of the parts, rounded down.
    pub open spec fn spec_norm(&self) -> Scalar {
        if self.is_finite() {
            Scalar::fit(floor_sqrt(self.raw_norm_squared()) as int)
        } else {
            Scalar::non_finite()
        }
    }

    /// The quaternion with every part multiplied by `s`.
    pub open spec fn spec_scale(&self, s: Scalar) -> Quaternion {
        Quaternion { w: s * self.w, x: s * self.x, y: s * self.y, z: s * self.z }
    }

    /// The quaternion with every part divided by the norm.
    pub open spec fn spec_normalize(&self) -> Quaternion {
        let n = self.norm();
        Quaternion { w: self.w / n, x: self.x / n, y: self.y / n, z: self.z / n }
    }

    /// The conjugate: the vector part negated.
    pub open spec fn spec_conj(self) -> Quaternion {
        Quaternion { w: self.w, x: -self.x, y: -self.y, z: -self.z }
    }

    /// The conjugate with every part divided by the square of the norm.
    pub open spec fn spec_inv(&self) -> Quaternion {
        let n = self.norm();
        let d = n * n;
        let c = self.spec_conj();
        Quaternion { w: c.w / d, x: c.x / d, y: c.y / d, z: c.z / d }
    }

    /// The partwise sum.
    pub open spec fn spec_add(self, rhs: Quaternion) -> Quaternion {
        Quaternion {
            w: self.w + rhs.w,
            x: self.x + rhs.x,
            y: self.y + rhs.y,
            z: self.z + rhs.z,
        }
    }

    /// The partwise difference.
    pub open spec fn spec_sub(self, rhs: Quaternion) -> Quaternion {
        Quaternion {
            w: self.w - rhs.w,
            x: self.x - rhs.x,
            y: self.y - rhs.y,
            z: self.z - rhs.z,
        }
    }

    /// The partwise negation.
    pub open spec fn spec_neg(self) -> Quaternion {
        Quaternion { w: -self.w, x: -self.x, y: -self.y, z: -self.z }
    }

    /// The Hamilton product.
    pub open spec fn spec_mul(self, rhs: Quaternion) -> Quaternion {
        Quaternion {
            w: self.w * rhs.w - self.x * rhs.x - self.y * rhs.y - self.z * rhs.z,
            x: self.w * rhs.x + rhs.w * self.x + self.y * rhs.z - self.z * rhs.y,
            y: self.w * rhs.y + rhs.w * self.y + self.z * rhs.x - self.x * rhs.z,
            z: self.w * rhs.z + rhs.w * self.z + self.x * rhs.y - self.y * rhs.x,
        }
    }

    /// Half the product of this quaternion with `(0, w)`: the time derivative
    /// of an attitude that turns with the body-frame angular velocity `w`.
    pub open spec fn spec_diff(&self, angular_velocity: AngularVelocity) -> Quaternion {
        let omega = Quaternion::from_vector(
            angular_velocity.x,
            angular_velocity.y,
            angular_velocity.z,
        );
        (self * omega).scale(Scalar::half())
    }

    /// The vector part.
    pub open spec fn spec_get_vector(&self) -> (Scalar, Scalar, Scalar) {
        (self.x, self.y, self.z)
    }

    /// The scalar part.
    pub open spec fn spec_get_scalar(&self) -> Scalar {
        self.w
    }

    /// Construct a new quaternion.
    #[verifier::when_used_as_spec(spec_new)]
    pub fn new(w: Scalar, x: Scalar, y: Scalar, z: Scalar) -> (r: Quaternion)
        ensures
            r == Quaternion::spec_new(w, x, y, z),
    {
        Quaternion { w, x, y, z }
    }

    /// Construct the unit quaternion.
    #[verifier::when_used_as_spec(spec_unit)]
    pub fn unit() -> (r: Quaternion)
        ensures
            r == Quaternion::spec_unit(),
    {
        Quaternion { w: Scalar::one(), x: Scalar::zero(), y: Scalar::zero(), z: Scalar::zero() }
    }

    /// Construct a new quaternion from a vector.
    ///
    /// The resultant quaternion will have zero scalar part and specified vector part.
    #[verifier::when_used_as_spec(spec_from_vector)]
    pub fn from_vector(x: Scalar, y: Scalar, z: Scalar) -> (r: Quaternion)
        ensures
            r == Quaternion::spec_from_vector(x, y, z),
    {
        Quaternion { w: Scalar::zero(), x, y, z }
    }

    /// Construct a new quaternion from an angle and axis vector.
    ///
    /// Note that the angle should be in radians and the axis should be a unit normal vector.
    /// If the axis does not have unit norm, then the axis will be rescaled automatically.
    /// Every part but the scalar part is non-finite where the axis is zero.
    #[verifier::when_used_as_spec(spec_from_rotation)]
    pub fn from_rotation(angle: Scalar, x: Scalar, y: Scalar, z: Scalar) -> (r: Quaternion)
        ensures
            r == Quaternion::spec_from_rotation(angle, x, y, z),
            angle.is_finite() && Quaternion::from_vector(x, y, z).is_normalizable()
                ==> r.is_unit(),
    {
        proof {
            if angle.is_finite() && Quaternion::from_vector(x, y, z).is_normalizable() {
                lemma_from_rotation_is_unit(angle, x, y, z);
            }
        }
        let half_angle = angle * Scalar::half();
        let c = half_angle.cos();
        let s = half_angle.sin();
        let a = Quaternion::from_vector(x, y, z).normalize();

        Quaternion { w: c, x: s * a.x, y: s * a.y, z: s * a.z }
    }

    /// Compute the norm of this quaternion.
    ///
    /// The sum of squares is formed exactly and its root is rounded once.
    #[verifier::when_used_as_spec(spec_norm)]
    pub fn norm(&self) -> (r: Scalar)
        ensures
            r == self.spec_norm(),
    {
        if !self.w.is_finite() || !self.x.is_finite() || !self.y.is_finite()
            || !self.z.is_finite() {
            return Scalar::non_finite();
        }
        let (high, low) = sum_of_squares(self.w.raw, self.x.raw, self.y.raw, self.z.raw);
        let root: u128 = isqrt_wide(high, low);
        if root > MAX_RAW as u128 {
            Scalar::non_finite()
        } else {
            Scalar::from_raw(root as i128)
        }
    }

    /// Scale this quaternion by a given scalar.
    #[verifier::when_used_as_spec(spec_scale)]
    pub fn scale(&self, s: Scalar) -> (r: Quaternion)
        ensures
            r == self.spec_scale(s),
    {
        Quaternion { w: s * self.w, x: s * self.x, y: s * self.y, z: s * self.z }
    }

    /// Return the unit quaternion in the direction of this quaternion.
    ///
    /// Every part is non-finite where the norm is zero or non-finite.
    #[verifier::when_used_as_spec(spec_normalize)]
    pub fn normalize(&self) -> (r: Quaternion)
        ensures
            r == self.spec_normalize(),
            self.is_normalizable() ==> r.is_unit(),
    {
        proof {
            if self.is_normalizable() {
                lemma_normalize_is_unit(*self);
            }
        }
        let n = self.norm();
        Quaternion { w: self.w / n, x: self.x / n, y: self.y / n, z: self.z / n }
    }

    /// Return the quaternion inverse of this quaternion.
    ///
    /// Every part is non-finite where the norm is zero or non-finite.
    #[verifier::when_used_as_spec(spec_inv)]
    pub fn inv(&self) -> (r: Quaternion)
        ensures
            r == self.spec_inv(),
            self.is_unit() ==> r.is_finite() && (*self * r).is_within(Quaternion::unit(), 13),
    {
        proof {
            if self.is_unit() {
                lemma_unit_times_inverse(*self);
            }
        }
        let n = self.norm();
        let d = n * n;
        Quaternion {
            w: self.w / d,
            x: self.x.neg() / d,
            y: self.y.neg() / d,
            z: self.z.neg() / d,
        }
    }

    /// Given an angular velocity vector _in the body frame_, return
    /// the time derivative of this quaternion.
    #[verifier::when_used_as_spec(spec_diff)]
    pub fn diff(&self, angular_velocity: AngularVelocity) -> (r: Quaternion)
        ensures
            r == self.spec_diff(angular_velocity),
    {
        let omega = Quaternion::from_vector(
            angular_velocity.x,
            angular_velocity.y,
            angular_velocity.z,
        );
        (*self * omega).scale(Scalar::half())
    }

    /// Get the vector part of this quaternion.
    #[verifier::when_used_as_spec(spec_get_vector)]
    pub fn get_vector(&self) -> (r: (Scalar, Scalar, Scalar))
        ensures
            r == self.spec_get_vector(),
    {
        (self.x, self.y, self.z)
    }

    /// Get the scalar part of this quaternion.
    #[verifier::when_used_as_spec(spec_get_scalar)]
    pub fn get_scalar(&self) -> (r: Scalar)
        ensures
            r == self.spec_get_scalar(),
    {
        self.w
    }
}

impl Quaternion {
    /// Whether this quaternion is finite and its norm is one, within `1e-10`.
    pub open spec fn is_unit(self) -> bool {
        &&& self.is_finite()
        &&& self.norm().is_finite()
        &&& ONE_RAW - UNIT_TOLERANCE_RAW <= self.norm().raw <= ONE_RAW + UNIT_TOLERANCE_RAW
    }

    /// Whether this quaternion is finite and its norm is one, within `1e-10`.
    ///
    /// An attitude is a unit quaternion. No function of the library checks
    /// its arguments with this test: it is for the caller to use.
    pub fn validate(&self) -> (r: bool)
        ensures
            r == self.is_unit(),
    {
        let n = self.norm();
        self.w.is_finite() && self.x.is_finite() && self.y.is_finite() && self.z.is_finite()
            && n.is_finite() && ONE_RAW - UNIT_TOLERANCE_RAW <= n.raw && n.raw <= ONE_RAW
            + UNIT_TOLERANCE_RAW
    }

    /// Whether this quaternion is finite and its norm is finite and at least
    /// `2^-14`.
    pub open spec fn is_normalizable(self) -> bool {
        &&& self.is_finite()
        &&& self.norm().is_finite()
        &&& self.norm().raw >= NORMALIZABLE_RAW
    }
}

impl Quaternion {
    /// Whether both quaternions are finite and no part of this one differs
    /// from that of `other` by more than `tolerance` raw units.
    pub open spec fn is_within(self, other: Quaternion, tolerance: int) -> bool {
        &&& self.is_finite()
        &&& other.is_finite()
        &&& magnitude(self.w.raw - other.w.raw) <= tolerance
        &&& magnitude(self.x.raw - other.x.raw) <= tolerance
        &&& magnitude(self.y.raw - other.y.raw) <= tolerance
        &&& magnitude(self.z.raw - other.z.raw) <= tolerance
    }
}

impl Quaternion {
    /// The raw values of the four parts.
    pub open spec fn raws(self) -> Lipschitz {
        Lipschitz {
            w: self.w.raw as int,
            x: self.x.raw as int,
            y: self.y.raw as int,
            z: self.z.raw as int,
        }
    }

    /// Whether every part is finite and at most `bound` raw units in magnitude.
    pub open spec fn is_bounded(self, bound: int) -> bool {
        self.is_finite() && self.raws().is_within(bound)
    }
}

impl core::ops::Add for Quaternion {
    type Output = Quaternion;

    fn add(self, rhs: Quaternion) -> (r: Quaternion) {
        Quaternion {
            w: self.w + rhs.w,
            x: self.x + rhs.x,
            y: self.y + rhs.y,
            z: self.z + rhs.z,
        }
    }
}

impl AddSpecImpl for Quaternion {
    open spec fn obeys_add_spec() -> bool {
        true
    }

    open spec fn add_req(self, rhs: Quaternion) -> bool {
        true
    }

    open spec fn add_spec(self, rhs: Quaternion) -> Quaternion {
        self.spec_add(rhs)
    }
}

impl core::ops::Sub for Quaternion {
    type Output = Quaternion;

    fn sub(self, rhs: Quaternion) -> (r: Quaternion) {
        Quaternion {
            w: self.w - rhs.w,
            x: self.x - rhs.x,
            y: self.y - rhs.y,
            z: self.z - rhs.z,
        }
    }
}

impl SubSpecImpl for Quaternion {
    open spec fn obeys_sub_spec() -> bool {
        true
    }

    open spec fn sub_req(self, rhs: Quaternion) -> bool {
        true
    }

    open spec fn sub_spec(self, rhs: Quaternion) -> Quaternion {
        self.spec_sub(rhs)
    }
}

impl core::ops::Mul for Quaternion {
    type Output = Quaternion;

    fn mul(self, rhs: Quaternion) -> (r: Quaternion) {
        Quaternion {
            w: self.w * rhs.w - self.x * rhs.x - self.y * rhs.y - self.z * rhs.z,
            x: self.w * rhs.x + rhs.w * self.x + self.y * rhs.z - self.z * rhs.y,
            y: self.w * rhs.y + rhs.w * self.y + self.z * rhs.x - self.x * rhs.z,
            z: self.w * rhs.z + rhs.w * self.z + self.x * rhs.y - self.y * rhs.x,
        }
    }
}

impl MulSpecImpl for Quaternion {
    open spec fn obeys_mul_spec() -> bool {
        true
    }

    open spec fn mul_req(self, rhs: Quaternion) -> bool {
        true
    }

    open spec fn mul_spec(self, rhs: Quaternion) -> Quaternion {
        self.spec_mul(rhs)
    }
}

impl core::ops::Neg for Quaternion {
    type Output = Quaternion;

    fn neg(self) -> (r: Quaternion) {
        Quaternion { w: self.w.neg(), x: self.x.neg(), y: self.y.neg(), z: self.z.neg() }
    }
}

impl NegSpecImpl for Quaternion {
    open spec fn obeys_neg_spec() -> bool {
        true
    }

    open spec fn neg_req(self) -> bool {
        true
    }

    open spec fn neg_spec(self) -> Quaternion {
        self.spec_neg()
    }
}

} // verus!
