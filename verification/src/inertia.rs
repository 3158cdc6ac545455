//! Inertia tensor.

use vstd::prelude::*;
use crate::lemmas::exact::Voigt;
use crate::scalar::{Scalar, ONE_RAW};
use crate::wide::{limbs_value, rounded_quotient, spec_rounded_quotient, Signed};

verus! {

/// Inertia tensor.
///
/// The symmetric matrix
/// ```text
/// J = [[ J1 J6 J5 ]
///      [ J6 J2 J4 ]
///      [ J5 J4 J3 ]]
/// ```
/// held by its six degrees of freedom, in Voigt notation.
#[derive(Clone, Copy, Debug, PartialEq, Eq, Structural)]
pub struct Inertia {
    pub j1: Scalar,
    pub j2: Scalar,
    pub j3: Scalar,
    pub j4: Scalar,
    pub j5: Scalar,
    pub j6: Scalar,
}

impl Inertia {
    /// The tensor with the given entries.
    pub open spec fn spec_new(
        j1: Scalar,
        j2: Scalar,
        j3: Scalar,
        j4: Scalar,
        j5: Scalar,
        j6: Scalar,
    ) -> Inertia {
        Inertia { j1, j2, j3, j4, j5, j6 }
    }

    /// Whether every entry is finite.
    pub open spec fn is_finite(self) -> bool {
        &&& self.j1.is_finite()
        &&& self.j2.is_finite()
        &&& self.j3.is_finite()
        &&& self.j4.is_finite()
        &&& self.j5.is_finite()
        &&& self.j6.is_finite()
    }

    /// Whether every entry is finite and the leading principal minors of the
    /// matrix are positive: `J1`, `J1 J2 - J6^2` and the determinant, each
    /// formed exactly from the entries.
    pub open spec fn is_positive_definite(self) -> bool {
        let j = self.raws();
        &&& self.is_finite()
        &&& j.j1 > 0
        &&& j.j1 * j.j2 - j.j6 * j.j6 > 0
        &&& j.determinant() > 0
    }

    /// The inverse of the matrix: each cofactor divided by the determinant,
    /// both formed exactly from the entries, and the quotient rounded once.
    /// Every entry is non-finite where an entry of the matrix is, where the
    /// determinant is zero, and where the quotient is outside the finite
    /// range.
    pub open spec fn spec_inverse(self) -> Inertia {
        let c = self.raws().cofactors();
        let det = self.raws().determinant();
        let unit = ONE_RAW * ONE_RAW;
        let inverse = Inertia {
            j1: spec_rounded_quotient(c.j1 * unit, det),
            j2: spec_rounded_quotient(c.j2 * unit, det),
            j3: spec_rounded_quotient(c.j3 * unit, det),
            j4: spec_rounded_quotient(c.j4 * unit, det),
            j5: spec_rounded_quotient(c.j5 * unit, det),
            j6: spec_rounded_quotient(c.j6 * unit, det),
        };
        if self.is_finite() && inverse.is_finite() {
            inverse
        } else {
            Inertia::spec_new(
                Scalar::non_finite(),
                Scalar::non_finite(),
                Scalar::non_finite(),
                Scalar::non_finite(),
                Scalar::non_finite(),
                Scalar::non_finite(),
            )
        }
    }

    /// The raw values of the six entries.
    pub open spec fn raws(self) -> Voigt {
        Voigt {
            j1: self.j1.raw as int,
            j2: self.j2.raw as int,
            j3: self.j3.raw as int,
            j4: self.j4.raw as int,
            j5: self.j5.raw as int,
            j6: self.j6.raw as int,
        }
    }

    /// Whether every entry is finite and at most `bound` raw units in
    /// magnitude.
    pub open spec fn is_bounded(self, bound: int) -> bool {
        self.is_finite() && self.raws().is_within(bound)
    }

    /// Construct a new inertia tensor.
    #[verifier::when_used_as_spec(spec_new)]
    pub fn new(j1: Scalar, j2: Scalar, j3: Scalar, j4: Scalar, j5: Scalar, j6: Scalar) -> (r:
        Inertia)
        ensures
            r == Inertia::spec_new(j1, j2, j3, j4, j5, j6),
    {
        Inertia { j1, j2, j3, j4, j5, j6 }
    }

    /// Whether every entry is finite and the leading principal minors of the
    /// matrix are positive, as those of a positive definite matrix are.
    ///
    /// The inertia of a body is positive definite. No function of the
    /// library checks its arguments with this test: it is for the caller to
    /// use.
    pub fn validate(&self) -> (r: bool)
        ensures
            r == self.is_positive_definite(),
    {
        if !self.all_finite() {
            return false;
        }
        let second = Signed::minor(self.j1.raw, self.j2.raw, self.j6.raw, self.j6.raw);
        let (_, det) = self.cofactors();
        self.j1.raw > 0 && second.is_positive() && det.is_positive()
    }

    /// Whether every entry is finite.
    fn all_finite(&self) -> (r: bool)
        ensures
            r == self.is_finite(),
    {
        self.j1.is_finite() && self.j2.is_finite() && self.j3.is_finite() && self.j4.is_finite()
            && self.j5.is_finite() && self.j6.is_finite()
    }

    /// The cofactors and the determinant of the matrix, exactly.
    fn cofactors(&self) -> (r: ([Signed; 6], Signed))
        requires
            self.is_finite(),
        ensures
            r.0[0].value() == self.raws().cofactors().j1,
            r.0[1].value() == self.raws().cofactors().j2,
            r.0[2].value() == self.raws().cofactors().j3,
            r.0[3].value() == self.raws().cofactors().j4,
            r.0[4].value() == self.raws().cofactors().j5,
            r.0[5].value() == self.raws().cofactors().j6,
            forall|i: int| 0 <= i < 6 ==> (#[trigger] r.0[i]).magnitude.value() <= 0x2000_0000_0000_0000_0000_0000_0000_0000_0000_0000int,
            r.1.value() == self.raws().determinant(),
            r.1.magnitude.value() <= 0x2000_0000_0000_0000_0000_0000_0000_0000_0000_0000_0000_0000_0000_0000_0000int,
    {
        let c1 = Signed::minor(self.j2.raw, self.j3.raw, self.j4.raw, self.j4.raw);
        let c2 = Signed::minor(self.j1.raw, self.j3.raw, self.j5.raw, self.j5.raw);
        let c3 = Signed::minor(self.j1.raw, self.j2.raw, self.j6.raw, self.j6.raw);
        let c4 = Signed::minor(self.j5.raw, self.j6.raw, self.j1.raw, self.j4.raw);
        let c5 = Signed::minor(self.j4.raw, self.j6.raw, self.j2.raw, self.j5.raw);
        let c6 = Signed::minor(self.j5.raw, self.j4.raw, self.j3.raw, self.j6.raw);
        proof {
            assert(limbs_value(0, 0, 0, 0, 0x1_0000_0000_0000_0000) > 0x8000_0000_0000_0000_0000_0000_0000_0000_0000_0000_0000_0000_0000_0000_0000_0000int) by (nonlinear_arith);
        }
        let d1 = c1.times(self.j1.raw);
        let d6 = c6.times(self.j6.raw);
        let d5 = c5.times(self.j5.raw);
        let det = d1.plus(d6).plus(d5);
        proof {
            let j = self.raws();
            assert(j.determinant() == (j.j2 * j.j3 - j.j4 * j.j4) * j.j1 + (j.j5 * j.j4 - j.j3
                * j.j6) * j.j6 + (j.j4 * j.j6 - j.j2 * j.j5) * j.j5) by (nonlinear_arith)
                requires
                    j.determinant() == j.j1 * (j.j2 * j.j3 - j.j4 * j.j4) + j.j6 * (j.j4 * j.j5
                        - j.j3 * j.j6) + j.j5 * (j.j4 * j.j6 - j.j2 * j.j5),
            ;
        }
        ([c1, c2, c3, c4, c5, c6], det)
    }

    /// The inverse of the matrix; every entry is non-finite where an entry
    /// of the matrix is, where the determinant is zero, and where an entry
    /// of the inverse is outside the finite range.
    pub(crate) fn inverse(&self) -> (r: Inertia)
        ensures
            r == self.spec_inverse(),
    {
        let none = Inertia {
            j1: Scalar::non_finite(),
            j2: Scalar::non_finite(),
            j3: Scalar::non_finite(),
            j4: Scalar::non_finite(),
            j5: Scalar::non_finite(),
            j6: Scalar::non_finite(),
        };
        if !self.all_finite() {
            return none;
        }
        let (c, det) = self.cofactors();
        let inverse = Inertia {
            j1: rounded_quotient(c[0].times_one_squared(), det),
            j2: rounded_quotient(c[1].times_one_squared(), det),
            j3: rounded_quotient(c[2].times_one_squared(), det),
            j4: rounded_quotient(c[3].times_one_squared(), det),
            j5: rounded_quotient(c[4].times_one_squared(), det),
            j6: rounded_quotient(c[5].times_one_squared(), det),
        };
        if inverse.all_finite() {
            inverse
        } else {
            none
        }
    }
}

} // verus!
