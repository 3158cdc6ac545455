//! Algebraic identities of the value types.
//!
//! Sums are exact, so the additive identities hold to the last bit wherever
//! the sums stay in the finite range. Products are rounded, so the
//! multiplicative identities hold to the last bit only where no product is
//! rounded: with the unit quaternion, and between quaternions whose parts are
//! whole numbers. Between other quaternions the product is associative to
//! within a few raw units.

use vstd::prelude::*;
use crate::angular_momentum::AngularMomentum;
use crate::angular_velocity::AngularVelocity;
use crate::lemmas::exact::{
    lemma_product_associative, lemma_product_linear_left, lemma_product_linear_right,
    lemma_product_within, Lipschitz,
};
use crate::lemmas::rounding::{
    combine, combine_units, lemma_product_remainder, lemma_round_div_exact,
};
use crate::quaternion::Quaternion;
use crate::scalar::{magnitude, ONE_RAW, Scalar};
use crate::torque::Torque;

verus! {

/// Whether two scalars are both finite or both non-finite.
pub open spec fn alike(a: Scalar, b: Scalar) -> bool {
    a.is_finite() == b.is_finite()
}

/// Addition of scalars is associative wherever the two inner sums are both
/// finite or both non-finite.
pub proof fn lemma_scalar_add_associative(a: Scalar, b: Scalar, c: Scalar)
    requires
        alike(a + b, b + c),
    ensures
        (a + b) + c == a + (b + c),
{
}

/// A finite scalar and its negation add up to zero.
pub proof fn lemma_scalar_add_inverse(a: Scalar)
    requires
        a.is_finite(),
    ensures
        a + (-a) == Scalar::zero(),
        (-a) + a == Scalar::zero(),
{
}

/// Multiplying a finite scalar by one, or one by it, gives it back.
pub proof fn lemma_scalar_mul_one(a: Scalar)
    requires
        a.is_finite(),
    ensures
        a * Scalar::one() == a,
        Scalar::one() * a == a,
{
    let n = a.raw as int;
    let d = ONE_RAW as int;
    lemma_round_div_exact(n, d);
    assert(d * n == n * d) by (nonlinear_arith);
}

/// Multiplying a finite scalar by zero, or zero by it, gives zero.
pub proof fn lemma_scalar_mul_zero(a: Scalar)
    requires
        a.is_finite(),
    ensures
        a * Scalar::zero() == Scalar::zero(),
        Scalar::zero() * a == Scalar::zero(),
{
    let n = a.raw as int;
    assert(n * 0 == 0 && 0 * n == 0) by (nonlinear_arith);
}

/// Addition of angular velocity vectors is associative wherever, in every
/// coordinate, the two inner sums are both finite or both non-finite.
pub proof fn lemma_angular_velocity_add_associative(
    a: AngularVelocity,
    b: AngularVelocity,
    c: AngularVelocity,
)
    requires
        alike((a + b).x, (b + c).x),
        alike((a + b).y, (b + c).y),
        alike((a + b).z, (b + c).z),
    ensures
        (a + b) + c == a + (b + c),
{
}

/// A finite angular velocity vector and its negation add up to the zero vector.
pub proof fn lemma_angular_velocity_add_inverse(a: AngularVelocity)
    requires
        a.is_finite(),
    ensures
        a + (-a) == AngularVelocity::new(Scalar::zero(), Scalar::zero(), Scalar::zero()),
{
}

/// Addition of torque vectors is associative wherever, in every
/// coordinate, the two inner sums are both finite or both non-finite.
pub proof fn lemma_torque_add_associative(a: Torque, b: Torque, c: Torque)
    requires
        alike((a + b).x, (b + c).x),
        alike((a + b).y, (b + c).y),
        alike((a + b).z, (b + c).z),
    ensures
        (a + b) + c == a + (b + c),
{
}

/// A finite torque vector and its negation add up to the zero vector.
pub proof fn lemma_torque_add_inverse(a: Torque)
    requires
        a.is_finite(),
    ensures
        a + (-a) == Torque::new(Scalar::zero(), Scalar::zero(), Scalar::zero()),
{
}

/// Addition of angular momentum vectors is associative wherever, in every
/// coordinate, the two inner sums are both finite or both non-finite.
pub proof fn lemma_angular_momentum_add_associative(
    a: AngularMomentum,
    b: AngularMomentum,
    c: AngularMomentum,
)
    requires
        alike((a + b).x, (b + c).x),
        alike((a + b).y, (b + c).y),
        alike((a + b).z, (b + c).z),
    ensures
        (a + b) + c == a + (b + c),
{
}

/// A finite angular momentum vector and its negation add up to the zero vector.
pub proof fn lemma_angular_momentum_add_inverse(a: AngularMomentum)
    requires
        a.is_finite(),
    ensures
        a + (-a) == AngularMomentum::new(Scalar::zero(), Scalar::zero(), Scalar::zero()),
{
}

/// Addition of quaternions is associative wherever, in every part, the two
/// inner sums are both finite or both non-finite.
pub proof fn lemma_quaternion_add_associative(a: Quaternion, b: Quaternion, c: Quaternion)
    requires
        alike((a + b).w, (b + c).w),
        alike((a + b).x, (b + c).x),
        alike((a + b).y, (b + c).y),
        alike((a + b).z, (b + c).z),
    ensures
        (a + b) + c == a + (b + c),
{
}

/// A finite quaternion and its negation add up to the zero quaternion.
pub proof fn lemma_quaternion_add_inverse(a: Quaternion)
    requires
        a.is_finite(),
    ensures
        a + (-a) == Quaternion::new(Scalar::zero(), Scalar::zero(), Scalar::zero(), Scalar::zero()),
{
}

/// The unit quaternion is a left and right identity of the product of finite
/// quaternions.
pub proof fn lemma_quaternion_mul_unit(q: Quaternion)
    requires
        q.is_finite(),
    ensures
        q * Quaternion::unit() == q,
        Quaternion::unit() * q == q,
{
    lemma_scalar_mul_one(q.w);
    lemma_scalar_mul_one(q.x);
    lemma_scalar_mul_one(q.y);
    lemma_scalar_mul_one(q.z);
    lemma_scalar_mul_zero(q.w);
    lemma_scalar_mul_zero(q.x);
    lemma_scalar_mul_zero(q.y);
    lemma_scalar_mul_zero(q.z);
}

/// The product of quaternions is not commutative: `i j = k`, but `j i = -k`.
pub proof fn lemma_quaternion_mul_not_commutative()
    ensures
        ({
            let o = Scalar::zero();
            let l = Scalar::one();
            let i = Quaternion::new(o, l, o, o);
            let j = Quaternion::new(o, o, l, o);
            let k = Quaternion::new(o, o, o, l);
            i * j == k && j * i == -k && i * j != j * i
        }),
        exists|p: Quaternion, q: Quaternion| p.is_finite() && q.is_finite() && p * q != q * p,
{
    let o = Scalar::zero();
    let l = Scalar::one();
    let i = Quaternion::new(o, l, o, o);
    let j = Quaternion::new(o, o, l, o);
    lemma_scalar_mul_one(l);
    lemma_scalar_mul_zero(l);
    lemma_scalar_mul_zero(o);
    assert(i * j != j * i);
}

impl Scalar {
    /// Whether this scalar is finite and stands for a whole number.
    pub open spec fn is_whole(self) -> bool {
        self.is_finite() && self.raw % ONE_RAW == 0
    }

    /// The whole number that a whole scalar stands for.
    pub open spec fn units(self) -> int {
        (self.raw as int) / (ONE_RAW as int)
    }
}

impl Quaternion {
    /// Whether every part is finite and stands for a whole number.
    pub open spec fn is_whole(self) -> bool {
        self.w.is_whole() && self.x.is_whole() && self.y.is_whole() && self.z.is_whole()
    }

    /// The parts of a whole quaternion, as integers.
    pub open spec fn units(self) -> Lipschitz {
        Lipschitz {
            w: self.w.units(),
            x: self.x.units(),
            y: self.y.units(),
            z: self.z.units(),
        }
    }
}

/// The product of two whole scalars is not rounded: where it is finite, it
/// is whole and stands for the product of the two whole numbers.
pub proof fn lemma_whole_scalar_product(a: Scalar, b: Scalar)
    requires
        a.is_whole(),
        b.is_whole(),
    ensures
        (a * b).is_finite() ==> (a * b).is_whole() && (a * b).units() == a.units() * b.units(),
{
    let s = ONE_RAW as int;
    let m = a.units();
    let n = b.units();
    assert(a.raw * b.raw == ((m * n) * s) * s) by (nonlinear_arith)
        requires
            a.raw == m * s,
            b.raw == n * s,
    ;
    lemma_round_div_exact((m * n) * s, s);
    assert(((m * n) * s) % s == 0 && ((m * n) * s) / s == m * n) by (nonlinear_arith)
        requires
            s > 0,
    ;
}

/// A finite sum or difference of whole scalars is whole and stands for the
/// sum or difference of the whole numbers.
proof fn lemma_whole_combine(a: Scalar, b: Scalar, plus: bool)
    requires
        a.is_finite() ==> a.is_whole(),
        b.is_finite() ==> b.is_whole(),
        combine(a, b, plus).is_finite(),
    ensures
        a.is_whole(),
        b.is_whole(),
        combine(a, b, plus).is_whole(),
        combine(a, b, plus).units() == combine_units(a.units(), b.units(), plus),
{
}

/// `lemma_whole_combine` along the four terms of one part of a product.
proof fn lemma_whole_part(t1: Scalar, t2: Scalar, t3: Scalar, t4: Scalar, plus: bool)
    requires
        t1.is_finite() ==> t1.is_whole(),
        t2.is_finite() ==> t2.is_whole(),
        t3.is_finite() ==> t3.is_whole(),
        t4.is_finite() ==> t4.is_whole(),
        combine(combine(combine(t1, t2, plus), t3, plus), t4, false).is_finite(),
    ensures
        combine(combine(combine(t1, t2, plus), t3, plus), t4, false).is_whole(),
        combine(combine(combine(t1, t2, plus), t3, plus), t4, false).units() == combine_units(
            combine_units(combine_units(t1.units(), t2.units(), plus), t3.units(), plus),
            t4.units(),
            false,
        ),
{
    let s1 = combine(t1, t2, plus);
    let s2 = combine(s1, t3, plus);
    assert(s2.is_finite());
    assert(s1.is_finite());
    lemma_whole_combine(t1, t2, plus);
    lemma_whole_combine(s1, t3, plus);
    lemma_whole_combine(s2, t4, false);
}

/// The product of two whole quaternions is not rounded: where it is finite,
/// it is whole and its parts are those of the exact Hamilton product.
pub proof fn lemma_whole_product(p: Quaternion, q: Quaternion)
    requires
        p.is_whole(),
        q.is_whole(),
        (p * q).is_finite(),
    ensures
        (p * q).is_whole(),
        (p * q).units() == p.units().product(q.units()),
{
    let a = p.units();
    let b = q.units();
    let r = p * q;
    assert(r.w.is_whole() && r.w.units() == a.product(b).w) by {
        lemma_whole_scalar_product(p.w, q.w);
        lemma_whole_scalar_product(p.x, q.x);
        lemma_whole_scalar_product(p.y, q.y);
        lemma_whole_scalar_product(p.z, q.z);
        assert(r.w == combine(
            combine(combine(p.w * q.w, p.x * q.x, false), p.y * q.y, false),
            p.z * q.z,
            false,
        ));
        lemma_whole_part(p.w * q.w, p.x * q.x, p.y * q.y, p.z * q.z, false);
    }
    assert(r.x.is_whole() && r.x.units() == a.product(b).x) by {
        lemma_whole_scalar_product(p.w, q.x);
        lemma_whole_scalar_product(q.w, p.x);
        lemma_whole_scalar_product(p.y, q.z);
        lemma_whole_scalar_product(p.z, q.y);
        assert(r.x == combine(
            combine(combine(p.w * q.x, q.w * p.x, true), p.y * q.z, true),
            p.z * q.y,
            false,
        ));
        lemma_whole_part(p.w * q.x, q.w * p.x, p.y * q.z, p.z * q.y, true);
        assert(b.w * a.x == a.x * b.w) by (nonlinear_arith);
    }
    assert(r.y.is_whole() && r.y.units() == a.product(b).y) by {
        lemma_whole_scalar_product(p.w, q.y);
        lemma_whole_scalar_product(q.w, p.y);
        lemma_whole_scalar_product(p.z, q.x);
        lemma_whole_scalar_product(p.x, q.z);
        assert(r.y == combine(
            combine(combine(p.w * q.y, q.w * p.y, true), p.z * q.x, true),
            p.x * q.z,
            false,
        ));
        lemma_whole_part(p.w * q.y, q.w * p.y, p.z * q.x, p.x * q.z, true);
        assert(b.w * a.y == a.y * b.w) by (nonlinear_arith);
    }
    assert(r.z.is_whole() && r.z.units() == a.product(b).z) by {
        lemma_whole_scalar_product(p.w, q.z);
        lemma_whole_scalar_product(q.w, p.z);
        lemma_whole_scalar_product(p.x, q.y);
        lemma_whole_scalar_product(p.y, q.x);
        assert(r.z == combine(
            combine(combine(p.w * q.z, q.w * p.z, true), p.x * q.y, true),
            p.y * q.x,
            false,
        ));
        lemma_whole_part(p.w * q.z, q.w * p.z, p.x * q.y, p.y * q.x, true);
        assert(b.w * a.z == a.z * b.w) by (nonlinear_arith);
    }
}

/// The product of whole quaternions is associative wherever both ways of
/// bracketing give a finite quaternion.
pub proof fn lemma_quaternion_mul_associative(a: Quaternion, b: Quaternion, c: Quaternion)
    requires
        a.is_whole(),
        b.is_whole(),
        c.is_whole(),
        ((a * b) * c).is_finite(),
        (a * (b * c)).is_finite(),
    ensures
        (a * b) * c == a * (b * c),
{
    lemma_whole_product(a, b);
    lemma_whole_product(b, c);
    lemma_whole_product(a * b, c);
    lemma_whole_product(a, b * c);
    lemma_product_associative(a.units(), b.units(), c.units());
}

/// The product `(a * b) * c` of three quaternions with parts of magnitude
/// at most two, against the exact product of the raw values.
///
/// The parts of the product, times the square of one, are those of the
/// exact product but for the result, of at most eighteen times the square of
/// one in every part.
proof fn lemma_left_bracket(a: Quaternion, b: Quaternion, c: Quaternion) -> (err: Lipschitz)
    requires
        a.is_bounded(2 * ONE_RAW),
        b.is_bounded(2 * ONE_RAW),
        c.is_bounded(2 * ONE_RAW),
    ensures
        ((a * b) * c).is_finite(),
        ((a * b) * c).raws().scaled(ONE_RAW as int).scaled(ONE_RAW as int) == a.raws().product(
            b.raws(),
        ).product(c.raws()).minus(err),
        err.is_within(18 * (ONE_RAW * ONE_RAW)),
{
    let s = ONE_RAW as int;
    let m = 2 * s;
    assert(m * m == 4 * (s * s) && s * s == 0x1_0000_0000_0000_0000_0000_0000 && (16 * s + 2) * m
        == 32 * (s * s) + 4 * s) by (nonlinear_arith)
        requires
            s == 0x1_0000_0000_0000,
            m == 2 * s,
    ;
    let ab = a * b;
    let rho1 = lemma_product_remainder(a, b, m, m);
    let exact_ab = a.raws().product(b.raws());
    lemma_product_within(a.raws(), b.raws(), m, m);
    assert(ab.is_bounded(16 * s + 2)) by {
        assert(ab.raws().scaled(s) == exact_ab.minus(rho1));
        assert(s * ab.raws().w == exact_ab.w - rho1.w);
        assert(s * ab.raws().x == exact_ab.x - rho1.x);
        assert(s * ab.raws().y == exact_ab.y - rho1.y);
        assert(s * ab.raws().z == exact_ab.z - rho1.z);
    }
    let rho2 = lemma_product_remainder(ab, c, 16 * s + 2, m);
    lemma_product_linear_left(ab.raws(), ab.raws(), c.raws(), s);
    lemma_product_linear_left(exact_ab, rho1, c.raws(), s);
    lemma_product_within(rho1, c.raws(), m, m);
    let err = rho1.product(c.raws()).plus(rho2.scaled(s));
    assert(rho2.scaled(s).is_within(2 * (s * s))) by (nonlinear_arith)
        requires
            rho2.is_within(2 * s),
            s > 0,
    ;
    let abc = (ab * c).raws();
    assert(abc.scaled(s).scaled(s) == exact_ab.product(c.raws()).minus(err)) by {
        let e = ab.raws().product(c.raws());
        assert(abc.scaled(s) == e.minus(rho2));
        assert(e.scaled(s) == exact_ab.product(c.raws()).minus(rho1.product(c.raws())));
        assert(s * (e.w - rho2.w) == s * e.w - s * rho2.w) by (nonlinear_arith);
        assert(s * (e.x - rho2.x) == s * e.x - s * rho2.x) by (nonlinear_arith);
        assert(s * (e.y - rho2.y) == s * e.y - s * rho2.y) by (nonlinear_arith);
        assert(s * (e.z - rho2.z) == s * e.z - s * rho2.z) by (nonlinear_arith);
    }
    err
}

/// The product `a * (b * c)` of three quaternions with parts of magnitude
/// at most two, against the exact product of the raw values.
proof fn lemma_right_bracket(a: Quaternion, b: Quaternion, c: Quaternion) -> (err: Lipschitz)
    requires
        a.is_bounded(2 * ONE_RAW),
        b.is_bounded(2 * ONE_RAW),
        c.is_bounded(2 * ONE_RAW),
    ensures
        (a * (b * c)).is_finite(),
        (a * (b * c)).raws().scaled(ONE_RAW as int).scaled(ONE_RAW as int) == a.raws().product(
            b.raws().product(c.raws()),
        ).minus(err),
        err.is_within(18 * (ONE_RAW * ONE_RAW)),
{
    let s = ONE_RAW as int;
    let m = 2 * s;
    assert(m * m == 4 * (s * s) && s * s == 0x1_0000_0000_0000_0000_0000_0000 && m * (16 * s + 2)
        == 32 * (s * s) + 4 * s) by (nonlinear_arith)
        requires
            s == 0x1_0000_0000_0000,
            m == 2 * s,
    ;
    let bc = b * c;
    let rho1 = lemma_product_remainder(b, c, m, m);
    let exact_bc = b.raws().product(c.raws());
    lemma_product_within(b.raws(), c.raws(), m, m);
    assert(bc.is_bounded(16 * s + 2)) by {
        assert(bc.raws().scaled(s) == exact_bc.minus(rho1));
        assert(s * bc.raws().w == exact_bc.w - rho1.w);
        assert(s * bc.raws().x == exact_bc.x - rho1.x);
        assert(s * bc.raws().y == exact_bc.y - rho1.y);
        assert(s * bc.raws().z == exact_bc.z - rho1.z);
    }
    let rho2 = lemma_product_remainder(a, bc, m, 16 * s + 2);
    lemma_product_linear_right(a.raws(), bc.raws(), bc.raws(), s);
    lemma_product_linear_right(a.raws(), exact_bc, rho1, s);
    lemma_product_within(a.raws(), rho1, m, m);
    let err = a.raws().product(rho1).plus(rho2.scaled(s));
    assert(rho2.scaled(s).is_within(2 * (s * s))) by (nonlinear_arith)
        requires
            rho2.is_within(2 * s),
            s > 0,
    ;
    let abc = (a * bc).raws();
    assert(abc.scaled(s).scaled(s) == a.raws().product(exact_bc).minus(err)) by {
        let e = a.raws().product(bc.raws());
        assert(abc.scaled(s) == e.minus(rho2));
        assert(e.scaled(s) == a.raws().product(exact_bc).minus(a.raws().product(rho1)));
        assert(s * (e.w - rho2.w) == s * e.w - s * rho2.w) by (nonlinear_arith);
        assert(s * (e.x - rho2.x) == s * e.x - s * rho2.x) by (nonlinear_arith);
        assert(s * (e.y - rho2.y) == s * e.y - s * rho2.y) by (nonlinear_arith);
        assert(s * (e.z - rho2.z) == s * e.z - s * rho2.z) by (nonlinear_arith);
    }
    err
}

/// Two numbers whose multiples by the square of one differ by at most `k`
/// times that square differ by at most `k`.
proof fn lemma_cancel_square(x: int, y: int, e: int, f: int, k: int)
    requires
        ONE_RAW * (ONE_RAW * x) + e == ONE_RAW * (ONE_RAW * y) + f,
        -(k * (ONE_RAW * ONE_RAW)) <= f - e <= k * (ONE_RAW * ONE_RAW),
    ensures
        magnitude(x - y) <= k,
{
    let s = ONE_RAW as int;
    assert(-k <= x - y <= k) by (nonlinear_arith)
        requires
            s > 0,
            s * (s * x) + e == s * (s * y) + f,
            -(k * (s * s)) <= f - e <= k * (s * s),
    ;
}

/// The product of quaternions with parts of magnitude at most two is
/// associative within 36 raw units, about `1.3e-13`, in every part.
pub proof fn lemma_quaternion_mul_nearly_associative(a: Quaternion, b: Quaternion, c: Quaternion)
    requires
        a.is_bounded(2 * ONE_RAW),
        b.is_bounded(2 * ONE_RAW),
        c.is_bounded(2 * ONE_RAW),
    ensures
        ((a * b) * c).is_within(a * (b * c), 36),
{
    let l = lemma_left_bracket(a, b, c);
    let r = lemma_right_bracket(a, b, c);
    lemma_product_associative(a.raws(), b.raws(), c.raws());
    let x = ((a * b) * c).raws();
    let y = (a * (b * c)).raws();
    lemma_cancel_square(x.w, y.w, l.w, r.w, 36);
    lemma_cancel_square(x.x, y.x, l.x, r.x, 36);
    lemma_cancel_square(x.y, y.y, l.y, r.y, 36);
    lemma_cancel_square(x.z, y.z, l.z, r.z, 36);
}

} // verus!
