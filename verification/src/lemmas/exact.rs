//! The algebra over the integers: what the fixed-point operations compute
//! before they round.
//!
//! Quaternions with integer parts and their Hamilton product, symmetric
//! matrices in Voigt notation with their cofactors and determinant, and
//! vectors with their cross and dot products. In this exact arithmetic the
//! identities of the algebra hold without a tolerance.

use vstd::prelude::*;
use crate::scalar::magnitude;

verus! {

/// A quaternion with integer parts.
pub ghost struct Lipschitz {
    pub w: int,
    pub x: int,
    pub y: int,
    pub z: int,
}

impl Lipschitz {
    /// The Hamilton product.
    pub open spec fn product(self, rhs: Lipschitz) -> Lipschitz {
        Lipschitz {
            w: self.w * rhs.w - self.x * rhs.x - self.y * rhs.y - self.z * rhs.z,
            x: self.w * rhs.x + self.x * rhs.w + self.y * rhs.z - self.z * rhs.y,
            y: self.w * rhs.y + self.y * rhs.w + self.z * rhs.x - self.x * rhs.z,
            z: self.w * rhs.z + self.z * rhs.w + self.x * rhs.y - self.y * rhs.x,
        }
    }

    /// Every part multiplied by `k`.
    pub open spec fn scaled(self, k: int) -> Lipschitz {
        Lipschitz { w: k * self.w, x: k * self.x, y: k * self.y, z: k * self.z }
    }

    /// The partwise sum.
    pub open spec fn plus(self, rhs: Lipschitz) -> Lipschitz {
        Lipschitz {
            w: self.w + rhs.w,
            x: self.x + rhs.x,
            y: self.y + rhs.y,
            z: self.z + rhs.z,
        }
    }

    /// The partwise difference.
    pub open spec fn minus(self, rhs: Lipschitz) -> Lipschitz {
        Lipschitz {
            w: self.w - rhs.w,
            x: self.x - rhs.x,
            y: self.y - rhs.y,
            z: self.z - rhs.z,
        }
    }

    /// Whether every part is at most `bound` in magnitude.
    pub open spec fn is_within(self, bound: int) -> bool {
        &&& -bound <= self.w <= bound
        &&& -bound <= self.x <= bound
        &&& -bound <= self.y <= bound
        &&& -bound <= self.z <= bound
    }

    /// The conjugate.
    pub open spec fn conjugate(self) -> Lipschitz {
        Lipschitz { w: self.w, x: -self.x, y: -self.y, z: -self.z }
    }

    /// The square of the norm.
    pub open spec fn norm_squared(self) -> int {
        self.w * self.w + self.x * self.x + self.y * self.y + self.z * self.z
    }

    /// The dot product of the two quaternions as vectors of four parts.
    pub open spec fn dot(self, rhs: Lipschitz) -> int {
        self.w * rhs.w + self.x * rhs.x + self.y * rhs.y + self.z * rhs.z
    }
}

/// Three-fold products can be bracketed either way, also under a sign.
pub(crate) proof fn lemma_triple(a: int, b: int, c: int)
    ensures
        (a * b) * c == a * (b * c),
        (-(a * b)) * c == -(a * (b * c)),
        a * (-(b * c)) == -(a * (b * c)),
{
    assert((a * b) * c == a * (b * c)) by (nonlinear_arith);
    assert((-(a * b)) * c == -((a * b) * c)) by (nonlinear_arith);
    assert(a * (-(b * c)) == -(a * (b * c))) by (nonlinear_arith);
}

/// `lemma_triple` for `a`, `b` and each part of `r`.
proof fn lemma_triples(a: int, b: int, r: Lipschitz)
    ensures
        (a * b) * r.w == a * (b * r.w),
        (-(a * b)) * r.w == -(a * (b * r.w)),
        a * (-(b * r.w)) == -(a * (b * r.w)),
        (a * b) * r.x == a * (b * r.x),
        (-(a * b)) * r.x == -(a * (b * r.x)),
        a * (-(b * r.x)) == -(a * (b * r.x)),
        (a * b) * r.y == a * (b * r.y),
        (-(a * b)) * r.y == -(a * (b * r.y)),
        a * (-(b * r.y)) == -(a * (b * r.y)),
        (a * b) * r.z == a * (b * r.z),
        (-(a * b)) * r.z == -(a * (b * r.z)),
        a * (-(b * r.z)) == -(a * (b * r.z)),
{
    lemma_triple(a, b, r.w);
    lemma_triple(a, b, r.x);
    lemma_triple(a, b, r.y);
    lemma_triple(a, b, r.z);
}

/// A sum of four terms times `s`, and `s` times the sum, term by term.
pub(crate) proof fn lemma_distribute(a: int, b: int, c: int, d: int, s: int)
    ensures
        (a + b + c + d) * s == a * s + b * s + c * s + d * s,
        s * (a + b + c + d) == s * a + s * b + s * c + s * d,
{
    assert((a + b + c + d) * s == a * s + b * s + c * s + d * s) by (nonlinear_arith);
    assert(s * (a + b + c + d) == s * a + s * b + s * c + s * d) by (nonlinear_arith);
}

/// Each part of `t`, written as the sum of `a`, `b`, `c` and `d`, times `s`
/// and `s` times it, term by term.
proof fn lemma_distribute_parts(t: int, a: int, b: int, c: int, d: int, r: Lipschitz)
    requires
        t == a + b + c + d,
    ensures
        t * r.w == a * r.w + b * r.w + c * r.w + d * r.w,
        t * r.x == a * r.x + b * r.x + c * r.x + d * r.x,
        t * r.y == a * r.y + b * r.y + c * r.y + d * r.y,
        t * r.z == a * r.z + b * r.z + c * r.z + d * r.z,
        r.w * t == r.w * a + r.w * b + r.w * c + r.w * d,
        r.x * t == r.x * a + r.x * b + r.x * c + r.x * d,
        r.y * t == r.y * a + r.y * b + r.y * c + r.y * d,
        r.z * t == r.z * a + r.z * b + r.z * c + r.z * d,
{
    lemma_distribute(a, b, c, d, r.w);
    lemma_distribute(a, b, c, d, r.x);
    lemma_distribute(a, b, c, d, r.y);
    lemma_distribute(a, b, c, d, r.z);
}

/// The Hamilton product is associative.
pub proof fn lemma_product_associative(p: Lipschitz, q: Lipschitz, r: Lipschitz)
    ensures
        p.product(q).product(r) == p.product(q.product(r)),
{
    let pq = p.product(q);
    let qr = q.product(r);
    lemma_distribute_parts(pq.w, p.w * q.w, -(p.x * q.x), -(p.y * q.y), -(p.z * q.z), r);
    lemma_distribute_parts(pq.x, p.w * q.x, p.x * q.w, p.y * q.z, -(p.z * q.y), r);
    lemma_distribute_parts(pq.y, p.w * q.y, p.y * q.w, p.z * q.x, -(p.x * q.z), r);
    lemma_distribute_parts(pq.z, p.w * q.z, p.z * q.w, p.x * q.y, -(p.y * q.x), r);
    lemma_distribute_parts(qr.w, q.w * r.w, -(q.x * r.x), -(q.y * r.y), -(q.z * r.z), p);
    lemma_distribute_parts(qr.x, q.w * r.x, q.x * r.w, q.y * r.z, -(q.z * r.y), p);
    lemma_distribute_parts(qr.y, q.w * r.y, q.y * r.w, q.z * r.x, -(q.x * r.z), p);
    lemma_distribute_parts(qr.z, q.w * r.z, q.z * r.w, q.x * r.y, -(q.y * r.x), p);
    lemma_triples(p.w, q.w, r);
    lemma_triples(p.w, q.x, r);
    lemma_triples(p.w, q.y, r);
    lemma_triples(p.w, q.z, r);
    lemma_triples(p.x, q.w, r);
    lemma_triples(p.x, q.x, r);
    lemma_triples(p.x, q.y, r);
    lemma_triples(p.x, q.z, r);
    lemma_triples(p.y, q.w, r);
    lemma_triples(p.y, q.x, r);
    lemma_triples(p.y, q.y, r);
    lemma_triples(p.y, q.z, r);
    lemma_triples(p.z, q.w, r);
    lemma_triples(p.z, q.x, r);
    lemma_triples(p.z, q.y, r);
    lemma_triples(p.z, q.z, r);
}

/// Products with a sum, a difference and a multiple, term by term.
pub(crate) proof fn lemma_linear(a: int, b: int, c: int, k: int)
    ensures
        a * (b + c) == a * b + a * c,
        a * (b - c) == a * b - a * c,
        (b + c) * a == b * a + c * a,
        (b - c) * a == b * a - c * a,
        a * (k * b) == k * (a * b),
        (k * b) * a == k * (b * a),
{
    assert(a * (b + c) == a * b + a * c) by (nonlinear_arith);
    assert(a * (b - c) == a * b - a * c) by (nonlinear_arith);
    assert((b + c) * a == b * a + c * a) by (nonlinear_arith);
    assert((b - c) * a == b * a - c * a) by (nonlinear_arith);
    assert(a * (k * b) == k * (a * b)) by (nonlinear_arith);
    assert((k * b) * a == k * (b * a)) by (nonlinear_arith);
}

/// `lemma_linear` for `a` and each part of `b` and `c`.
proof fn lemma_linear_parts(a: int, b: Lipschitz, c: Lipschitz, k: int)
    ensures
        a * (b.w + c.w) == a * b.w + a * c.w,
        a * (b.w - c.w) == a * b.w - a * c.w,
        (b.w + c.w) * a == b.w * a + c.w * a,
        (b.w - c.w) * a == b.w * a - c.w * a,
        a * (k * b.w) == k * (a * b.w),
        (k * b.w) * a == k * (b.w * a),
        a * (b.x + c.x) == a * b.x + a * c.x,
        a * (b.x - c.x) == a * b.x - a * c.x,
        (b.x + c.x) * a == b.x * a + c.x * a,
        (b.x - c.x) * a == b.x * a - c.x * a,
        a * (k * b.x) == k * (a * b.x),
        (k * b.x) * a == k * (b.x * a),
        a * (b.y + c.y) == a * b.y + a * c.y,
        a * (b.y - c.y) == a * b.y - a * c.y,
        (b.y + c.y) * a == b.y * a + c.y * a,
        (b.y - c.y) * a == b.y * a - c.y * a,
        a * (k * b.y) == k * (a * b.y),
        (k * b.y) * a == k * (b.y * a),
        a * (b.z + c.z) == a * b.z + a * c.z,
        a * (b.z - c.z) == a * b.z - a * c.z,
        (b.z + c.z) * a == b.z * a + c.z * a,
        (b.z - c.z) * a == b.z * a - c.z * a,
        a * (k * b.z) == k * (a * b.z),
        (k * b.z) * a == k * (b.z * a),
{
    lemma_linear(a, b.w, c.w, k);
    lemma_linear(a, b.x, c.x, k);
    lemma_linear(a, b.y, c.y, k);
    lemma_linear(a, b.z, c.z, k);
}

/// A multiple of a difference of four terms, term by term.
proof fn lemma_scale_part(k: int, a: int, b: int, c: int, d: int)
    ensures
        k * (a - b - c - d) == k * a - k * b - k * c - k * d,
        k * (a + b + c - d) == k * a + k * b + k * c - k * d,
{
    assert(k * (a - b - c - d) == k * a - k * b - k * c - k * d) by (nonlinear_arith);
    assert(k * (a + b + c - d) == k * a + k * b + k * c - k * d) by (nonlinear_arith);
}

/// The product is linear in its right factor.
pub proof fn lemma_product_linear_right(p: Lipschitz, a: Lipschitz, b: Lipschitz, k: int)
    ensures
        p.product(a.plus(b)) == p.product(a).plus(p.product(b)),
        p.product(a.minus(b)) == p.product(a).minus(p.product(b)),
        p.product(a.scaled(k)) == p.product(a).scaled(k),
{
    lemma_linear_parts(p.w, a, b, k);
    lemma_linear_parts(p.x, a, b, k);
    lemma_linear_parts(p.y, a, b, k);
    lemma_linear_parts(p.z, a, b, k);
    lemma_scale_part(k, p.w * a.w, p.x * a.x, p.y * a.y, p.z * a.z);
    lemma_scale_part(k, p.w * a.x, p.x * a.w, p.y * a.z, p.z * a.y);
    lemma_scale_part(k, p.w * a.y, p.y * a.w, p.z * a.x, p.x * a.z);
    lemma_scale_part(k, p.w * a.z, p.z * a.w, p.x * a.y, p.y * a.x);
}

/// The product is linear in its left factor.
pub proof fn lemma_product_linear_left(a: Lipschitz, b: Lipschitz, q: Lipschitz, k: int)
    ensures
        a.plus(b).product(q) == a.product(q).plus(b.product(q)),
        a.minus(b).product(q) == a.product(q).minus(b.product(q)),
        a.scaled(k).product(q) == a.product(q).scaled(k),
{
    lemma_linear_parts(q.w, a, b, k);
    lemma_linear_parts(q.x, a, b, k);
    lemma_linear_parts(q.y, a, b, k);
    lemma_linear_parts(q.z, a, b, k);
    lemma_scale_part(k, a.w * q.w, a.x * q.x, a.y * q.y, a.z * q.z);
    lemma_scale_part(k, a.w * q.x, a.x * q.w, a.y * q.z, a.z * q.y);
    lemma_scale_part(k, a.w * q.y, a.y * q.w, a.z * q.x, a.x * q.z);
    lemma_scale_part(k, a.w * q.z, a.z * q.w, a.x * q.y, a.y * q.x);
}

/// The product of two bounded magnitudes is bounded by the product of the bounds.
pub proof fn lemma_bounded_product(a: int, b: int, ma: int, mb: int)
    requires
        -ma <= a <= ma,
        -mb <= b <= mb,
    ensures
        -(ma * mb) <= a * b <= ma * mb,
{
    assert(-(ma * mb) <= a * b <= ma * mb) by (nonlinear_arith)
        requires
            -ma <= a <= ma,
            -mb <= b <= mb,
    ;
}

/// No part of a product exceeds four times the product of the bounds of the
/// parts of its factors.
pub proof fn lemma_product_within(p: Lipschitz, q: Lipschitz, mp: int, mq: int)
    requires
        p.is_within(mp),
        q.is_within(mq),
    ensures
        p.product(q).is_within(4 * (mp * mq)),
{
    lemma_bounded_product(p.w, q.w, mp, mq);
    lemma_bounded_product(p.w, q.x, mp, mq);
    lemma_bounded_product(p.w, q.y, mp, mq);
    lemma_bounded_product(p.w, q.z, mp, mq);
    lemma_bounded_product(p.x, q.w, mp, mq);
    lemma_bounded_product(p.x, q.x, mp, mq);
    lemma_bounded_product(p.x, q.y, mp, mq);
    lemma_bounded_product(p.x, q.z, mp, mq);
    lemma_bounded_product(p.y, q.w, mp, mq);
    lemma_bounded_product(p.y, q.x, mp, mq);
    lemma_bounded_product(p.y, q.y, mp, mq);
    lemma_bounded_product(p.y, q.z, mp, mq);
    lemma_bounded_product(p.z, q.w, mp, mq);
    lemma_bounded_product(p.z, q.x, mp, mq);
    lemma_bounded_product(p.z, q.y, mp, mq);
    lemma_bounded_product(p.z, q.z, mp, mq);
}

/// A quaternion times its conjugate is the square of its norm.
pub proof fn lemma_conjugate_product(q: Lipschitz)
    ensures
        q.product(q.conjugate()) == (Lipschitz { w: q.norm_squared(), x: 0, y: 0, z: 0 }),
        q.conjugate().product(q) == (Lipschitz { w: q.norm_squared(), x: 0, y: 0, z: 0 }),
{
    let a = q.product(q.conjugate());
    let b = q.conjugate().product(q);
    assert(a.w == q.norm_squared() && a.x == 0 && a.y == 0 && a.z == 0 && b.w == q.norm_squared()
        && b.x == 0 && b.y == 0 && b.z == 0) by (nonlinear_arith)
        requires
            a == q.product(q.conjugate()),
            b == q.conjugate().product(q),
    ;
}

/// Products of two products, regrouped, also under signs.
proof fn lemma_interchange(a: int, b: int, c: int, d: int)
    ensures
        (a * b) * (c * d) == (a * c) * (b * d),
        (-(a * b)) * (c * d) == -((a * c) * (b * d)),
        (a * b) * (-(c * d)) == -((a * c) * (b * d)),
        (-(a * b)) * (-(c * d)) == (a * c) * (b * d),
{
    assert((a * b) * (c * d) == (a * c) * (b * d)) by (nonlinear_arith);
    assert((-(a * b)) * (c * d) == -((a * b) * (c * d))) by (nonlinear_arith);
    assert((a * b) * (-(c * d)) == -((a * b) * (c * d))) by (nonlinear_arith);
    assert((-(a * b)) * (-(c * d)) == (a * b) * (c * d)) by (nonlinear_arith);
}

/// `lemma_interchange` for the product `a * b` and each of four products.
proof fn lemma_interchanges(
    a: int,
    b: int,
    c: (int, int),
    d: (int, int),
    e: (int, int),
    f: (int, int),
)
    ensures
        (a * b) * (c.0 * c.1) == (a * c.0) * (b * c.1),
        (-(a * b)) * (c.0 * c.1) == -((a * c.0) * (b * c.1)),
        (a * b) * (-(c.0 * c.1)) == -((a * c.0) * (b * c.1)),
        (-(a * b)) * (-(c.0 * c.1)) == (a * c.0) * (b * c.1),
        (a * b) * (d.0 * d.1) == (a * d.0) * (b * d.1),
        (-(a * b)) * (d.0 * d.1) == -((a * d.0) * (b * d.1)),
        (a * b) * (-(d.0 * d.1)) == -((a * d.0) * (b * d.1)),
        (-(a * b)) * (-(d.0 * d.1)) == (a * d.0) * (b * d.1),
        (a * b) * (e.0 * e.1) == (a * e.0) * (b * e.1),
        (-(a * b)) * (e.0 * e.1) == -((a * e.0) * (b * e.1)),
        (a * b) * (-(e.0 * e.1)) == -((a * e.0) * (b * e.1)),
        (-(a * b)) * (-(e.0 * e.1)) == (a * e.0) * (b * e.1),
        (a * b) * (f.0 * f.1) == (a * f.0) * (b * f.1),
        (-(a * b)) * (f.0 * f.1) == -((a * f.0) * (b * f.1)),
        (a * b) * (-(f.0 * f.1)) == -((a * f.0) * (b * f.1)),
        (-(a * b)) * (-(f.0 * f.1)) == (a * f.0) * (b * f.1),
{
    lemma_interchange(a, b, c.0, c.1);
    lemma_interchange(a, b, d.0, d.1);
    lemma_interchange(a, b, e.0, e.1);
    lemma_interchange(a, b, f.0, f.1);
}

/// The square of a sum of four terms, term by term.
proof fn lemma_square_of_sum(t: int, a: int, b: int, c: int, d: int)
    requires
        t == a + b + c + d,
    ensures
        t * t == (a * a + a * b + a * c + a * d) + (b * a + b * b + b * c + b * d) + (c * a + c
            * b + c * c + c * d) + (d * a + d * b + d * c + d * d),
{
    lemma_distribute(a, b, c, d, t);
    lemma_distribute(a, b, c, d, a);
    lemma_distribute(a, b, c, d, b);
    lemma_distribute(a, b, c, d, c);
    lemma_distribute(a, b, c, d, d);
}

/// The products of the parts of a quaternion, either way round.
proof fn lemma_parts_commute(q: Lipschitz)
    ensures
        q.x * q.w == q.w * q.x,
        q.y * q.w == q.w * q.y,
        q.z * q.w == q.w * q.z,
        q.y * q.x == q.x * q.y,
        q.z * q.x == q.x * q.z,
        q.z * q.y == q.y * q.z,
{
    assert(q.x * q.w == q.w * q.x) by (nonlinear_arith);
    assert(q.y * q.w == q.w * q.y) by (nonlinear_arith);
    assert(q.z * q.w == q.w * q.z) by (nonlinear_arith);
    assert(q.y * q.x == q.x * q.y) by (nonlinear_arith);
    assert(q.z * q.x == q.x * q.z) by (nonlinear_arith);
    assert(q.z * q.y == q.y * q.z) by (nonlinear_arith);
}

/// The norm of a product is the product of the norms.
pub proof fn lemma_norm_multiplicative(p: Lipschitz, q: Lipschitz)
    ensures
        p.product(q).norm_squared() == p.norm_squared() * q.norm_squared(),
{
    let t = p.product(q);
    lemma_parts_commute(p);
    lemma_parts_commute(q);
    lemma_square_of_sum(t.w, p.w * q.w, -(p.x * q.x), -(p.y * q.y), -(p.z * q.z));
    lemma_interchanges(p.w, q.w, (p.w, q.w), (p.x, q.x), (p.y, q.y), (p.z, q.z));
    lemma_interchanges(p.x, q.x, (p.w, q.w), (p.x, q.x), (p.y, q.y), (p.z, q.z));
    lemma_interchanges(p.y, q.y, (p.w, q.w), (p.x, q.x), (p.y, q.y), (p.z, q.z));
    lemma_interchanges(p.z, q.z, (p.w, q.w), (p.x, q.x), (p.y, q.y), (p.z, q.z));
    lemma_square_of_sum(t.x, p.w * q.x, p.x * q.w, p.y * q.z, -(p.z * q.y));
    lemma_interchanges(p.w, q.x, (p.w, q.x), (p.x, q.w), (p.y, q.z), (p.z, q.y));
    lemma_interchanges(p.x, q.w, (p.w, q.x), (p.x, q.w), (p.y, q.z), (p.z, q.y));
    lemma_interchanges(p.y, q.z, (p.w, q.x), (p.x, q.w), (p.y, q.z), (p.z, q.y));
    lemma_interchanges(p.z, q.y, (p.w, q.x), (p.x, q.w), (p.y, q.z), (p.z, q.y));
    lemma_square_of_sum(t.y, p.w * q.y, p.y * q.w, p.z * q.x, -(p.x * q.z));
    lemma_interchanges(p.w, q.y, (p.w, q.y), (p.y, q.w), (p.z, q.x), (p.x, q.z));
    lemma_interchanges(p.y, q.w, (p.w, q.y), (p.y, q.w), (p.z, q.x), (p.x, q.z));
    lemma_interchanges(p.z, q.x, (p.w, q.y), (p.y, q.w), (p.z, q.x), (p.x, q.z));
    lemma_interchanges(p.x, q.z, (p.w, q.y), (p.y, q.w), (p.z, q.x), (p.x, q.z));
    lemma_square_of_sum(t.z, p.w * q.z, p.z * q.w, p.x * q.y, -(p.y * q.x));
    lemma_interchanges(p.w, q.z, (p.w, q.z), (p.z, q.w), (p.x, q.y), (p.y, q.x));
    lemma_interchanges(p.z, q.w, (p.w, q.z), (p.z, q.w), (p.x, q.y), (p.y, q.x));
    lemma_interchanges(p.x, q.y, (p.w, q.z), (p.z, q.w), (p.x, q.y), (p.y, q.x));
    lemma_interchanges(p.y, q.x, (p.w, q.z), (p.z, q.w), (p.x, q.y), (p.y, q.x));
    lemma_distribute(p.w * p.w, p.x * p.x, p.y * p.y, p.z * p.z, q.norm_squared());
    lemma_distribute(q.w * q.w, q.x * q.x, q.y * q.y, q.z * q.z, p.w * p.w);
    lemma_distribute(q.w * q.w, q.x * q.x, q.y * q.y, q.z * q.z, p.x * p.x);
    lemma_distribute(q.w * q.w, q.x * q.x, q.y * q.y, q.z * q.z, p.y * p.y);
    lemma_distribute(q.w * q.w, q.x * q.x, q.y * q.y, q.z * q.z, p.z * p.z);
}

/// The greater of two integers.
pub open spec fn greater(a: int, b: int) -> int {
    if a < b {
        b
    } else {
        a
    }
}

/// A symmetric matrix with integer entries, in Voigt notation.
pub ghost struct Voigt {
    pub j1: int,
    pub j2: int,
    pub j3: int,
    pub j4: int,
    pub j5: int,
    pub j6: int,
}

/// A vector with integer coordinates.
pub ghost struct Triple {
    pub x: int,
    pub y: int,
    pub z: int,
}

impl Triple {
    /// Every coordinate multiplied by `k`.
    pub open spec fn scaled(self, k: int) -> Triple {
        Triple { x: k * self.x, y: k * self.y, z: k * self.z }
    }

    /// The coordinatewise sum.
    pub open spec fn plus(self, rhs: Triple) -> Triple {
        Triple { x: self.x + rhs.x, y: self.y + rhs.y, z: self.z + rhs.z }
    }

    /// The coordinatewise difference.
    pub open spec fn minus(self, rhs: Triple) -> Triple {
        Triple { x: self.x - rhs.x, y: self.y - rhs.y, z: self.z - rhs.z }
    }

    /// The cross product.
    pub open spec fn cross(self, rhs: Triple) -> Triple {
        Triple {
            x: self.y * rhs.z - self.z * rhs.y,
            y: self.z * rhs.x - self.x * rhs.z,
            z: self.x * rhs.y - self.y * rhs.x,
        }
    }

    /// The dot product.
    pub open spec fn dot(self, rhs: Triple) -> int {
        self.x * rhs.x + self.y * rhs.y + self.z * rhs.z
    }

    /// The greatest magnitude of a coordinate.
    pub open spec fn largest(self) -> int {
        greater(greater(magnitude(self.x), magnitude(self.y)), magnitude(self.z))
    }

    /// Whether every coordinate is at most `bound` in magnitude.
    pub open spec fn is_within(self, bound: int) -> bool {
        &&& -bound <= self.x <= bound
        &&& -bound <= self.y <= bound
        &&& -bound <= self.z <= bound
    }
}

impl Voigt {
    /// Every entry multiplied by `k`.
    pub open spec fn scaled(self, k: int) -> Voigt {
        Voigt {
            j1: k * self.j1,
            j2: k * self.j2,
            j3: k * self.j3,
            j4: k * self.j4,
            j5: k * self.j5,
            j6: k * self.j6,
        }
    }

    /// The entrywise difference.
    pub open spec fn minus(self, rhs: Voigt) -> Voigt {
        Voigt {
            j1: self.j1 - rhs.j1,
            j2: self.j2 - rhs.j2,
            j3: self.j3 - rhs.j3,
            j4: self.j4 - rhs.j4,
            j5: self.j5 - rhs.j5,
            j6: self.j6 - rhs.j6,
        }
    }

    /// The greatest magnitude of an entry.
    pub open spec fn largest(self) -> int {
        greater(
            greater(greater(magnitude(self.j1), magnitude(self.j2)), magnitude(self.j3)),
            greater(greater(magnitude(self.j4), magnitude(self.j5)), magnitude(self.j6)),
        )
    }

    /// Whether every entry is at most `bound` in magnitude.
    pub open spec fn is_within(self, bound: int) -> bool {
        &&& -bound <= self.j1 <= bound
        &&& -bound <= self.j2 <= bound
        &&& -bound <= self.j3 <= bound
        &&& -bound <= self.j4 <= bound
        &&& -bound <= self.j5 <= bound
        &&& -bound <= self.j6 <= bound
    }

    /// The product of the matrix and a vector.
    pub open spec fn apply(self, v: Triple) -> Triple {
        Triple {
            x: self.j1 * v.x + self.j6 * v.y + self.j5 * v.z,
            y: self.j6 * v.x + self.j2 * v.y + self.j4 * v.z,
            z: self.j5 * v.x + self.j4 * v.y + self.j3 * v.z,
        }
    }

    /// The determinant.
    pub open spec fn determinant(self) -> int {
        self.j1 * (self.j2 * self.j3 - self.j4 * self.j4) + self.j6 * (self.j4 * self.j5 - self.j3
            * self.j6) + self.j5 * (self.j4 * self.j6 - self.j2 * self.j5)
    }

    /// The matrix of cofactors: the inverse times the determinant.
    pub open spec fn cofactors(self) -> Voigt {
        Voigt {
            j1: self.j2 * self.j3 - self.j4 * self.j4,
            j2: self.j1 * self.j3 - self.j5 * self.j5,
            j3: self.j1 * self.j2 - self.j6 * self.j6,
            j4: self.j5 * self.j6 - self.j1 * self.j4,
            j5: self.j4 * self.j6 - self.j2 * self.j5,
            j6: self.j5 * self.j4 - self.j3 * self.j6,
        }
    }
}

/// One row of a matrix times a sum, a difference and a multiple of vectors.
proof fn lemma_row_linear(a: int, b: int, c: int, u: Triple, v: Triple, k: int)
    ensures
        a * (u.x + v.x) + b * (u.y + v.y) + c * (u.z + v.z) == (a * u.x + b * u.y + c * u.z) + (a
            * v.x + b * v.y + c * v.z),
        a * (u.x - v.x) + b * (u.y - v.y) + c * (u.z - v.z) == (a * u.x + b * u.y + c * u.z) - (a
            * v.x + b * v.y + c * v.z),
        a * (k * u.x) + b * (k * u.y) + c * (k * u.z) == k * (a * u.x + b * u.y + c * u.z),
{
    lemma_linear(a, u.x, v.x, k);
    lemma_linear(b, u.y, v.y, k);
    lemma_linear(c, u.z, v.z, k);
    lemma_distribute(a * u.x, b * u.y, c * u.z, 0, k);
    assert(k * 0 == 0) by (nonlinear_arith);
}

/// The product of a matrix and a vector is linear in the vector.
pub proof fn lemma_apply_linear(j: Voigt, u: Triple, v: Triple, k: int)
    ensures
        j.apply(u.plus(v)) == j.apply(u).plus(j.apply(v)),
        j.apply(u.minus(v)) == j.apply(u).minus(j.apply(v)),
        j.apply(u.scaled(k)) == j.apply(u).scaled(k),
{
    lemma_row_linear(j.j1, j.j6, j.j5, u, v, k);
    lemma_row_linear(j.j6, j.j2, j.j4, u, v, k);
    lemma_row_linear(j.j5, j.j4, j.j3, u, v, k);
}

/// One row of a difference and of a multiple of matrices, times a vector.
proof fn lemma_row_linear_left(a: int, b: int, c: int, p: int, q: int, r: int, v: Triple, k: int)
    ensures
        (a - p) * v.x + (b - q) * v.y + (c - r) * v.z == (a * v.x + b * v.y + c * v.z) - (p * v.x
            + q * v.y + r * v.z),
        (k * a) * v.x + (k * b) * v.y + (k * c) * v.z == k * (a * v.x + b * v.y + c * v.z),
{
    lemma_linear(v.x, a, p, k);
    lemma_linear(v.y, b, q, k);
    lemma_linear(v.z, c, r, k);
    lemma_distribute(a * v.x, b * v.y, c * v.z, 0, k);
    assert(k * 0 == 0) by (nonlinear_arith);
}

/// The product of a matrix and a vector is linear in the matrix.
pub proof fn lemma_apply_linear_left(m: Voigt, n: Voigt, v: Triple, k: int)
    ensures
        m.minus(n).apply(v) == m.apply(v).minus(n.apply(v)),
        m.scaled(k).apply(v) == m.apply(v).scaled(k),
{
    lemma_row_linear_left(m.j1, m.j6, m.j5, n.j1, n.j6, n.j5, v, k);
    lemma_row_linear_left(m.j6, m.j2, m.j4, n.j6, n.j2, n.j4, v, k);
    lemma_row_linear_left(m.j5, m.j4, m.j3, n.j5, n.j4, n.j3, v, k);
}

/// The cross product is linear in its right factor.
pub proof fn lemma_cross_linear(w: Triple, u: Triple, v: Triple, k: int)
    ensures
        w.cross(u.minus(v)) == w.cross(u).minus(w.cross(v)),
        w.cross(u.scaled(k)) == w.cross(u).scaled(k),
{
    lemma_linear(w.x, u.y, v.y, k);
    lemma_linear(w.x, u.z, v.z, k);
    lemma_linear(w.y, u.x, v.x, k);
    lemma_linear(w.y, u.z, v.z, k);
    lemma_linear(w.z, u.x, v.x, k);
    lemma_linear(w.z, u.y, v.y, k);
    lemma_linear(k, w.y * u.z, w.z * u.y, 0);
    lemma_linear(k, w.z * u.x, w.x * u.z, 0);
    lemma_linear(k, w.x * u.y, w.y * u.x, 0);
}

/// No coordinate of the product of a matrix and a vector exceeds three
/// times the product of the bounds of their entries.
pub proof fn lemma_apply_within(j: Voigt, v: Triple, mj: int, mv: int)
    requires
        j.is_within(mj),
        v.is_within(mv),
    ensures
        j.apply(v).is_within(3 * (mj * mv)),
{
    lemma_bounded_product(j.j1, v.x, mj, mv);
    lemma_bounded_product(j.j6, v.y, mj, mv);
    lemma_bounded_product(j.j5, v.z, mj, mv);
    lemma_bounded_product(j.j6, v.x, mj, mv);
    lemma_bounded_product(j.j2, v.y, mj, mv);
    lemma_bounded_product(j.j4, v.z, mj, mv);
    lemma_bounded_product(j.j5, v.x, mj, mv);
    lemma_bounded_product(j.j4, v.y, mj, mv);
    lemma_bounded_product(j.j3, v.z, mj, mv);
}

/// No coordinate of a cross product exceeds twice the product of the bounds
/// of the coordinates of its factors.
pub proof fn lemma_cross_within(w: Triple, h: Triple, mw: int, mh: int)
    requires
        w.is_within(mw),
        h.is_within(mh),
    ensures
        w.cross(h).is_within(2 * (mw * mh)),
{
    lemma_bounded_product(w.y, h.z, mw, mh);
    lemma_bounded_product(w.z, h.y, mw, mh);
    lemma_bounded_product(w.z, h.x, mw, mh);
    lemma_bounded_product(w.x, h.z, mw, mh);
    lemma_bounded_product(w.x, h.y, mw, mh);
    lemma_bounded_product(w.y, h.x, mw, mh);
}

/// A row of a matrix times a column of its cofactors, coordinate by
/// coordinate of a vector.
proof fn lemma_row_applied(a: int, b: int, c: int, p: Triple, q: Triple, r: Triple, v: Triple)
    ensures
        a * (p.x * v.x + p.y * v.y + p.z * v.z) + b * (q.x * v.x + q.y * v.y + q.z * v.z) + c * (r.x
            * v.x + r.y * v.y + r.z * v.z) == (a * p.x + b * q.x + c * r.x) * v.x + (a * p.y + b
            * q.y + c * r.y) * v.y + (a * p.z + b * q.z + c * r.z) * v.z,
{
    lemma_distribute(p.x * v.x, p.y * v.y, p.z * v.z, 0, a);
    lemma_distribute(q.x * v.x, q.y * v.y, q.z * v.z, 0, b);
    lemma_distribute(r.x * v.x, r.y * v.y, r.z * v.z, 0, c);
    lemma_distribute(a * p.x, b * q.x, c * r.x, 0, v.x);
    lemma_distribute(a * p.y, b * q.y, c * r.y, 0, v.y);
    lemma_distribute(a * p.z, b * q.z, c * r.z, 0, v.z);
    lemma_triple(a, p.x, v.x);
    lemma_triple(a, p.y, v.y);
    lemma_triple(a, p.z, v.z);
    lemma_triple(b, q.x, v.x);
    lemma_triple(b, q.y, v.y);
    lemma_triple(b, q.z, v.z);
    lemma_triple(c, r.x, v.x);
    lemma_triple(c, r.y, v.y);
    lemma_triple(c, r.z, v.z);
    assert(a * 0 == 0 && b * 0 == 0 && c * 0 == 0 && 0 * v.x == 0 && 0 * v.y == 0 && 0 * v.z == 0)
        by (nonlinear_arith);
}

/// A row of a symmetric matrix times a column of its cofactors: the
/// determinant on the diagonal, zero off it.
pub proof fn lemma_cofactor_entries(j: Voigt)
    ensures
        j.j1 * j.cofactors().j1 + j.j6 * j.cofactors().j6 + j.j5 * j.cofactors().j5
            == j.determinant(),
        j.j1 * j.cofactors().j6 + j.j6 * j.cofactors().j2 + j.j5 * j.cofactors().j4 == 0,
        j.j1 * j.cofactors().j5 + j.j6 * j.cofactors().j4 + j.j5 * j.cofactors().j3 == 0,
        j.j6 * j.cofactors().j1 + j.j2 * j.cofactors().j6 + j.j4 * j.cofactors().j5 == 0,
        j.j6 * j.cofactors().j6 + j.j2 * j.cofactors().j2 + j.j4 * j.cofactors().j4
            == j.determinant(),
        j.j6 * j.cofactors().j5 + j.j2 * j.cofactors().j4 + j.j4 * j.cofactors().j3 == 0,
        j.j5 * j.cofactors().j1 + j.j4 * j.cofactors().j6 + j.j3 * j.cofactors().j5 == 0,
        j.j5 * j.cofactors().j6 + j.j4 * j.cofactors().j2 + j.j3 * j.cofactors().j4 == 0,
        j.j5 * j.cofactors().j5 + j.j4 * j.cofactors().j4 + j.j3 * j.cofactors().j3
            == j.determinant(),
{
    let c = j.cofactors();
    let d = j.determinant();
    let (a1, a2, a3, a4, a5, a6) = (j.j1, j.j2, j.j3, j.j4, j.j5, j.j6);
    lemma_linear(a1, a2 * a3, a4 * a4, 0);
    lemma_linear(a6, a4 * a5, a3 * a6, 0);
    lemma_linear(a5, a4 * a6, a2 * a5, 0);
    assert(a5 * (a4 * a6) == a6 * (a4 * a5)) by (nonlinear_arith);
    assert(a1 * c.j1 + a6 * c.j6 + a5 * c.j5 == d) by {
        lemma_linear(a1, a2 * a3, a4 * a4, 0);
        lemma_linear(a6, a5 * a4, a3 * a6, 0);
        lemma_linear(a5, a4 * a6, a2 * a5, 0);
        assert(a6 * (a5 * a4) == a6 * (a4 * a5)) by (nonlinear_arith);
        assert(a5 * (a4 * a6) == a6 * (a4 * a5)) by (nonlinear_arith);
    }
    assert(a1 * c.j6 + a6 * c.j2 + a5 * c.j4 == 0) by {
        lemma_linear(a1, a5 * a4, a3 * a6, 0);
        lemma_linear(a6, a1 * a3, a5 * a5, 0);
        lemma_linear(a5, a5 * a6, a1 * a4, 0);
        assert(a6 * (a1 * a3) == a1 * (a3 * a6)) by (nonlinear_arith);
        assert(a5 * (a5 * a6) == a6 * (a5 * a5)) by (nonlinear_arith);
        assert(a5 * (a1 * a4) == a1 * (a5 * a4)) by (nonlinear_arith);
    }
    assert(a1 * c.j5 + a6 * c.j4 + a5 * c.j3 == 0) by {
        lemma_linear(a1, a4 * a6, a2 * a5, 0);
        lemma_linear(a6, a5 * a6, a1 * a4, 0);
        lemma_linear(a5, a1 * a2, a6 * a6, 0);
        assert(a6 * (a1 * a4) == a1 * (a4 * a6)) by (nonlinear_arith);
        assert(a5 * (a1 * a2) == a1 * (a2 * a5)) by (nonlinear_arith);
        assert(a5 * (a6 * a6) == a6 * (a5 * a6)) by (nonlinear_arith);
    }
    assert(a6 * c.j1 + a2 * c.j6 + a4 * c.j5 == 0) by {
        lemma_linear(a6, a2 * a3, a4 * a4, 0);
        lemma_linear(a2, a5 * a4, a3 * a6, 0);
        lemma_linear(a4, a4 * a6, a2 * a5, 0);
        assert(a2 * (a3 * a6) == a6 * (a2 * a3)) by (nonlinear_arith);
        assert(a4 * (a4 * a6) == a6 * (a4 * a4)) by (nonlinear_arith);
        assert(a4 * (a2 * a5) == a2 * (a5 * a4)) by (nonlinear_arith);
    }
    assert(a6 * c.j6 + a2 * c.j2 + a4 * c.j4 == d) by {
        lemma_linear(a6, a5 * a4, a3 * a6, 0);
        lemma_linear(a2, a1 * a3, a5 * a5, 0);
        lemma_linear(a4, a5 * a6, a1 * a4, 0);
        assert(a6 * (a5 * a4) == a6 * (a4 * a5)) by (nonlinear_arith);
        assert(a2 * (a1 * a3) == a1 * (a2 * a3)) by (nonlinear_arith);
        assert(a2 * (a5 * a5) == a5 * (a2 * a5)) by (nonlinear_arith);
        assert(a4 * (a5 * a6) == a6 * (a4 * a5)) by (nonlinear_arith);
        assert(a4 * (a1 * a4) == a1 * (a4 * a4)) by (nonlinear_arith);
    }
    assert(a6 * c.j5 + a2 * c.j4 + a4 * c.j3 == 0) by {
        lemma_linear(a6, a4 * a6, a2 * a5, 0);
        lemma_linear(a2, a5 * a6, a1 * a4, 0);
        lemma_linear(a4, a1 * a2, a6 * a6, 0);
        assert(a2 * (a5 * a6) == a6 * (a2 * a5)) by (nonlinear_arith);
        assert(a4 * (a1 * a2) == a2 * (a1 * a4)) by (nonlinear_arith);
        assert(a4 * (a6 * a6) == a6 * (a4 * a6)) by (nonlinear_arith);
    }
    assert(a5 * c.j1 + a4 * c.j6 + a3 * c.j5 == 0) by {
        lemma_linear(a5, a2 * a3, a4 * a4, 0);
        lemma_linear(a4, a5 * a4, a3 * a6, 0);
        lemma_linear(a3, a4 * a6, a2 * a5, 0);
        assert(a4 * (a5 * a4) == a5 * (a4 * a4)) by (nonlinear_arith);
        assert(a3 * (a4 * a6) == a4 * (a3 * a6)) by (nonlinear_arith);
        assert(a3 * (a2 * a5) == a5 * (a2 * a3)) by (nonlinear_arith);
    }
    assert(a5 * c.j6 + a4 * c.j2 + a3 * c.j4 == 0) by {
        lemma_linear(a5, a5 * a4, a3 * a6, 0);
        lemma_linear(a4, a1 * a3, a5 * a5, 0);
        lemma_linear(a3, a5 * a6, a1 * a4, 0);
        assert(a4 * (a5 * a5) == a5 * (a5 * a4)) by (nonlinear_arith);
        assert(a3 * (a5 * a6) == a5 * (a3 * a6)) by (nonlinear_arith);
        assert(a3 * (a1 * a4) == a4 * (a1 * a3)) by (nonlinear_arith);
    }
    assert(a5 * c.j5 + a4 * c.j4 + a3 * c.j3 == d) by {
        lemma_linear(a5, a4 * a6, a2 * a5, 0);
        lemma_linear(a4, a5 * a6, a1 * a4, 0);
        lemma_linear(a3, a1 * a2, a6 * a6, 0);
        assert(a5 * (a4 * a6) == a6 * (a4 * a5)) by (nonlinear_arith);
        assert(a4 * (a5 * a6) == a6 * (a4 * a5)) by (nonlinear_arith);
        assert(a4 * (a1 * a4) == a1 * (a4 * a4)) by (nonlinear_arith);
        assert(a3 * (a1 * a2) == a1 * (a2 * a3)) by (nonlinear_arith);
        assert(a3 * (a6 * a6) == a6 * (a3 * a6)) by (nonlinear_arith);
    }
}

/// A symmetric matrix times its matrix of cofactors, applied to a vector, is
/// the vector times the determinant.
pub proof fn lemma_cofactors_invert(j: Voigt, v: Triple)
    ensures
        j.apply(j.cofactors().apply(v)) == v.scaled(j.determinant()),
{
    let c = j.cofactors();
    lemma_cofactor_entries(j);
    lemma_row_applied(
        j.j1,
        j.j6,
        j.j5,
        Triple { x: c.j1, y: c.j6, z: c.j5 },
        Triple { x: c.j6, y: c.j2, z: c.j4 },
        Triple { x: c.j5, y: c.j4, z: c.j3 },
        v,
    );
    lemma_row_applied(
        j.j6,
        j.j2,
        j.j4,
        Triple { x: c.j1, y: c.j6, z: c.j5 },
        Triple { x: c.j6, y: c.j2, z: c.j4 },
        Triple { x: c.j5, y: c.j4, z: c.j3 },
        v,
    );
    lemma_row_applied(
        j.j5,
        j.j4,
        j.j3,
        Triple { x: c.j1, y: c.j6, z: c.j5 },
        Triple { x: c.j6, y: c.j2, z: c.j4 },
        Triple { x: c.j5, y: c.j4, z: c.j3 },
        v,
    );
    assert(0 * v.x == 0 && 0 * v.y == 0 && 0 * v.z == 0) by (nonlinear_arith);
}

/// Euler's equations, times the determinant of the inertia: with the
/// angular acceleration `a / det`, where `a` is the matrix of cofactors
/// applied to the torque less the gyroscopic term `w x (J w)`, the inertia
/// times the acceleration and the gyroscopic term add up to the torque.
pub proof fn lemma_euler_equations(j: Voigt, w: Triple, t: Triple)
    ensures
        ({
            let gyroscopic = w.cross(j.apply(w));
            let a = j.cofactors().apply(t.minus(gyroscopic));
            j.apply(a).plus(gyroscopic.scaled(j.determinant())) == t.scaled(j.determinant())
        }),
{
    let gyroscopic = w.cross(j.apply(w));
    let d = j.determinant();
    lemma_cofactors_invert(j, t.minus(gyroscopic));
    assert(d * (t.x - gyroscopic.x) + d * gyroscopic.x == d * t.x) by (nonlinear_arith);
    assert(d * (t.y - gyroscopic.y) + d * gyroscopic.y == d * t.y) by (nonlinear_arith);
    assert(d * (t.z - gyroscopic.z) + d * gyroscopic.z == d * t.z) by (nonlinear_arith);
}

/// The gyroscopic term does no work: it is at right angles to the angular
/// velocity.
pub proof fn lemma_gyroscopic_term_is_orthogonal(w: Triple, h: Triple)
    ensures
        w.dot(w.cross(h)) == 0,
{
    lemma_linear(w.x, w.y * h.z, w.z * h.y, 0);
    lemma_linear(w.y, w.z * h.x, w.x * h.z, 0);
    lemma_linear(w.z, w.x * h.y, w.y * h.x, 0);
    assert(w.x * (w.y * h.z) == w.y * (w.x * h.z)) by (nonlinear_arith);
    assert(w.x * (w.z * h.y) == w.z * (w.x * h.y)) by (nonlinear_arith);
    assert(w.y * (w.z * h.x) == w.z * (w.y * h.x)) by (nonlinear_arith);
}

/// The damper takes energy out of the body and itself together: with the
/// damping torque `c (wd - w)` on the body and its opposite on the damper,
/// the power of the two torques is `-c |wd - w|^2`, which is not positive
/// for a damping coefficient that is not negative.
pub proof fn lemma_damping_dissipates(w: Triple, wd: Triple, c: int)
    ensures
        ({
            let torque = wd.minus(w).scaled(c);
            w.dot(torque) + wd.dot(torque.scaled(-1)) == -(c * wd.minus(w).dot(wd.minus(w)))
        }),
        c >= 0 ==> ({
            let torque = wd.minus(w).scaled(c);
            w.dot(torque) + wd.dot(torque.scaled(-1)) <= 0
        }),
{
    let d = wd.minus(w);
    let torque = d.scaled(c);
    lemma_linear(c * d.x, wd.x, w.x, -1);
    lemma_linear(c * d.y, wd.y, w.y, -1);
    lemma_linear(c * d.z, wd.z, w.z, -1);
    assert(wd.x * (-1 * (c * d.x)) == -(wd.x * (c * d.x)) && wd.y * (-1 * (c * d.y)) == -(wd.y * (c
        * d.y)) && wd.z * (-1 * (c * d.z)) == -(wd.z * (c * d.z))) by (nonlinear_arith);
    assert(w.x * (c * d.x) == (c * d.x) * w.x && w.y * (c * d.y) == (c * d.y) * w.y && w.z * (c
        * d.z) == (c * d.z) * w.z && wd.x * (c * d.x) == (c * d.x) * wd.x && wd.y * (c * d.y) == (c
        * d.y) * wd.y && wd.z * (c * d.z) == (c * d.z) * wd.z) by (nonlinear_arith);
    assert((c * d.x) * d.x == c * (d.x * d.x) && (c * d.y) * d.y == c * (d.y * d.y) && (c * d.z)
        * d.z == c * (d.z * d.z)) by (nonlinear_arith);
    lemma_distribute(d.x * d.x, d.y * d.y, d.z * d.z, 0, c);
    assert(c * 0 == 0) by (nonlinear_arith);
    if c >= 0 {
        assert(c * d.dot(d) >= 0) by (nonlinear_arith)
            requires
                c >= 0,
                d.dot(d) == d.x * d.x + d.y * d.y + d.z * d.z,
        ;
    }
}

/// The product of a quaternion and a vector is at right angles to the
/// quaternion: the derivative of an attitude does not change its norm.
pub proof fn lemma_derivative_is_orthogonal(a: Lipschitz, v: Lipschitz)
    requires
        v.w == 0,
    ensures
        a.dot(a.product(v)) == 0,
{
    let c = a.conjugate();
    let e = a.product(v);
    // a . e is the scalar part of conj(a) e = (conj(a) a) v
    assert(a.dot(e) == c.product(e).w) by {
        assert((-a.x) * e.x == -(a.x * e.x) && (-a.y) * e.y == -(a.y * e.y) && (-a.z) * e.z == -(
        a.z * e.z)) by (nonlinear_arith);
    }
    lemma_product_associative(c, a, v);
    lemma_conjugate_product(a);
    let n = a.norm_squared();
    assert(n * 0 == 0 && 0 * v.x == 0 && 0 * v.y == 0 && 0 * v.z == 0) by (nonlinear_arith);
}

} // verus!
