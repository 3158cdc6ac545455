//! The norm of a product of quaternions is the product of the norms, to
//! within a few raw units.
//!
//! In exact arithmetic the norm is multiplicative. The fixed-point product
//! rounds sixteen products of scalars, each norm is a root rounded down, and
//! the product of the two norms is rounded once more.

use vstd::prelude::*;
use crate::lemmas::exact::{
    lemma_distribute, lemma_norm_multiplicative, lemma_product_within, Lipschitz,
};
use crate::lemmas::rotation::{lemma_coordinate_below, lemma_moved_square, lemma_square_order};
use crate::lemmas::rounding::{lemma_mul_remainder, lemma_product_remainder};
use crate::quaternion::Quaternion;
use crate::scalar::{floor_sqrt, lemma_floor_sqrt_exists, magnitude, ONE_RAW};

verus! {

/// A quaternion that differs by at most `beta` in every part from a
/// quaternion of norm less than `top` has a norm of less than
/// `top + 4 beta`.
proof fn lemma_quaternion_triangle(x: Lipschitz, y: Lipschitz, beta: int, top: int)
    requires
        beta >= 0,
        top > 0,
        x.minus(y).is_within(beta),
        y.norm_squared() < top * top,
    ensures
        x.norm_squared() < (top + 4 * beta) * (top + 4 * beta),
{
    assert(y.w * y.w >= 0 && y.x * y.x >= 0 && y.y * y.y >= 0 && y.z * y.z >= 0)
        by (nonlinear_arith);
    lemma_coordinate_below(y.w, y.x * y.x + y.y * y.y + y.z * y.z, top);
    lemma_coordinate_below(y.x, y.w * y.w + y.y * y.y + y.z * y.z, top);
    lemma_coordinate_below(y.y, y.w * y.w + y.x * y.x + y.z * y.z, top);
    lemma_coordinate_below(y.z, y.w * y.w + y.x * y.x + y.y * y.y, top);
    lemma_moved_square(x.w, y.w, beta, top);
    lemma_moved_square(x.x, y.x, beta, top);
    lemma_moved_square(x.y, y.y, beta, top);
    lemma_moved_square(x.z, y.z, beta, top);
    assert((top + 4 * beta) * (top + 4 * beta) == top * top + 8 * (top * beta) + 16 * (beta
        * beta)) by (nonlinear_arith);
    assert(beta * beta >= 0) by (nonlinear_arith);
}

/// The norm, rounded down, of a quaternion whose parts are at most `bound`,
/// at most `2^70`, in magnitude.
proof fn lemma_bounded_norm(q: Quaternion, bound: int) -> (n: int)
    requires
        q.is_bounded(bound),
        0 <= bound <= 0x40_0000_0000_0000_0000,
    ensures
        q.norm().is_finite(),
        q.norm().raw == n,
        0 <= n <= 2 * bound,
        n * n <= q.raws().norm_squared() < (n + 1) * (n + 1),
{
    let a = q.raws();
    assert(0 <= a.w * a.w <= bound * bound && 0 <= a.x * a.x <= bound * bound && 0 <= a.y * a.y
        <= bound * bound && 0 <= a.z * a.z <= bound * bound) by (nonlinear_arith)
        requires
            a.is_within(bound),
    ;
    let sum = q.raw_norm_squared();
    lemma_floor_sqrt_exists(sum);
    let n = floor_sqrt(sum) as int;
    if n > 2 * bound {
        assert(n * n > 4 * (bound * bound)) by (nonlinear_arith)
            requires
                n >= 2 * bound + 1,
                bound >= 0,
        ;
    }
    n
}

/// The product of two numbers below two squares is below the square of the
/// product of the roots, and the product of two numbers that are at least
/// two squares is at least the square of the product of the roots.
proof fn lemma_products_of_squares(a: int, b: int, low_a: int, low_b: int)
    requires
        0 <= low_a,
        0 <= low_b,
        low_a * low_a <= a < (low_a + 1) * (low_a + 1),
        low_b * low_b <= b < (low_b + 1) * (low_b + 1),
    ensures
        (low_a * low_b) * (low_a * low_b) <= a * b,
        a * b < ((low_a + 1) * (low_b + 1)) * ((low_a + 1) * (low_b + 1)),
        low_a * low_b >= 0,
        (low_a + 1) * (low_b + 1) == low_a * low_b + low_a + low_b + 1,
{
    let (x, y) = (low_a * low_a, low_b * low_b);
    let (u, v) = ((low_a + 1) * (low_a + 1), (low_b + 1) * (low_b + 1));
    assert(x >= 0 && y >= 0 && u > 0 && v > 0 && low_a * low_b >= 0 && (low_a + 1) * (low_b + 1)
        == low_a * low_b + low_a + low_b + 1) by (nonlinear_arith)
        requires
            0 <= low_a,
            0 <= low_b,
            x == low_a * low_a,
            y == low_b * low_b,
            u == (low_a + 1) * (low_a + 1),
            v == (low_b + 1) * (low_b + 1),
    ;
    assert(x * y <= a * b) by (nonlinear_arith)
        requires
            0 <= x <= a,
            0 <= y <= b,
    ;
    assert(a * b < u * v) by (nonlinear_arith)
        requires
            0 <= a < u,
            0 <= b < v,
    ;
    assert(x * y == (low_a * low_b) * (low_a * low_b)) by (nonlinear_arith)
        requires
            x == low_a * low_a,
            y == low_b * low_b,
    ;
    assert(u * v == ((low_a + 1) * (low_b + 1)) * ((low_a + 1) * (low_b + 1)))
        by (nonlinear_arith)
        requires
            u == (low_a + 1) * (low_a + 1),
            v == (low_b + 1) * (low_b + 1),
    ;
}

/// The square of the norm of a multiple.
proof fn lemma_scaled_norm(a: Lipschitz, k: int)
    ensures
        a.scaled(k).norm_squared() == (k * k) * a.norm_squared(),
{
    assert((k * a.w) * (k * a.w) == (k * k) * (a.w * a.w)) by (nonlinear_arith);
    assert((k * a.x) * (k * a.x) == (k * k) * (a.x * a.x)) by (nonlinear_arith);
    assert((k * a.y) * (k * a.y) == (k * k) * (a.y * a.y)) by (nonlinear_arith);
    assert((k * a.z) * (k * a.z) == (k * k) * (a.z * a.z)) by (nonlinear_arith);
    lemma_distribute(a.w * a.w, a.x * a.x, a.y * a.y, a.z * a.z, k * k);
}

/// `lemma_products_of_squares` for one number and the square of `k`.
proof fn lemma_scaled_root(k: int, a: int, low: int)
    requires
        k > 0,
        0 <= low,
        low * low <= a < (low + 1) * (low + 1),
    ensures
        (k * low) * (k * low) <= (k * k) * a,
        (k * k) * a < (k * (low + 1)) * (k * (low + 1)),
        k * low >= 0,
        k * (low + 1) == k * low + k,
{
    assert((k * low) * (k * low) <= (k * k) * a) by (nonlinear_arith)
        requires
            low * low <= a,
    ;
    assert((k * k) * a < (k * (low + 1)) * (k * (low + 1))) by (nonlinear_arith)
        requires
            k > 0,
            a < (low + 1) * (low + 1),
    ;
    assert(k * low >= 0 && k * (low + 1) == k * low + k) by (nonlinear_arith)
        requires
            k > 0,
            low >= 0,
    ;
}

/// The norm of a product of quaternions is the product of their norms: the
/// two differ, in raw units times one, by at most nine times one and the two
/// norms.
///
/// `bp` and `bq` bound the parts of the two quaternions, and their product
/// is at most `2^58`.
pub proof fn lemma_norm_is_multiplicative(p: Quaternion, q: Quaternion, bp: int, bq: int)
    requires
        p.is_bounded(bp),
        q.is_bounded(bq),
        0 <= bp <= 0x40_0000_0000_0000_0000,
        0 <= bq <= 0x40_0000_0000_0000_0000,
        bp * bq <= 0x400_0000_0000_0000 * ONE_RAW,
    ensures
        (p * q).norm().is_finite(),
        (p.norm() * q.norm()).is_finite(),
        ONE_RAW * magnitude((p * q).norm().raw - (p.norm() * q.norm()).raw) <= 9 * ONE_RAW
            + p.norm().raw + q.norm().raw,
{
    let s = ONE_RAW as int;
    let a = p.raws();
    let b = q.raws();
    let e = a.product(b);
    let rho = lemma_product_remainder(p, q, bp, bq);
    let r = (p * q).raws();
    lemma_product_within(a, b, bp, bq);
    assert(r.is_within(0x1000_0000_0000_0002)) by (nonlinear_arith)
        requires
            s == 0x1_0000_0000_0000,
            s * r.w == e.w - rho.w,
            s * r.x == e.x - rho.x,
            s * r.y == e.y - rho.y,
            s * r.z == e.z - rho.z,
            e.is_within(4 * (bp * bq)),
            rho.is_within(2 * s),
            bp * bq <= 0x400_0000_0000_0000 * s,
    ;
    let np = lemma_bounded_norm(p, bp);
    let nq = lemma_bounded_norm(q, bq);
    let nr = lemma_bounded_norm(p * q, 0x1000_0000_0000_0002);
    lemma_norm_multiplicative(a, b);
    lemma_products_of_squares(a.norm_squared(), b.norm_squared(), np, nq);
    let x = r.scaled(s);
    lemma_scaled_norm(r, s);
    lemma_scaled_root(s, r.norm_squared(), nr);
    // the rounded product is not much longer than the exact one
    lemma_quaternion_triangle(x, e, 2 * s, (np + 1) * (nq + 1));
    lemma_square_order(s * nr, (np + 1) * (nq + 1) + 4 * (2 * s));
    // the exact product is not much longer than the rounded one
    lemma_quaternion_triangle(e, x, 2 * s, s * (nr + 1));
    lemma_square_order(np * nq, s * (nr + 1) + 4 * (2 * s));
    // the product of the norms
    assert((2 * bp) * (2 * bq) <= 0x1000_0000_0000_0000 * s) by (nonlinear_arith)
        requires
            bp * bq <= 0x400_0000_0000_0000 * s,
    ;
    let rem = lemma_mul_remainder(p.norm(), q.norm(), 2 * bp, 2 * bq);
    let m = (p.norm() * q.norm()).raw as int;
    assert(s * (nr - m) == s * nr - s * m && s * (m - nr) == s * m - s * nr) by (nonlinear_arith);
}

} // verus!
