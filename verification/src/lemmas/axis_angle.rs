//! The quaternion of a rotation by an angle about an axis has norm one,
//! within `1e-10`, and does not depend on the length of the axis.
//!
//! The scalar part is the cosine of half the angle and the vector part the
//! normalised axis times the sine. The squares of cosine and sine add up to
//! one and the normalised axis has length one, each within its rounding; the
//! three products of the vector part are rounded once more.

use vstd::prelude::*;
use crate::lemmas::exact::{lemma_bounded_product, lemma_distribute, lemma_linear, Lipschitz};
use crate::lemmas::rounding::{lemma_cancel, lemma_round_div_remainder};
use crate::lemmas::unit_norm::lemma_part_at_most_norm;
use crate::lemmas::rounding::{lemma_mul_remainder, lemma_round_div_exact};
use crate::lemmas::unit_norm::lemma_normalize_is_unit;
use crate::quaternion::{Quaternion, NORMALIZABLE_RAW};
use crate::scalar::{floor_sqrt, lemma_floor_sqrt_exists, magnitude, round_div, ONE_RAW, Scalar};
use crate::trig::lemma_sin_cos_on_unit_circle;

verus! {

/// The square of one coordinate of the vector part: the rounded product `g`
/// of the sine `s` and the coordinate `n` of the axis.
///
/// The result is what rounding adds to the square, times the square of one.
proof fn lemma_vector_part_square(s: Scalar, n: Scalar) -> (e: int)
    requires
        s.is_finite(),
        n.is_finite(),
        -ONE_RAW <= s.raw <= ONE_RAW,
        -ONE_RAW <= n.raw <= ONE_RAW,
    ensures
        (s * n).is_finite(),
        -ONE_RAW <= (s * n).raw <= ONE_RAW,
        (ONE_RAW * ONE_RAW) * ((s * n).raw * (s * n).raw) == (s.raw * s.raw) * (n.raw * n.raw) + e,
        -(4 * (ONE_RAW * (ONE_RAW * ONE_RAW))) <= 4 * e <= 4 * (ONE_RAW * (ONE_RAW * ONE_RAW))
            + ONE_RAW * ONE_RAW,
{
    let one = ONE_RAW as int;
    assert(one * one <= 0x1000_0000_0000_0000 * one) by (nonlinear_arith)
        requires
            one == 0x1_0000_0000_0000,
    ;
    let rho = lemma_mul_remainder(s, n, one, one);
    let g = (s * n).raw as int;
    let (a, b) = (s.raw as int, n.raw as int);
    lemma_bounded_product(a, b, one, one);
    assert(-one <= g <= one) by (nonlinear_arith)
        requires
            one > 0,
            one * g == a * b - rho,
            -(one * one) <= a * b <= one * one,
            -one <= 2 * rho <= one,
    ;
    let e = rho * rho - 2 * ((a * b) * rho);
    let p = a * b;
    assert((one * g) * (one * g) == (one * one) * (g * g)) by (nonlinear_arith);
    assert((p - rho) * (p - rho) == p * p - 2 * (p * rho) + rho * rho) by (nonlinear_arith);
    assert(p * p == (a * a) * (b * b)) by (nonlinear_arith)
        requires
            p == a * b,
    ;
    assert((one * one) * (g * g) == (a * a) * (b * b) + e);
    lemma_bounded_product(a * b, 2 * rho, one * one, one);
    assert((a * b) * (2 * rho) == 2 * ((a * b) * rho) && (one * one) * one == one * (one * one))
        by (nonlinear_arith);
    assert(0 <= 4 * (rho * rho) <= one * one) by (nonlinear_arith)
        requires
            -one <= 2 * rho <= one,
    ;
    e
}

/// The product of a number between zero and `m` and a number between
/// `-low` and `high`.
proof fn lemma_slack_product(a: int, b: int, m: int, low: int, high: int)
    requires
        0 <= a <= m,
        low >= 0,
        high >= 0,
        -low <= b <= high,
    ensures
        -(low * m) <= a * b <= high * m,
{
    assert(-(low * m) <= a * b <= high * m) by (nonlinear_arith)
        requires
            0 <= a <= m,
            low >= 0,
            high >= 0,
            -low <= b <= high,
    ;
}

/// The root of a number close to the square of one is close to one.
proof fn lemma_root_within_tolerance(total: nat, m: nat)
    requires
        m * m <= total < (m + 1) * (m + 1),
        ONE_RAW * ONE_RAW - 11 * ONE_RAW - 2 <= total <= ONE_RAW * ONE_RAW + 0x8000_0000_0000_0000
            + 15 * ONE_RAW + 1,
    ensures
        ONE_RAW - 6 <= m <= ONE_RAW + 16391,
{
    let s = ONE_RAW as int;
    if m > s + 16391 {
        assert(m * m > s * s + 0x8000_0000_0000_0000 + 15 * s + 1) by (nonlinear_arith)
            requires
                m >= s + 16392,
                s == 0x1_0000_0000_0000,
        ;
    }
    if m < s - 6 {
        assert((m + 1) * (m + 1) <= s * s - 11 * s - 2) by (nonlinear_arith)
            requires
                0 <= m + 1 <= s - 6,
                s == 0x1_0000_0000_0000,
        ;
    }
}

/// The quaternion of the rotation by a finite angle about an axis that can
/// be normalised has norm one, within `1e-10`.
pub proof fn lemma_from_rotation_is_unit(angle: Scalar, x: Scalar, y: Scalar, z: Scalar)
    requires
        angle.is_finite(),
        Quaternion::from_vector(x, y, z).is_normalizable(),
    ensures
        Quaternion::from_rotation(angle, x, y, z).is_unit(),
{
    let one = ONE_RAW as int;
    let half_angle = angle * Scalar::half();
    assert(half_angle.is_finite()) by {
        assert(angle.raw * Scalar::half().raw == 0x8000_0000_0000 * angle.raw);
    }
    lemma_sin_cos_on_unit_circle(half_angle);
    let c = half_angle.cos();
    let s = half_angle.sin();
    let axis = Quaternion::from_vector(x, y, z);
    lemma_normalize_is_unit(axis);
    let n = axis.normalize();
    assert(n.w.raw == 0) by {
        lemma_round_div_exact(0, axis.norm().raw as int);
        assert(0 * one == 0 && 0 * axis.norm().raw == 0) by (nonlinear_arith);
    }
    let ex = lemma_vector_part_square(s, n.x);
    let ey = lemma_vector_part_square(s, n.y);
    let ez = lemma_vector_part_square(s, n.z);
    let q = Quaternion::from_rotation(angle, x, y, z);
    assert(q == Quaternion::new(c, s * n.x, s * n.y, s * n.z));
    let (gx, gy, gz) = (q.x.raw as int, q.y.raw as int, q.z.raw as int);
    let (nx, ny, nz) = (n.x.raw as int, n.y.raw as int, n.z.raw as int);
    let cc = c.raw * c.raw;
    let ss = s.raw * s.raw;
    let axis_square = n.raw_norm_squared() as int;
    assert(nx * nx >= 0 && ny * ny >= 0 && nz * nz >= 0 && gx * gx >= 0 && gy * gy >= 0 && gz * gz
        >= 0 && cc >= 0 && ss >= 0) by (nonlinear_arith)
        requires
            cc == c.raw * c.raw,
            ss == s.raw * s.raw,
    ;
    assert(axis_square == nx * nx + ny * ny + nz * nz) by {
        assert(0 * 0 == 0) by (nonlinear_arith);
    }
    let total = q.raw_norm_squared();
    let vector_square = gx * gx + gy * gy + gz * gz;
    assert(total == cc + vector_square);
    // one^2 * |vector part|^2 = sin^2 * |axis|^2 + what rounding adds
    lemma_distribute(gx * gx, gy * gy, gz * gz, 0, one * one);
    lemma_distribute(nx * nx, ny * ny, nz * nz, 0, ss);
    assert((one * one) * 0 == 0 && ss * 0 == 0) by (nonlinear_arith);
    let e = ex + ey + ez;
    assert((one * one) * vector_square == ss * axis_square + e);
    let over = axis_square - one * one;
    assert(ss * axis_square == ss * (one * one) + ss * over) by (nonlinear_arith)
        requires
            axis_square == one * one + over,
    ;
    assert(ss <= one * one) by (nonlinear_arith)
        requires
            ss == s.raw * s.raw,
            -one <= s.raw <= one,
    ;
    lemma_slack_product(ss, over, one * one, 4 * one + 1, 0x8000_0000_0000_0000 + 4 * one);
    assert((one * one) * total == (one * one) * cc + (one * one) * vector_square)
        by (nonlinear_arith)
        requires
            total == cc + vector_square,
    ;
    assert((one * one) * cc + ss * (one * one) == (one * one) * (cc + ss)) by (nonlinear_arith);
    let circle = cc + ss;
    let oo = one * one;
    assert(oo * total == oo * circle + ss * over + e);
    assert(oo * (oo - 11 * one - 2) <= oo * total <= oo * (oo + 0x8000_0000_0000_0000 + 15 * one
        + 1)) by (nonlinear_arith)
        requires
            oo * total == oo * circle + ss * over + e,
            oo == one * one,
            one == 0x1_0000_0000_0000,
            oo - 4 * one - 1 <= circle <= oo + 8 * one,
            -((4 * one + 1) * oo) <= ss * over <= (0x8000_0000_0000_0000 + 4 * one) * oo,
            -(3 * (one * oo)) <= e <= 3 * (one * oo) + oo,
    ;
    assert(oo - 11 * one - 2 <= total <= oo + 0x8000_0000_0000_0000 + 15 * one + 1)
        by (nonlinear_arith)
        requires
            oo > 0,
            oo * (oo - 11 * one - 2) <= oo * total <= oo * (oo + 0x8000_0000_0000_0000 + 15 * one
                + 1),
    ;
    lemma_floor_sqrt_exists(total);
    lemma_root_within_tolerance(total, floor_sqrt(total));
}

/// Whether two quaternions with integer parts point the same way: every
/// two-by-two minor of the two vanishes and their dot product is positive.
pub open spec fn same_direction(a: Lipschitz, b: Lipschitz) -> bool {
    &&& a.w * b.x == a.x * b.w
    &&& a.w * b.y == a.y * b.w
    &&& a.w * b.z == a.z * b.w
    &&& a.x * b.y == a.y * b.x
    &&& a.x * b.z == a.z * b.x
    &&& a.y * b.z == a.z * b.y
    &&& a.dot(b) > 0
}

/// The square of a product with the factors regrouped.
proof fn lemma_square_of_product(x: int, y: int)
    ensures
        (x * y) * (x * y) == (x * x) * (y * y),
{
    assert((x * y) * (x * y) == (x * x) * (y * y)) by (nonlinear_arith);
}

/// For two vectors that point the same way, a part of the one times the
/// square of the norm of the other is the same either way round, and the two
/// parts have the same sign.
proof fn lemma_parallel_part(ai: int, bi: int, aj: int, bj: int, ak: int, bk: int, al: int, bl: int)
    requires
        ai * bj == aj * bi,
        ai * bk == ak * bi,
        ai * bl == al * bi,
    ensures
        (ai * ai) * (bi * bi + bj * bj + bk * bk + bl * bl) == (bi * bi) * (ai * ai + aj * aj + ak
            * ak + al * al),
        ai * bi + aj * bj + ak * bk + al * bl > 0 ==> ai * bi >= 0,
{
    lemma_square_of_product(ai, bi);
    lemma_square_of_product(ai, bj);
    lemma_square_of_product(ai, bk);
    lemma_square_of_product(ai, bl);
    lemma_square_of_product(aj, bi);
    lemma_square_of_product(ak, bi);
    lemma_square_of_product(al, bi);
    assert((bi * bi) * (ai * ai) == (ai * ai) * (bi * bi) && (bi * bi) * (aj * aj) == (aj * aj) * (
    bi * bi) && (bi * bi) * (ak * ak) == (ak * ak) * (bi * bi) && (bi * bi) * (al * al) == (al * al)
        * (bi * bi)) by (nonlinear_arith);
    lemma_distribute(bi * bi, bj * bj, bk * bk, bl * bl, ai * ai);
    lemma_distribute(ai * ai, aj * aj, ak * ak, al * al, bi * bi);
    lemma_distribute(ai * bi, aj * bj, ak * bk, al * bl, ai * bi);
    assert((ai * bi) * (aj * bj) == (ai * bj) * (aj * bi) && (ai * bi) * (ak * bk) == (ai * bk) * (
    ak * bi) && (ai * bi) * (al * bl) == (ai * bl) * (al * bi)) by (nonlinear_arith);
    let p = ai * bi;
    let dot = ai * bi + aj * bj + ak * bk + al * bl;
    let (u, v, w) = (ai * bj, ai * bk, ai * bl);
    assert(p * dot == p * p + u * u + v * v + w * w);
    assert(p * p >= 0 && u * u >= 0 && v * v >= 0 && w * w >= 0) by (nonlinear_arith);
    if dot > 0 && p < 0 {
        assert(p * dot < 0) by (nonlinear_arith)
            requires
                p < 0,
                dot > 0,
        ;
    }
}

/// One part of each of two vectors that point the same way, against the
/// norms of the two: the part `a` times the norm `nb` of the other vector
/// and the part `b` times the norm `na` differ by at most the greater part.
proof fn lemma_parallel_norms(a: int, b: int, sa: int, sb: int, na: int, nb: int)
    requires
        0 <= a,
        0 <= b,
        0 <= na,
        0 <= nb,
        na * na <= sa < (na + 1) * (na + 1),
        nb * nb <= sb < (nb + 1) * (nb + 1),
        (a * a) * sb == (b * b) * sa,
    ensures
        a * nb - b * na <= b,
        b * na - a * nb <= a,
{
    if a * nb - b * na > b {
        // (a nb)^2 >= (b (na + 1))^2 > b^2 sa = a^2 sb >= (a nb)^2
        assert(a * nb >= b * (na + 1) + 1) by (nonlinear_arith)
            requires
                a * nb - b * na > b,
        ;
        assert((a * nb) * (a * nb) > (b * (na + 1)) * (b * (na + 1))) by (nonlinear_arith)
            requires
                a * nb >= b * (na + 1) + 1,
                b * (na + 1) >= 0,
        ;
        assert(b * (na + 1) >= 0) by (nonlinear_arith)
            requires
                b >= 0,
                na >= 0,
        ;
        lemma_square_of_product(a, nb);
        lemma_square_of_product(b, na + 1);
        assert((a * a) * (nb * nb) <= (a * a) * sb) by (nonlinear_arith)
            requires
                nb * nb <= sb,
        ;
        assert((b * b) * sa <= (b * b) * ((na + 1) * (na + 1))) by (nonlinear_arith)
            requires
                sa <= (na + 1) * (na + 1),
        ;
        assert(false);
    }
    if b * na - a * nb > a {
        assert(b * na >= a * (nb + 1) + 1) by (nonlinear_arith)
            requires
                b * na - a * nb > a,
        ;
        assert(a * (nb + 1) >= 0) by (nonlinear_arith)
            requires
                a >= 0,
                nb >= 0,
        ;
        assert((b * na) * (b * na) > (a * (nb + 1)) * (a * (nb + 1))) by (nonlinear_arith)
            requires
                b * na >= a * (nb + 1) + 1,
                a * (nb + 1) >= 0,
        ;
        lemma_square_of_product(b, na);
        lemma_square_of_product(a, nb + 1);
        assert((b * b) * (na * na) <= (b * b) * sa) by (nonlinear_arith)
            requires
                na * na <= sa,
        ;
        assert((a * a) * sb <= (a * a) * ((nb + 1) * (nb + 1))) by (nonlinear_arith)
            requires
                sb <= (nb + 1) * (nb + 1),
        ;
        assert(false);
    }
}

/// One part of each of the normalised vectors of two that point the same
/// way: the two differ by at most `2^14` and one raw units.
proof fn lemma_parallel_normalized(
    a: int,
    b: int,
    sa: int,
    sb: int,
    na: int,
    nb: int,
    ka: int,
    kb: int,
)
    requires
        a * b >= 0,
        NORMALIZABLE_RAW <= na,
        NORMALIZABLE_RAW <= nb,
        -na <= a <= na,
        -nb <= b <= nb,
        na * na <= sa < (na + 1) * (na + 1),
        nb * nb <= sb < (nb + 1) * (nb + 1),
        (a * a) * sb == (b * b) * sa,
        ka == round_div(a * ONE_RAW, na),
        kb == round_div(b * ONE_RAW, nb),
    ensures
        magnitude(ka - kb) <= 0x4001,
{
    let s = ONE_RAW as int;
    lemma_round_div_remainder(a * s, na);
    lemma_round_div_remainder(b * s, nb);
    let ra = a * s - na * ka;
    let rb = b * s - nb * kb;
    let (pa, pb) = (magnitude(a), magnitude(b));
    assert(pa * pa == a * a && pb * pb == b * b) by (nonlinear_arith)
        requires
            pa == a || pa == -a,
            pb == b || pb == -b,
    ;
    lemma_parallel_norms(pa, pb, sa, sb, na, nb);
    // the signs of a and b agree, so a nb - b na is, up to the sign, pa nb - pb na
    let e = a * nb - b * na;
    assert(e == pa * nb - pb * na || e == -(pa * nb - pb * na)) by (nonlinear_arith)
        requires
            e == a * nb - b * na,
            a * b >= 0,
            pa == magnitude(a),
            pb == magnitude(b),
    ;
    let mx = if na >= nb { na } else { nb };
    assert(-mx <= e <= mx);
    // na nb (ka - kb) = s e - nb ra + na rb
    lemma_linear(nb, a * s, ra, 0);
    lemma_linear(na, b * s, rb, 0);
    assert(nb * (na * ka) == (na * nb) * ka && na * (nb * kb) == (na * nb) * kb && nb * (a * s)
        == s * (a * nb) && na * (b * s) == s * (b * na)) by (nonlinear_arith);
    lemma_linear(na * nb, ka, kb, 0);
    lemma_linear(s, a * nb, b * na, 0);
    assert((na * nb) * (ka - kb) == s * e - nb * ra + na * rb);
    lemma_bounded_product(nb, 2 * ra, nb, na);
    lemma_bounded_product(na, 2 * rb, na, nb);
    lemma_bounded_product(s, e, s, mx);
    assert(nb * (2 * ra) == 2 * (nb * ra) && na * (2 * rb) == 2 * (na * rb) && nb * na == na * nb)
        by (nonlinear_arith);
    assert(s * mx <= 0x4000 * (na * nb)) by (nonlinear_arith)
        requires
            s == 0x1_0000_0000_0000,
            na >= 0x4_0000_0000,
            nb >= 0x4_0000_0000,
            mx == na || mx == nb,
    ;
    assert(na * nb > 0) by (nonlinear_arith)
        requires
            na >= 0x4_0000_0000,
            nb >= 0x4_0000_0000,
    ;
    assert(0x4001 * (na * nb) == (na * nb) * 0x4001) by (nonlinear_arith);
    lemma_cancel(na * nb, ka - kb, 0x4001);
}

/// Two quaternions that point the same way and can be normalised give the
/// same normalised quaternion, within `2^14` and one raw units, about
/// `6e-11`, in every part: normalising does not depend on the length.
pub proof fn lemma_normalize_ignores_length(a: Quaternion, b: Quaternion)
    requires
        a.is_normalizable(),
        b.is_normalizable(),
        same_direction(a.raws(), b.raws()),
    ensures
        a.normalize().is_within(b.normalize(), 0x4001),
{
    let s = ONE_RAW as int;
    let (x, y) = (a.raws(), b.raws());
    lemma_normalize_is_unit(a);
    lemma_normalize_is_unit(b);
    let sa = a.raw_norm_squared();
    let sb = b.raw_norm_squared();
    assert(x.w * x.w >= 0 && x.x * x.x >= 0 && x.y * x.y >= 0 && x.z * x.z >= 0 && y.w * y.w >= 0
        && y.x * y.x >= 0 && y.y * y.y >= 0 && y.z * y.z >= 0) by (nonlinear_arith);
    lemma_floor_sqrt_exists(sa);
    lemma_floor_sqrt_exists(sb);
    let na = floor_sqrt(sa) as int;
    let nb = floor_sqrt(sb) as int;
    assert(a.norm().raw == na && b.norm().raw == nb);
    lemma_part_at_most_norm(x.w, x.x * x.x + x.y * x.y + x.z * x.z, na);
    lemma_part_at_most_norm(x.x, x.w * x.w + x.y * x.y + x.z * x.z, na);
    lemma_part_at_most_norm(x.y, x.w * x.w + x.x * x.x + x.z * x.z, na);
    lemma_part_at_most_norm(x.z, x.w * x.w + x.x * x.x + x.y * x.y, na);
    lemma_part_at_most_norm(y.w, y.x * y.x + y.y * y.y + y.z * y.z, nb);
    lemma_part_at_most_norm(y.x, y.w * y.w + y.y * y.y + y.z * y.z, nb);
    lemma_part_at_most_norm(y.y, y.w * y.w + y.x * y.x + y.z * y.z, nb);
    lemma_part_at_most_norm(y.z, y.w * y.w + y.x * y.x + y.y * y.y, nb);
    let dot = x.dot(y);
    assert(x.x * y.w == x.w * y.x && x.y * y.w == x.w * y.y && x.z * y.w == x.w * y.z && x.y * y.x
        == x.x * y.y && x.z * y.x == x.x * y.z && x.z * y.y == x.y * y.z);
    // every part
    lemma_parallel_part(x.w, y.w, x.x, y.x, x.y, y.y, x.z, y.z);
    lemma_parallel_normalized(x.w, y.w, sa as int, sb as int, na, nb, a.normalize().w.raw as int,
        b.normalize().w.raw as int);
    lemma_parallel_part(x.x, y.x, x.w, y.w, x.y, y.y, x.z, y.z);
    lemma_parallel_normalized(x.x, y.x, sa as int, sb as int, na, nb, a.normalize().x.raw as int,
        b.normalize().x.raw as int);
    lemma_parallel_part(x.y, y.y, x.w, y.w, x.x, y.x, x.z, y.z);
    lemma_parallel_normalized(x.y, y.y, sa as int, sb as int, na, nb, a.normalize().y.raw as int,
        b.normalize().y.raw as int);
    lemma_parallel_part(x.z, y.z, x.w, y.w, x.x, y.x, x.y, y.y);
    lemma_parallel_normalized(x.z, y.z, sa as int, sb as int, na, nb, a.normalize().z.raw as int,
        b.normalize().z.raw as int);
}

/// The products of the sine with two scalars of magnitude at most one that
/// differ by at most `gap` differ by at most `gap` and one.
proof fn lemma_scaled_gap(s: Scalar, n: Scalar, m: Scalar, gap: int)
    requires
        s.is_finite(),
        n.is_finite(),
        m.is_finite(),
        -ONE_RAW <= s.raw <= ONE_RAW,
        -ONE_RAW <= n.raw <= ONE_RAW,
        -ONE_RAW <= m.raw <= ONE_RAW,
        magnitude(n.raw - m.raw) <= gap,
    ensures
        (s * n).is_finite(),
        (s * m).is_finite(),
        magnitude((s * n).raw - (s * m).raw) <= gap + 1,
{
    let one = ONE_RAW as int;
    assert(one * one <= 0x1000_0000_0000_0000 * one) by (nonlinear_arith)
        requires
            one == 0x1_0000_0000_0000,
    ;
    let r1 = lemma_mul_remainder(s, n, one, one);
    let r2 = lemma_mul_remainder(s, m, one, one);
    let d = (s * n).raw - (s * m).raw;
    lemma_linear(s.raw as int, n.raw as int, m.raw as int, 0);
    lemma_linear(one, (s * n).raw as int, (s * m).raw as int, 0);
    assert(one * d == s.raw * (n.raw - m.raw) - (r1 - r2));
    lemma_bounded_product(s.raw as int, n.raw - m.raw, one, gap);
    assert(-(gap + 1) <= d <= gap + 1) by (nonlinear_arith)
        requires
            one > 0,
            one * d == s.raw * (n.raw - m.raw) - (r1 - r2),
            -(one * gap) <= s.raw * (n.raw - m.raw) <= one * gap,
            -one <= r1 - r2 <= one,
    ;
}

/// The quaternion of a rotation does not depend on the length of the axis:
/// two axes that point the same way and can be normalised give, for the same
/// finite angle, quaternions within `2^14` and two raw units, about `6e-11`,
/// of each other in every part.
pub proof fn lemma_from_rotation_ignores_axis_length(
    angle: Scalar,
    first: (Scalar, Scalar, Scalar),
    second: (Scalar, Scalar, Scalar),
)
    requires
        angle.is_finite(),
        Quaternion::from_vector(first.0, first.1, first.2).is_normalizable(),
        Quaternion::from_vector(second.0, second.1, second.2).is_normalizable(),
        same_direction(
            Quaternion::from_vector(first.0, first.1, first.2).raws(),
            Quaternion::from_vector(second.0, second.1, second.2).raws(),
        ),
    ensures
        Quaternion::from_rotation(angle, first.0, first.1, first.2).is_within(
            Quaternion::from_rotation(angle, second.0, second.1, second.2),
            0x4002,
        ),
{
    let half_angle = angle * Scalar::half();
    assert(half_angle.is_finite()) by {
        assert(angle.raw * Scalar::half().raw == 0x8000_0000_0000 * angle.raw);
    }
    lemma_sin_cos_on_unit_circle(half_angle);
    let s = half_angle.sin();
    let a = Quaternion::from_vector(first.0, first.1, first.2);
    let b = Quaternion::from_vector(second.0, second.1, second.2);
    lemma_normalize_ignores_length(a, b);
    lemma_normalize_is_unit(a);
    lemma_normalize_is_unit(b);
    let n = a.normalize();
    let m = b.normalize();
    lemma_scaled_gap(s, n.x, m.x, 0x4001);
    lemma_scaled_gap(s, n.y, m.y, 0x4001);
    lemma_scaled_gap(s, n.z, m.z, 0x4001);
}

} // verus!
