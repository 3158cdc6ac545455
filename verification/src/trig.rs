//! Sine and cosine of a fixed-point angle.
//!
//! The angle is brought to within an eighth of a turn of zero by subtracting
//! the nearest multiple of a quarter turn, held to 80 fractional bits. Sine
//! and cosine of the remainder are the Taylor polynomials of degree 19 and
//! 18, evaluated from the innermost term outwards with 62 fractional bits,
//! and the quadrant tells which of them, under which sign, is which. The
//! pair is then normalised, so that the squares of sine and cosine add up to
//! one to within a few raw units whatever the polynomials give.

use vstd::prelude::*;
use crate::lemmas::rounding::lemma_round_div_exact;
use crate::lemmas::unit_norm::lemma_normalize_bounds;
use crate::quaternion::Quaternion;
use crate::scalar::{
    floor_sqrt, is_floor_sqrt, lemma_floor_sqrt_exists, lemma_floor_sqrt_is, magnitude, round_div,
    MAX_RAW, ONE_RAW, Scalar,
};

verus! {

/// The number one with 62 fractional bits.
pub const WIDE_ONE: u128 = 0x4000_0000_0000_0000;

/// A quarter turn, `pi / 2`, with 80 fractional bits.
pub const QUARTER_TURN: u128 = 0x1_921f_b544_42d1_8469_898d;

/// The factor `1 - y2 / d_k * (1 - y2 / d_(k+1) * (...))` of a Taylor
/// polynomial, from the term `k` to the term 9, with 62 fractional bits.
///
/// `y2` is the square of the argument; `d_k` is `(2k)(2k + 1)` for the sine
/// and `(2k - 1)(2k)` for the cosine.
pub open spec fn series_tail(y2: int, k: int, odd: bool) -> int
    decreases 10 - k,
{
    if k < 1 || k > 9 {
        WIDE_ONE as int
    } else {
        let d = if odd {
            (2 * k) * (2 * k + 1)
        } else {
            (2 * k - 1) * (2 * k)
        };
        WIDE_ONE - (y2 * series_tail(y2, k + 1, odd) / (WIDE_ONE as int)) / d
    }
}

/// Sine and cosine, with 62 fractional bits, of the angle `t / 2^48`, as the
/// polynomials give them.
pub open spec fn wide_sin_cos(t: int) -> (int, int) {
    let u = (if t < 0 { -t } else { t }) * 0x1_0000_0000;
    let n = (u + QUARTER_TURN / 2) / (QUARTER_TURN as int);
    let y = u - n * QUARTER_TURN;
    let ya = (if y < 0 { -y } else { y }) / 0x4_0000;
    let y2 = ya * ya / (WIDE_ONE as int);
    let s_abs = ya * series_tail(y2, 1, true) / (WIDE_ONE as int);
    let s = if y < 0 { -s_abs } else { s_abs };
    let c = series_tail(y2, 1, false);
    let q = n % 4;
    let (sx, cx) = if q == 0 {
        (s, c)
    } else if q == 1 {
        (c, -s)
    } else if q == 2 {
        (-s, -c)
    } else {
        (-c, s)
    };
    (if t < 0 { -sx } else { sx }, cx)
}

/// The factor of a Taylor polynomial lies between one less the square of the
/// argument and one.
pub(crate) proof fn lemma_series_bounds(y2: int, k: int, odd: bool)
    requires
        0 <= y2 <= WIDE_ONE,
    ensures
        WIDE_ONE - y2 <= series_tail(y2, k, odd) <= WIDE_ONE,
        1 <= k <= 9 && !odd ==> 2 * series_tail(y2, k, odd) >= 2 * WIDE_ONE - y2,
    decreases 10 - k,
{
    if 1 <= k <= 9 {
        lemma_series_bounds(y2, k + 1, odd);
        let one = WIDE_ONE as int;
        let t = series_tail(y2, k + 1, odd);
        let d = if odd {
            (2 * k) * (2 * k + 1)
        } else {
            (2 * k - 1) * (2 * k)
        };
        assert(d >= 2) by (nonlinear_arith)
            requires
                1 <= k <= 9,
                d == (2 * k) * (2 * k + 1) || d == (2 * k - 1) * (2 * k),
        ;
        assert(0 <= y2 * t <= y2 * one) by (nonlinear_arith)
            requires
                0 <= y2,
                0 <= t <= one,
        ;
        let scaled = y2 * t / one;
        assert(0 <= scaled <= y2) by (nonlinear_arith)
            requires
                scaled == y2 * t / one,
                0 <= y2 * t <= y2 * one,
                one > 0,
        ;
        assert(0 <= 2 * (scaled / d) <= scaled) by (nonlinear_arith)
            requires
                d >= 2,
                scaled >= 0,
        ;
    }
}

/// The polynomials give a sine and a cosine of magnitude at most one, one of
/// them of magnitude at least one half.
proof fn lemma_wide_sin_cos_bounds(t: int)
    requires
        -MAX_RAW <= t <= MAX_RAW,
    ensures
        -(WIDE_ONE as int) <= wide_sin_cos(t).0 <= WIDE_ONE,
        -(WIDE_ONE as int) <= wide_sin_cos(t).1 <= WIDE_ONE,
        magnitude(wide_sin_cos(t).0) >= WIDE_ONE / 2 || magnitude(wide_sin_cos(t).1) >= WIDE_ONE
            / 2,
{
    let one = WIDE_ONE as int;
    let u = (if t < 0 { -t } else { t }) * 0x1_0000_0000;
    let n = (u + QUARTER_TURN / 2) / (QUARTER_TURN as int);
    let y = u - n * QUARTER_TURN;
    let ya = (if y < 0 { -y } else { y }) / 0x4_0000;
    assert(0 <= ya <= 0x3243_f6a8_885a_308d);
    assert(ya * ya <= 0x3243_f6a8_885a_308d * 0x3243_f6a8_885a_308d) by (nonlinear_arith)
        requires
            0 <= ya <= 0x3243_f6a8_885a_308d,
    ;
    let y2 = ya * ya / one;
    assert(0 <= y2 <= 0x277a_7993_7c8b_bcb4) by (nonlinear_arith)
        requires
            y2 == ya * ya / one,
            one == 0x4000_0000_0000_0000,
            0 <= ya * ya <= 0x3243_f6a8_885a_308d * 0x3243_f6a8_885a_308d,
    ;
    lemma_series_bounds(y2, 1, true);
    lemma_series_bounds(y2, 1, false);
    let tail = series_tail(y2, 1, true);
    assert(0 <= ya * tail <= ya * one) by (nonlinear_arith)
        requires
            0 <= ya,
            0 <= tail <= one,
    ;
    let s_abs = ya * tail / one;
    assert(0 <= s_abs <= ya) by (nonlinear_arith)
        requires
            s_abs == ya * tail / one,
            0 <= ya * tail <= ya * one,
            one > 0,
    ;
}

/// Evaluate the nested factor of a Taylor polynomial at the square `y2`.
fn series(y2: u128, odd: bool) -> (r: u128)
    requires
        y2 <= WIDE_ONE,
    ensures
        r == series_tail(y2 as int, 1, odd),
        r <= WIDE_ONE,
{
    let mut acc: u128 = WIDE_ONE;
    let mut k: u128 = 9;
    while k >= 1
        invariant
            k <= 9,
            y2 <= WIDE_ONE,
            acc <= WIDE_ONE,
            acc == series_tail(y2 as int, k + 1, odd),
        decreases k,
    {
        assert(6 <= (2 * k) * (2 * k + 1) <= 342 && 2 <= (2 * k - 1) * (2 * k) <= 306)
            by (nonlinear_arith)
            requires
                1 <= k <= 9,
        ;
        let d: u128 = if odd { (2 * k) * (2 * k + 1) } else { (2 * k - 1) * (2 * k) };
        assert(y2 * acc <= y2 * WIDE_ONE) by (nonlinear_arith)
            requires
                acc <= WIDE_ONE,
        ;
        let scaled: u128 = y2 * acc / WIDE_ONE;
        assert(scaled / d <= scaled) by (nonlinear_arith)
            requires
                d >= 1,
        ;
        acc = WIDE_ONE - scaled / d;
        k = k - 1;
    }
    acc
}

/// Sine and cosine, with 62 fractional bits, of the angle `t / 2^48`, as the
/// polynomials give them.
fn sin_cos_wide(t: i128) -> (r: (i128, i128))
    requires
        -MAX_RAW <= t <= MAX_RAW,
    ensures
        r.0 == wide_sin_cos(t as int).0,
        r.1 == wide_sin_cos(t as int).1,
        -(WIDE_ONE as int) <= r.0 <= WIDE_ONE,
        -(WIDE_ONE as int) <= r.1 <= WIDE_ONE,
{
    let t_abs: u128 = if t < 0 { (-t) as u128 } else { t as u128 };
    let u: u128 = t_abs * 0x1_0000_0000;
    let n: u128 = (u + QUARTER_TURN / 2) / QUARTER_TURN;
    let below: bool = u < n * QUARTER_TURN;
    let y_abs: u128 = if below { n * QUARTER_TURN - u } else { u - n * QUARTER_TURN };
    let ya: u128 = y_abs / 0x4_0000;
    assert(ya * ya <= WIDE_ONE * WIDE_ONE) by (nonlinear_arith)
        requires
            ya <= WIDE_ONE,
    ;
    let y2: u128 = ya * ya / WIDE_ONE;
    let tail: u128 = series(y2, true);
    assert(ya * tail <= ya * WIDE_ONE) by (nonlinear_arith)
        requires
            tail <= WIDE_ONE,
    ;
    let s_abs: i128 = (ya * tail / WIDE_ONE) as i128;
    let s: i128 = if below { -s_abs } else { s_abs };
    let c: i128 = series(y2, false) as i128;
    let q: u128 = n % 4;
    let (sx, cx): (i128, i128) = if q == 0 {
        (s, c)
    } else if q == 1 {
        (c, -s)
    } else if q == 2 {
        (-s, -c)
    } else {
        (-c, s)
    };
    (if t < 0 { -sx } else { sx }, cx)
}

/// The scalar nearest to a value with 62 fractional bits.
pub open spec fn spec_narrow(v: int) -> Scalar {
    Scalar { raw: round_div(v, 0x4000) as i128 }
}

/// Bring a value with 62 fractional bits to the scale of a [`Scalar`].
fn narrow(v: i128) -> (r: Scalar)
    requires
        -(WIDE_ONE as int) <= v <= WIDE_ONE,
    ensures
        r == spec_narrow(v as int),
        -ONE_RAW <= r.raw <= ONE_RAW,
{
    let v_abs: i128 = if v < 0 { -v } else { v };
    let q: i128 = (2 * v_abs + 0x4000) / 0x8000;
    Scalar::from_raw(if v < 0 { -q } else { q })
}

/// The quaternion `(c, s, 0, 0)` of the cosine and sine that the polynomials
/// give for the angle `t / 2^48`.
pub open spec fn polynomial_point(t: int) -> Quaternion {
    Quaternion::new(
        spec_narrow(wide_sin_cos(t).1),
        spec_narrow(wide_sin_cos(t).0),
        Scalar::zero(),
        Scalar::zero(),
    )
}

/// The cosine and sine that the polynomials give make a quaternion whose
/// norm is at least one half and at most two.
proof fn lemma_polynomial_point(t: int)
    requires
        -MAX_RAW <= t <= MAX_RAW,
    ensures
        polynomial_point(t).is_bounded(ONE_RAW as int),
        polynomial_point(t).norm().is_finite(),
        0x8000_0000_0000 <= polynomial_point(t).norm().raw <= 0x2_0000_0000_0000,
{
    lemma_wide_sin_cos_bounds(t);
    let p = polynomial_point(t);
    let (c, s) = (p.w.raw as int, p.x.raw as int);
    let half: int = 0x8000_0000_0000;
    let one: int = 0x1_0000_0000_0000;
    assert(magnitude(c) >= half || magnitude(s) >= half);
    assert(0 <= c * c <= one * one && 0 <= s * s <= one * one && (c * c >= half * half || s * s
        >= half * half)) by (nonlinear_arith)
        requires
            -one <= c <= one,
            -one <= s <= one,
            magnitude(c) >= half || magnitude(s) >= half,
            half >= 0,
    ;
    let sum = p.raw_norm_squared();
    assert(sum == c * c + s * s);
    lemma_floor_sqrt_exists(sum);
    let n = floor_sqrt(sum) as int;
    if n < half {
        assert((n + 1) * (n + 1) <= half * half) by (nonlinear_arith)
            requires
                0 <= n + 1 <= half,
        ;
    }
    if n > 2 * one {
        assert(n * n > 2 * (one * one)) by (nonlinear_arith)
            requires
                n >= 2 * one + 1,
                one > 0,
        ;
    }
}

impl Scalar {
    /// The sine and the cosine of this angle, in radians: the pair that the
    /// polynomials give, normalised.
    pub open spec fn spec_sin_cos(self) -> (Scalar, Scalar) {
        if self.is_finite() {
            let p = polynomial_point(self.raw as int).normalize();
            (p.x, p.w)
        } else {
            (Scalar::non_finite(), Scalar::non_finite())
        }
    }

    /// The sine of this angle, in radians.
    pub open spec fn spec_sin(self) -> Scalar {
        self.spec_sin_cos().0
    }

    /// The cosine of this angle, in radians.
    pub open spec fn spec_cos(self) -> Scalar {
        self.spec_sin_cos().1
    }

    /// The sine and the cosine of this angle, in radians.
    ///
    /// For every finite angle both are finite and at most one in magnitude,
    /// and their squares add up to one to within `3e-14`.
    #[verifier::when_used_as_spec(spec_sin_cos)]
    pub fn sin_cos(self) -> (r: (Scalar, Scalar))
        ensures
            r == self.spec_sin_cos(),
            self.is_finite() ==> is_on_unit_circle(r.0, r.1),
    {
        if !self.is_finite() {
            return (Scalar::non_finite(), Scalar::non_finite());
        }
        let (s, c) = sin_cos_wide(self.raw);
        let p = Quaternion::new(narrow(c), narrow(s), Scalar::zero(), Scalar::zero()).normalize();
        proof {
            lemma_sin_cos_on_unit_circle(self);
        }
        (p.x, p.w)
    }

    /// The sine of this angle, in radians; between minus one and one for
    /// every finite angle.
    #[verifier::when_used_as_spec(spec_sin)]
    pub fn sin(self) -> (r: Scalar)
        ensures
            r == self.spec_sin(),
            self.is_finite() ==> r.is_finite() && -ONE_RAW <= r.raw <= ONE_RAW,
    {
        self.sin_cos().0
    }

    /// The cosine of this angle, in radians; between minus one and one for
    /// every finite angle.
    #[verifier::when_used_as_spec(spec_cos)]
    pub fn cos(self) -> (r: Scalar)
        ensures
            r == self.spec_cos(),
            self.is_finite() ==> r.is_finite() && -ONE_RAW <= r.raw <= ONE_RAW,
    {
        self.sin_cos().1
    }
}

/// Whether `s` and `c` are finite, at most one in magnitude, and the sum of
/// their squares is the square of one to within eight raw units times one.
pub open spec fn is_on_unit_circle(s: Scalar, c: Scalar) -> bool {
    &&& s.is_finite()
    &&& c.is_finite()
    &&& -ONE_RAW <= s.raw <= ONE_RAW
    &&& -ONE_RAW <= c.raw <= ONE_RAW
    &&& ONE_RAW * ONE_RAW - 4 * ONE_RAW - 1 <= s.raw * s.raw + c.raw * c.raw <= ONE_RAW
        * ONE_RAW + 8 * ONE_RAW
}

/// The sine and the cosine of a finite angle are finite and at most one in
/// magnitude, and their squares add up to one to within `3e-14`.
pub proof fn lemma_sin_cos_on_unit_circle(angle: Scalar)
    requires
        angle.is_finite(),
    ensures
        is_on_unit_circle(angle.sin(), angle.cos()),
{
    let s = ONE_RAW as int;
    let p = polynomial_point(angle.raw as int);
    lemma_polynomial_point(angle.raw as int);
    let n = p.norm().raw as int;
    assert(2 * (s * s) <= (4 * s) * n) by (nonlinear_arith)
        requires
            s == 0x1_0000_0000_0000,
            n >= 0x8000_0000_0000,
    ;
    lemma_normalize_bounds(p, 4 * s);
    let u = p.normalize();
    assert(u.y.raw == 0 && u.z.raw == 0) by {
        lemma_round_div_exact(0, n);
        assert(0 * s == 0 && 0 * n == 0) by (nonlinear_arith);
    }
    assert(u.raw_norm_squared() == u.w.raw * u.w.raw + u.x.raw * u.x.raw) by {
        assert(0 * 0 == 0) by (nonlinear_arith);
        assert(u.w.raw * u.w.raw >= 0 && u.x.raw * u.x.raw >= 0) by (nonlinear_arith);
    }
}

/// Rounding to the nearest is symmetric: the rounded quotient of the
/// negated dividend is the negated rounded quotient.
pub proof fn lemma_round_div_odd(n: int, d: int)
    requires
        d > 0,
    ensures
        round_div(-n, d) == -round_div(n, d),
{
    if n == 0 {
        assert((2 * 0 + d) / (2 * d) == 0) by (nonlinear_arith)
            requires
                d > 0,
        ;
    }
}

/// The polynomials give a sine that is odd and a cosine that is even in the
/// angle, and the sine zero and the cosine one at the angle zero.
proof fn lemma_wide_sin_cos_parity(t: int)
    ensures
        wide_sin_cos(-t).0 == -wide_sin_cos(t).0,
        wide_sin_cos(-t).1 == wide_sin_cos(t).1,
        wide_sin_cos(0) == (0int, WIDE_ONE as int),
{
    lemma_series_bounds(0, 1, false);
    lemma_series_bounds(0, 1, true);
    assert(series_tail(0, 1, false) == WIDE_ONE);
    assert(0 * series_tail(0, 1, true) == 0) by (nonlinear_arith);
    assert(wide_sin_cos(0).0 == 0);
    if t == 0 {
    } else {
        let u = (if t < 0 { -t } else { t }) * 0x1_0000_0000;
        assert((if -t < 0 { -(-t) } else { -t }) * 0x1_0000_0000 == u);
    }
}

/// The sine is odd and the cosine even: the sine of the negated angle is the
/// negated sine, and its cosine the same cosine.
pub proof fn lemma_sin_cos_parity(angle: Scalar)
    ensures
        (-angle).sin() == -angle.sin(),
        (-angle).cos() == angle.cos(),
{
    if angle.is_finite() {
        let t = angle.raw as int;
        lemma_wide_sin_cos_parity(t);
        lemma_wide_sin_cos_bounds(t);
        lemma_polynomial_point(t);
        lemma_polynomial_point(-t);
        let p = polynomial_point(t);
        let m = polynomial_point(-t);
        lemma_round_div_odd(wide_sin_cos(t).0, 0x4000);
        assert(m.w == p.w && m.x.raw == -p.x.raw && m.y == p.y && m.z == p.z);
        assert(m.raw_norm_squared() == p.raw_norm_squared()) by {
            assert((-p.x.raw) * (-p.x.raw) == p.x.raw * p.x.raw) by (nonlinear_arith);
        }
        let n = p.norm().raw as int;
        assert(m.norm() == p.norm());
        lemma_round_div_odd(p.x.raw * ONE_RAW, n);
        assert((-p.x.raw) * ONE_RAW == -(p.x.raw * ONE_RAW)) by (nonlinear_arith);
        lemma_sin_cos_on_unit_circle(angle);
    }
}

/// The sine of zero is zero and the cosine of zero is one, to the last bit.
pub proof fn lemma_sin_cos_of_zero()
    ensures
        Scalar::zero().sin() == Scalar::zero(),
        Scalar::zero().cos() == Scalar::one(),
{
    lemma_wide_sin_cos_parity(0);
    let p = polynomial_point(0);
    assert(p.w.raw == ONE_RAW && p.x.raw == 0) by {
        lemma_round_div_exact(ONE_RAW as int, 0x4000);
        lemma_round_div_exact(0, 0x4000);
    }
    let one = ONE_RAW as int;
    assert(p.raw_norm_squared() == one * one) by {
        assert(0 * 0 == 0) by (nonlinear_arith);
        assert(one * one >= 0) by (nonlinear_arith);
    }
    assert(is_floor_sqrt((one * one) as nat, one as nat)) by {
        assert(one * one < (one + 1) * (one + 1)) by (nonlinear_arith)
            requires
                one >= 0,
        ;
    }
    lemma_floor_sqrt_is((one * one) as nat, one as nat);
    assert(p.norm().raw == one);
    lemma_round_div_exact(one, one);
    lemma_round_div_exact(0, one);
    assert(0 * one == 0) by (nonlinear_arith);
}

/// A rounded quotient by a positive divisor has the sign of the dividend.
pub proof fn lemma_round_div_sign(n: int, d: int)
    requires
        d > 0,
    ensures
        n >= 0 ==> round_div(n, d) >= 0,
        n <= 0 ==> round_div(n, d) <= 0,
{
    if n >= 0 {
        assert((2 * n + d) / (2 * d) >= 0) by (nonlinear_arith)
            requires
                n >= 0,
                d > 0,
        ;
    }
    if n <= 0 {
        assert((-2 * n + d) / (2 * d) >= 0) by (nonlinear_arith)
            requires
                n <= 0,
                d > 0,
        ;
        if n == 0 {
            assert((2 * n + d) / (2 * d) == 0) by (nonlinear_arith)
                requires
                    n == 0,
                    d > 0,
            ;
        }
    }
}

/// Whether the angle with raw value `t` lies between `low` and `high`
/// quarter turns, the quarter turn taken with 80 fractional bits.
pub open spec fn in_quarters(t: int, low: int, high: int) -> bool {
    low * QUARTER_TURN <= t * 0x1_0000_0000 <= high * QUARTER_TURN
}

/// The sine and cosine that the quadrant `n` makes of the sine `s` and the
/// cosine `c` of the remainder.
pub open spec fn by_quadrant(n: int, s: int, c: int) -> (int, int) {
    let q = n % 4;
    if q == 0 {
        (s, c)
    } else if q == 1 {
        (c, -s)
    } else if q == 2 {
        (-s, -c)
    } else {
        (-c, s)
    }
}

/// The signs that the quadrant gives a sine `s` with the sign of the
/// remainder `y` and a cosine `c` that is not negative.
proof fn lemma_quadrant_signs(u: int, n: int, y: int, s: int, c: int)
    requires
        0 <= n <= 4,
        y == u - n * QUARTER_TURN,
        -(QUARTER_TURN as int) <= 2 * y <= QUARTER_TURN,
        c >= 0,
        y >= 0 ==> s >= 0,
        y <= 0 ==> s <= 0,
    ensures
        0 <= u <= 2 * QUARTER_TURN ==> by_quadrant(n, s, c).0 >= 0,
        2 * QUARTER_TURN <= u <= 4 * QUARTER_TURN ==> by_quadrant(n, s, c).0 <= 0,
        0 <= u <= QUARTER_TURN ==> by_quadrant(n, s, c).1 >= 0,
        QUARTER_TURN <= u <= 3 * QUARTER_TURN ==> by_quadrant(n, s, c).1 <= 0,
        3 * QUARTER_TURN <= u <= 4 * QUARTER_TURN ==> by_quadrant(n, s, c).1 >= 0,
{
}

/// The signs that the polynomials give over the first turn: the sine is not
/// negative up to half a turn and not positive from there on; the cosine is
/// not negative in the first and the last quarter and not positive between.
proof fn lemma_wide_sin_cos_signs(t: int)
    requires
        0 <= t <= MAX_RAW,
        in_quarters(t, 0, 4),
    ensures
        in_quarters(t, 0, 2) ==> wide_sin_cos(t).0 >= 0,
        in_quarters(t, 2, 4) ==> wide_sin_cos(t).0 <= 0,
        in_quarters(t, 0, 1) ==> wide_sin_cos(t).1 >= 0,
        in_quarters(t, 1, 3) ==> wide_sin_cos(t).1 <= 0,
        in_quarters(t, 3, 4) ==> wide_sin_cos(t).1 >= 0,
{
    let one = WIDE_ONE as int;
    let u = t * 0x1_0000_0000;
    let n = (u + QUARTER_TURN / 2) / (QUARTER_TURN as int);
    let y = u - n * QUARTER_TURN;
    assert(0 <= n <= 4 && -(QUARTER_TURN as int) <= 2 * y <= QUARTER_TURN);
    let ya = (if y < 0 { -y } else { y }) / 0x4_0000;
    assert(0 <= ya <= 0x3243_f6a8_885a_308d);
    assert(ya * ya <= 0x3243_f6a8_885a_308d * 0x3243_f6a8_885a_308d) by (nonlinear_arith)
        requires
            0 <= ya <= 0x3243_f6a8_885a_308d,
    ;
    let y2 = ya * ya / one;
    assert(0 <= y2 <= 0x277a_7993_7c8b_bcb4) by (nonlinear_arith)
        requires
            y2 == ya * ya / one,
            one == 0x4000_0000_0000_0000,
            0 <= ya * ya <= 0x3243_f6a8_885a_308d * 0x3243_f6a8_885a_308d,
    ;
    lemma_series_bounds(y2, 1, true);
    lemma_series_bounds(y2, 1, false);
    let tail = series_tail(y2, 1, true);
    assert(0 <= ya * tail) by (nonlinear_arith)
        requires
            0 <= ya,
            0 <= tail,
    ;
    let s_abs = ya * tail / one;
    assert(0 <= s_abs) by (nonlinear_arith)
        requires
            s_abs == ya * tail / one,
            0 <= ya * tail,
            one > 0,
    ;
    let s = if y < 0 { -s_abs } else { s_abs };
    let c = series_tail(y2, 1, false);
    assert(y == 0 ==> s == 0) by {
        if y == 0 {
            assert(ya == 0);
            assert(ya * tail == 0) by (nonlinear_arith)
                requires
                    ya == 0,
            ;
        }
    }
    assert(wide_sin_cos(t) == by_quadrant(n, s, c));
    lemma_quadrant_signs(u, n, y, s, c);
}

/// The signs of sine and cosine over the first turn: the sine is not
/// negative up to half a turn and not positive from there on; the cosine is
/// not negative in the first and the last quarter and not positive between.
pub proof fn lemma_sin_cos_signs(angle: Scalar)
    requires
        angle.is_finite(),
        angle.raw >= 0,
    ensures
        in_quarters(angle.raw as int, 0, 2) ==> angle.sin().raw >= 0,
        in_quarters(angle.raw as int, 2, 4) ==> angle.sin().raw <= 0,
        in_quarters(angle.raw as int, 0, 1) ==> angle.cos().raw >= 0,
        in_quarters(angle.raw as int, 1, 3) ==> angle.cos().raw <= 0,
        in_quarters(angle.raw as int, 3, 4) ==> angle.cos().raw >= 0,
{
    let t = angle.raw as int;
    if in_quarters(t, 0, 4) {
        lemma_wide_sin_cos_signs(t);
    }
    lemma_wide_sin_cos_bounds(t);
    lemma_polynomial_point(t);
    let p = polynomial_point(t);
    lemma_round_div_sign(wide_sin_cos(t).0, 0x4000);
    lemma_round_div_sign(wide_sin_cos(t).1, 0x4000);
    let n = p.norm().raw as int;
    lemma_round_div_sign(p.w.raw * ONE_RAW, n);
    lemma_round_div_sign(p.x.raw * ONE_RAW, n);
    lemma_sin_cos_on_unit_circle(angle);
}

} // verus!
