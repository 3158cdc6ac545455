//! Fixed-point scalar arithmetic.
//!
//! A [`Scalar`] stands for the real number `raw / 2^48`, where `raw` is an
//! integer of magnitude less than `2^78`. Every operation is total: a result
//! that cannot be represented (a magnitude of `2^30` or more, a division by
//! zero) is the non-finite value, and every operation on a non-finite value
//! yields it again. Products and quotients are rounded to the nearest representable
//! number, ties away from zero; the norm of a quaternion, a square root, is
//! rounded down.
//!
//! The operators `+ - * /` and the unary `-` stand for these operations in
//! executable code and in specifications alike; the functions `spec_add`,
//! `spec_sub`, `spec_mul`, `spec_euclidean_or_real_div` and `spec_neg` are
//! what the operators mean in a specification.

use vstd::prelude::*;
use vstd::arithmetic::power2::{lemma2_to64, lemma2_to64_rest, lemma_pow2_unfold, pow2};
use vstd::std_specs::ops::AddSpecImpl;
use vstd::std_specs::ops::DivSpecImpl;
use vstd::std_specs::ops::MulSpecImpl;
use vstd::std_specs::ops::NegSpecImpl;
use vstd::std_specs::ops::SubSpecImpl;

verus! {

/// The raw value of the scalar one, `2^48`.
pub const ONE_RAW: i128 = 0x1_0000_0000_0000;

/// The greatest raw value of a finite scalar, `2^78 - 1`.
pub const MAX_RAW: i128 = 0x3fff_ffff_ffff_ffff_ffff;

/// The magnitude of an integer.
pub open spec fn magnitude(v: int) -> int {
    if v < 0 {
        -v
    } else {
        v
    }
}

/// The integer nearest to `n / d`, ties away from zero; zero where `d` is zero.
pub open spec fn round_div(n: int, d: int) -> int {
    if d == 0 {
        0
    } else if d < 0 {
        round_div_pos(-n, -d)
    } else {
        round_div_pos(n, d)
    }
}

/// The integer nearest to `n / d` for a positive `d`, ties away from zero.
pub open spec fn round_div_pos(n: int, d: int) -> int {
    if n >= 0 {
        (2 * n + d) / (2 * d)
    } else {
        -((-2 * n + d) / (2 * d))
    }
}

/// `r` is the square root of `n`, rounded down.
pub open spec fn is_floor_sqrt(n: nat, r: nat) -> bool {
    r * r <= n < (r + 1) * (r + 1)
}

/// The square root of `n`, rounded down.
pub open spec fn floor_sqrt(n: nat) -> nat {
    choose|r: nat| is_floor_sqrt(n, r)
}

/// At most one number is the rounded-down square root of `n`.
pub proof fn lemma_floor_sqrt_unique(n: nat, a: nat, b: nat)
    requires
        is_floor_sqrt(n, a),
        is_floor_sqrt(n, b),
    ensures
        a == b,
{
    if a < b {
        assert((a + 1) * (a + 1) <= b * b) by (nonlinear_arith)
            requires
                a + 1 <= b,
        ;
    } else if b < a {
        assert((b + 1) * (b + 1) <= a * a) by (nonlinear_arith)
            requires
                b + 1 <= a,
        ;
    }
}

/// A number that squares to at most `n` and whose successor squares to more
/// than `n` is `floor_sqrt(n)`.
pub proof fn lemma_floor_sqrt_is(n: nat, r: nat)
    requires
        is_floor_sqrt(n, r),
    ensures
        floor_sqrt(n) == r,
{
    lemma_floor_sqrt_unique(n, r, floor_sqrt(n));
}

/// Every natural number has a square root rounded down.
pub proof fn lemma_floor_sqrt_exists(n: nat)
    ensures
        is_floor_sqrt(n, floor_sqrt(n)),
    decreases n,
{
    if n == 0 {
        assert(0nat * 0nat <= 0 && 0 < (0nat + 1) * (0nat + 1)) by (nonlinear_arith);
        assert(is_floor_sqrt(0, 0));
    } else {
        lemma_floor_sqrt_exists((n - 1) as nat);
        let r = floor_sqrt((n - 1) as nat);
        if (r + 1) * (r + 1) <= n {
            assert((r + 2) * (r + 2) > (r + 1) * (r + 1)) by (nonlinear_arith);
            assert(is_floor_sqrt(n, r + 1));
        } else {
            assert(is_floor_sqrt(n, r));
        }
    }
}

/// The number that the two limbs `high` and `low` stand for:
/// `high * 2^64 + low`.
pub open spec fn wide_value(high: u128, low: u128) -> nat {
    (high * 0x1_0000_0000_0000_0000 + low) as nat
}

/// The square of a number below `2^81`, in two limbs.
fn square_wide(a: u128) -> (r: (u128, u128))
    requires
        a < 0x2_0000_0000_0000_0000_0000,
    ensures
        wide_value(r.0, r.1) == a * a,
        r.1 < 0x1_0000_0000_0000_0000,
        r.0 < 0x4_0000_0000_0000_0000_0000_0001,
{
    let ah: u128 = a / 0x1_0000_0000;
    let al: u128 = a % 0x1_0000_0000;
    assert(ah * ah <= 0x1_ffff_ffff_ffff * 0x1_ffff_ffff_ffff && ah * al <= 0x1_ffff_ffff_ffff
        * 0xffff_ffff && al * al <= 0xffff_ffff * 0xffff_ffff) by (nonlinear_arith)
        requires
            ah <= 0x1_ffff_ffff_ffff,
            al <= 0xffff_ffff,
    ;
    let hh: u128 = ah * ah;
    let cross: u128 = ah * al;
    let x: u128 = 2 * cross * 0x1_0000_0000 + al * al;
    assert(a * a == hh * 0x1_0000_0000_0000_0000 + x) by (nonlinear_arith)
        requires
            a == ah * 0x1_0000_0000 + al,
            hh == ah * ah,
            cross == ah * al,
            x == 2 * cross * 0x1_0000_0000 + al * al,
    ;
    (hh + x / 0x1_0000_0000_0000_0000, x % 0x1_0000_0000_0000_0000)
}

/// The sum of two numbers in two limbs each, where the high limbs are below
/// `2^100`.
fn add_wide(a: (u128, u128), b: (u128, u128)) -> (r: (u128, u128))
    requires
        a.0 < 0x10_0000_0000_0000_0000_0000_0000,
        b.0 < 0x10_0000_0000_0000_0000_0000_0000,
        a.1 < 0x1_0000_0000_0000_0000,
        b.1 < 0x1_0000_0000_0000_0000,
    ensures
        wide_value(r.0, r.1) == wide_value(a.0, a.1) + wide_value(b.0, b.1),
        r.1 < 0x1_0000_0000_0000_0000,
        r.0 <= a.0 + b.0 + 1,
{
    let low: u128 = a.1 + b.1;
    (a.0 + b.0 + low / 0x1_0000_0000_0000_0000, low % 0x1_0000_0000_0000_0000)
}

/// The square root, rounded down, of a number below `2^162` in two limbs.
pub fn isqrt_wide(high: u128, low: u128) -> (r: u128)
    requires
        high < 0x4_0000_0000_0000_0000_0000_0000,
        low < 0x1_0000_0000_0000_0000,
    ensures
        r as nat == floor_sqrt(wide_value(high, low)),
        is_floor_sqrt(wide_value(high, low), r as nat),
        r < 0x2_0000_0000_0000_0000_0000,
{
    let ghost n: nat = wide_value(high, low);
    let mut r: u128 = 0;
    let mut step: u128 = 0x2_0000_0000_0000_0000_0000;
    let mut i: u32 = 81;
    proof {
        lemma_pow2_81();
        assert(n < 0x2_0000_0000_0000_0000_0000 * 0x2_0000_0000_0000_0000_0000)
            by (nonlinear_arith)
            requires
                n == high * 0x1_0000_0000_0000_0000 + low,
                high < 0x4_0000_0000_0000_0000_0000_0000,
                low < 0x1_0000_0000_0000_0000,
        ;
    }
    while i > 0
        invariant
            step == pow2(i as nat),
            i <= 81,
            n == wide_value(high, low),
            low < 0x1_0000_0000_0000_0000,
            r + step <= 0x2_0000_0000_0000_0000_0000,
            r * r <= n,
            n < (r + step) * (r + step),
        decreases i,
    {
        proof {
            lemma_pow2_unfold(i as nat);
        }
        let half: u128 = step / 2;
        let t: u128 = r + half;
        let (th, tl) = square_wide(t);
        if th < high || (th == high && tl <= low) {
            r = t;
        }
        step = half;
        i = i - 1;
    }
    proof {
        lemma2_to64();
        lemma_floor_sqrt_is(n, r as nat);
    }
    r
}

/// The value of `2^81`.
pub(crate) proof fn lemma_pow2_81()
    ensures
        pow2(81) == 0x2_0000_0000_0000_0000_0000,
{
    lemma2_to64();
    lemma_pow2_unfold(65);
    lemma_pow2_unfold(66);
    lemma_pow2_unfold(67);
    lemma_pow2_unfold(68);
    lemma_pow2_unfold(69);
    lemma_pow2_unfold(70);
    lemma_pow2_unfold(71);
    lemma_pow2_unfold(72);
    lemma_pow2_unfold(73);
    lemma_pow2_unfold(74);
    lemma_pow2_unfold(75);
    lemma_pow2_unfold(76);
    lemma_pow2_unfold(77);
    lemma_pow2_unfold(78);
    lemma_pow2_unfold(79);
    lemma_pow2_unfold(80);
    lemma_pow2_unfold(81);
}

/// The sum of the squares of four raw values of finite scalars, in two
/// limbs.
pub fn sum_of_squares(w: i128, x: i128, y: i128, z: i128) -> (r: (u128, u128))
    requires
        -MAX_RAW <= w <= MAX_RAW,
        -MAX_RAW <= x <= MAX_RAW,
        -MAX_RAW <= y <= MAX_RAW,
        -MAX_RAW <= z <= MAX_RAW,
    ensures
        wide_value(r.0, r.1) == w * w + x * x + y * y + z * z,
        r.0 < 0x4_0000_0000_0000_0000_0000_0000,
        r.1 < 0x1_0000_0000_0000_0000,
{
    let a: u128 = if w < 0 { (-w) as u128 } else { w as u128 };
    let b: u128 = if x < 0 { (-x) as u128 } else { x as u128 };
    let c: u128 = if y < 0 { (-y) as u128 } else { y as u128 };
    let d: u128 = if z < 0 { (-z) as u128 } else { z as u128 };
    assert(a * a == w * w && b * b == x * x && c * c == y * y && d * d == z * z
        && a * a <= 0x3fff_ffff_ffff_ffff_ffff * 0x3fff_ffff_ffff_ffff_ffff
        && b * b <= 0x3fff_ffff_ffff_ffff_ffff * 0x3fff_ffff_ffff_ffff_ffff
        && c * c <= 0x3fff_ffff_ffff_ffff_ffff * 0x3fff_ffff_ffff_ffff_ffff
        && d * d <= 0x3fff_ffff_ffff_ffff_ffff * 0x3fff_ffff_ffff_ffff_ffff) by (nonlinear_arith)
        requires
            a == w || a == -w,
            b == x || b == -x,
            c == y || c == -y,
            d == z || d == -z,
            0 <= a <= 0x3fff_ffff_ffff_ffff_ffff,
            0 <= b <= 0x3fff_ffff_ffff_ffff_ffff,
            0 <= c <= 0x3fff_ffff_ffff_ffff_ffff,
            0 <= d <= 0x3fff_ffff_ffff_ffff_ffff,
    ;
    let sa = square_wide(a);
    let sb = square_wide(b);
    let sc = square_wide(c);
    let sd = square_wide(d);
    assert(sa.0 < 0x1_0000_0000_0000_0000_0000_0000 && sb.0 < 0x1_0000_0000_0000_0000_0000_0000
        && sc.0 < 0x1_0000_0000_0000_0000_0000_0000 && sd.0 < 0x1_0000_0000_0000_0000_0000_0000);
    let ab = add_wide(sa, sb);
    let cd = add_wide(sc, sd);
    add_wide(ab, cd)
}

/// A real number held as a signed multiple of `2^-48`, or the non-finite value.
#[derive(Clone, Copy, Debug, PartialEq, Eq, Structural)]
pub struct Scalar {
    /// The number times `2^48`, of magnitude at most `MAX_RAW`; every other
    /// value marks a non-finite scalar.
    pub raw: i128,
}

impl Scalar {
    /// The non-finite scalar.
    pub open spec fn spec_non_finite() -> Scalar {
        Scalar { raw: i128::MIN }
    }

    /// The scalar zero.
    pub open spec fn spec_zero() -> Scalar {
        Scalar { raw: 0 }
    }

    /// The scalar one.
    pub open spec fn spec_one() -> Scalar {
        Scalar { raw: ONE_RAW }
    }

    /// The scalar one half.
    pub open spec fn spec_half() -> Scalar {
        Scalar { raw: 0x8000_0000_0000 }
    }

    /// Whether this scalar stands for a number.
    pub open spec fn spec_is_finite(self) -> bool {
        -MAX_RAW <= self.raw <= MAX_RAW
    }

    /// The scalar with raw value `v`, or the non-finite scalar where `v` is
    /// outside the finite range.
    pub open spec fn fit(v: int) -> Scalar {
        if -MAX_RAW <= v <= MAX_RAW {
            Scalar { raw: v as i128 }
        } else {
            Scalar::spec_non_finite()
        }
    }

    /// The scalar that stands for the integer `n`.
    pub open spec fn spec_from_int(n: int) -> Scalar {
        Scalar::fit(n * ONE_RAW)
    }

    /// The scalar nearest to `num / den`.
    pub open spec fn spec_from_ratio(num: int, den: int) -> Scalar {
        if den == 0 {
            Scalar::spec_non_finite()
        } else {
            Scalar::fit(round_div(num * ONE_RAW, den))
        }
    }

    /// The sum of two scalars.
    pub open spec fn spec_add(self, rhs: Scalar) -> Scalar {
        if self.is_finite() && rhs.is_finite() {
            Scalar::fit(self.raw + rhs.raw)
        } else {
            Scalar::spec_non_finite()
        }
    }

    /// The difference of two scalars.
    pub open spec fn spec_sub(self, rhs: Scalar) -> Scalar {
        if self.is_finite() && rhs.is_finite() {
            Scalar::fit(self.raw - rhs.raw)
        } else {
            Scalar::spec_non_finite()
        }
    }

    /// The negation of a scalar.
    pub open spec fn spec_neg(self) -> Scalar {
        if self.is_finite() {
            Scalar { raw: (-self.raw) as i128 }
        } else {
            Scalar::spec_non_finite()
        }
    }

    /// The rounded product of two scalars.
    pub open spec fn spec_mul(self, rhs: Scalar) -> Scalar {
        if self.is_finite() && rhs.is_finite() {
            Scalar::fit(round_div(self.raw * rhs.raw, ONE_RAW as int))
        } else {
            Scalar::spec_non_finite()
        }
    }

    /// The rounded quotient of two scalars.
    pub open spec fn spec_euclidean_or_real_div(self, rhs: Scalar) -> Scalar {
        if self.is_finite() && rhs.is_finite() && rhs.raw != 0 {
            Scalar::fit(round_div(self.raw * ONE_RAW, rhs.raw as int))
        } else {
            Scalar::spec_non_finite()
        }
    }

    /// The non-finite scalar.
    #[verifier::when_used_as_spec(spec_non_finite)]
    pub fn non_finite() -> (r: Scalar)
        ensures
            r == Scalar::spec_non_finite(),
    {
        Scalar { raw: i128::MIN }
    }

    /// The scalar zero.
    #[verifier::when_used_as_spec(spec_zero)]
    pub fn zero() -> (r: Scalar)
        ensures
            r == Scalar::spec_zero(),
    {
        Scalar { raw: 0 }
    }

    /// The scalar one.
    #[verifier::when_used_as_spec(spec_one)]
    pub fn one() -> (r: Scalar)
        ensures
            r == Scalar::spec_one(),
    {
        Scalar { raw: ONE_RAW }
    }

    /// The scalar one half.
    #[verifier::when_used_as_spec(spec_half)]
    pub fn half() -> (r: Scalar)
        ensures
            r == Scalar::spec_half(),
    {
        Scalar { raw: 0x8000_0000_0000 }
    }

    /// The scalar with the given raw value.
    pub fn from_raw(raw: i128) -> (r: Scalar)
        ensures
            r.raw == raw,
    {
        Scalar { raw }
    }

    /// Whether this scalar stands for a number.
    #[verifier::when_used_as_spec(spec_is_finite)]
    pub fn is_finite(self) -> (r: bool)
        ensures
            r == self.spec_is_finite(),
    {
        -MAX_RAW <= self.raw && self.raw <= MAX_RAW
    }

    /// The scalar that stands for the integer `n`; non-finite where `n` is
    /// outside the finite range.
    pub fn from_int(n: i64) -> (r: Scalar)
        ensures
            r == Scalar::spec_from_int(n as int),
    {
        let wide: i128 = n as i128 * ONE_RAW;
        Scalar::from_wide(wide)
    }

    /// The scalar nearest to `num / den`; non-finite where `den` is zero or the
    /// quotient is outside the finite range.
    pub fn from_ratio(num: i64, den: i64) -> (r: Scalar)
        ensures
            r == Scalar::spec_from_ratio(num as int, den as int),
    {
        if den == 0 {
            return Scalar { raw: i128::MIN };
        }
        let scaled: i128 = num as i128 * ONE_RAW;
        Scalar::from_wide(round_div_wide(scaled, den as i128))
    }

    /// The scalar with raw value `v`; non-finite where `v` is outside the
    /// finite range.
    fn from_wide(v: i128) -> (r: Scalar)
        ensures
            r == Scalar::fit(v as int),
    {
        if v < -MAX_RAW || v > MAX_RAW {
            Scalar { raw: i128::MIN }
        } else {
            Scalar { raw: v }
        }
    }
}

/// The integer nearest to `n / d`, ties away from zero.
fn round_div_wide(n: i128, d: i128) -> (q: i128)
    requires
        d != 0,
        -0x8000_0000_0000_0000 <= d <= 0x8000_0000_0000_0000 || -MAX_RAW <= d <= MAX_RAW,
        -0x4000_0000_0000_0000_0000_0000_0000_0000 <= n,
        n <= 0x4000_0000_0000_0000_0000_0000_0000_0000,
    ensures
        q == round_div(n as int, d as int),
{
    let n_abs: u128 = if n < 0 { (-n) as u128 } else { n as u128 };
    let d_abs: u128 = if d < 0 { (-d) as u128 } else { d as u128 };
    let q_abs: u128 = (2 * n_abs + d_abs) / (2 * d_abs);
    proof {
        assert(q_abs <= n_abs + 1) by (nonlinear_arith)
            requires
                q_abs == (2 * n_abs + d_abs) / (2 * d_abs),
                d_abs > 0,
                n_abs >= 0,
        ;
        assert(n == 0 ==> q_abs == 0) by (nonlinear_arith)
            requires
                q_abs == (2 * n_abs + d_abs) / (2 * d_abs),
                d_abs > 0,
                n == 0 ==> n_abs == 0,
        ;
        let m: int = if d < 0 { -(n as int) } else { n as int };
        assert(round_div(n as int, d as int) == round_div_pos(m, d_abs as int));
        if m >= 0 {
            assert(2 * m + d_abs == 2 * n_abs + d_abs);
        } else {
            assert(-2 * m + d_abs == 2 * n_abs + d_abs);
        }
    }
    if (n < 0) != (d < 0) {
        -(q_abs as i128)
    } else {
        q_abs as i128
    }
}

impl core::ops::Add for Scalar {
    type Output = Scalar;

    fn add(self, rhs: Scalar) -> (r: Scalar) {
        if !self.is_finite() || !rhs.is_finite() {
            return Scalar { raw: i128::MIN };
        }
        Scalar::from_wide(self.raw + rhs.raw)
    }
}

impl AddSpecImpl for Scalar {
    open spec fn obeys_add_spec() -> bool {
        true
    }

    open spec fn add_req(self, rhs: Scalar) -> bool {
        true
    }

    open spec fn add_spec(self, rhs: Scalar) -> Scalar {
        self.spec_add(rhs)
    }
}

impl core::ops::Sub for Scalar {
    type Output = Scalar;

    fn sub(self, rhs: Scalar) -> (r: Scalar) {
        if !self.is_finite() || !rhs.is_finite() {
            return Scalar { raw: i128::MIN };
        }
        Scalar::from_wide(self.raw - rhs.raw)
    }
}

impl SubSpecImpl for Scalar {
    open spec fn obeys_sub_spec() -> bool {
        true
    }

    open spec fn sub_req(self, rhs: Scalar) -> bool {
        true
    }

    open spec fn sub_spec(self, rhs: Scalar) -> Scalar {
        self.spec_sub(rhs)
    }
}

impl core::ops::Neg for Scalar {
    type Output = Scalar;

    fn neg(self) -> (r: Scalar) {
        if !self.is_finite() {
            return Scalar { raw: i128::MIN };
        }
        Scalar { raw: -self.raw }
    }
}

impl NegSpecImpl for Scalar {
    open spec fn obeys_neg_spec() -> bool {
        true
    }

    open spec fn neg_req(self) -> bool {
        true
    }

    open spec fn neg_spec(self) -> Scalar {
        self.spec_neg()
    }
}

impl core::ops::Mul for Scalar {
    type Output = Scalar;

    fn mul(self, rhs: Scalar) -> (r: Scalar) {
        if !self.is_finite() || !rhs.is_finite() {
            return Scalar { raw: i128::MIN };
        }
        let a: u128 = if self.raw < 0 { (-self.raw) as u128 } else { self.raw as u128 };
        let b: u128 = if rhs.raw < 0 { (-rhs.raw) as u128 } else { rhs.raw as u128 };
        let q: u128 = round_product(a, b);
        let negative: bool = (self.raw < 0) != (rhs.raw < 0);
        proof {
            let n: int = self.raw * rhs.raw;
            assert(n == a * b || n == -(a * b)) by (nonlinear_arith)
                requires
                    n == self.raw * rhs.raw,
                    a == self.raw || a == -self.raw,
                    b == rhs.raw || b == -rhs.raw,
            ;
            assert(negative ==> n <= 0) by (nonlinear_arith)
                requires
                    n == self.raw * rhs.raw,
                    negative == ((self.raw < 0) != (rhs.raw < 0)),
            ;
            assert(!negative ==> n >= 0) by (nonlinear_arith)
                requires
                    n == self.raw * rhs.raw,
                    negative == ((self.raw < 0) != (rhs.raw < 0)),
            ;
            assert(a * b >= 0) by (nonlinear_arith)
                requires
                    a >= 0,
                    b >= 0,
            ;
        }
        Scalar::from_wide(if negative { -(q as i128) } else { q as i128 })
    }
}

impl MulSpecImpl for Scalar {
    open spec fn obeys_mul_spec() -> bool {
        true
    }

    open spec fn mul_req(self, rhs: Scalar) -> bool {
        true
    }

    open spec fn mul_spec(self, rhs: Scalar) -> Scalar {
        self.spec_mul(rhs)
    }
}

impl core::ops::Div for Scalar {
    type Output = Scalar;

    fn div(self, rhs: Scalar) -> (r: Scalar) {
        if !self.is_finite() || !rhs.is_finite() || rhs.raw == 0 {
            return Scalar { raw: i128::MIN };
        }
        let scaled: i128 = self.raw * ONE_RAW;
        Scalar::from_wide(round_div_wide(scaled, rhs.raw))
    }
}

impl DivSpecImpl for Scalar {
    open spec fn obeys_div_spec() -> bool {
        true
    }

    open spec fn div_req(self, rhs: Scalar) -> bool {
        true
    }

    open spec fn div_spec(self, rhs: Scalar) -> Scalar {
        self.spec_euclidean_or_real_div(rhs)
    }
}

/// The product of two magnitudes of raw values, brought back to the scale
/// of one raw value and rounded to the nearest.
fn round_product(a: u128, b: u128) -> (q: u128)
    requires
        a <= MAX_RAW,
        b <= MAX_RAW,
    ensures
        q == (2 * (a * b) + ONE_RAW) / (2 * ONE_RAW),
        q <= 0x1_0000_0000_0000_0000_0000_0000_0000,
{
    let ah: u128 = a / 0x1_0000_0000_0000;
    let al: u128 = a % 0x1_0000_0000_0000;
    assert(ah * b <= 0x3fff_ffff * 0x3fff_ffff_ffff_ffff_ffff && al * b <= 0xffff_ffff_ffff
        * 0x3fff_ffff_ffff_ffff_ffff) by (nonlinear_arith)
        requires
            ah <= 0x3fff_ffff,
            al <= 0xffff_ffff_ffff,
            b <= 0x3fff_ffff_ffff_ffff_ffff,
    ;
    let high: u128 = ah * b;
    let low: u128 = al * b;
    let rest: u128 = (2 * low + 0x1_0000_0000_0000) / 0x2_0000_0000_0000;
    assert((2 * (a * b) + 0x1_0000_0000_0000) / 0x2_0000_0000_0000 == high + rest)
        by (nonlinear_arith)
        requires
            a == ah * 0x1_0000_0000_0000 + al,
            high == ah * b,
            low == al * b,
            rest == (2 * low + 0x1_0000_0000_0000) / 0x2_0000_0000_0000,
            low >= 0,
    ;
    high + rest
}

} // verus!
