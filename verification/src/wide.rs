//! Natural numbers of up to 320 bits and integers with a sign.
//!
//! The cofactors and the determinant of an inertia are sums of products of
//! two and of three raw values, of up to 237 bits. They are formed here
//! without rounding, and the quotient of a cofactor and the determinant is
//! rounded once, to the nearest scalar.

use vstd::prelude::*;
use vstd::arithmetic::power2::{lemma2_to64, lemma_pow2_unfold, pow2};
use crate::lemmas::exact::{lemma_bounded_product, lemma_distribute, lemma_linear};
use crate::scalar::{lemma_pow2_81, round_div, round_div_pos, Scalar, MAX_RAW};

verus! {

/// The number that the limbs stand for, the least first.
pub open spec fn limbs_value(l0: int, l1: int, l2: int, l3: int, l4: int) -> int {
    l0 + l1 * 0x1_0000_0000_0000_0000 + l2 * 0x1_0000_0000_0000_0000_0000_0000_0000_0000int + l3
        * 0x1_0000_0000_0000_0000_0000_0000_0000_0000_0000_0000_0000_0000int + l4
        * 0x1_0000_0000_0000_0000_0000_0000_0000_0000_0000_0000_0000_0000_0000_0000_0000_0000int
}

/// A natural number below `2^320`, in five limbs of 64 bits.
#[derive(Clone, Copy, Debug)]
pub struct Wide {
    pub l0: u64,
    pub l1: u64,
    pub l2: u64,
    pub l3: u64,
    pub l4: u64,
}

/// A product with a sum of five terms, term by term.
proof fn lemma_times_limbs(m: int, l0: int, l1: int, l2: int, l3: int, l4: int)
    ensures
        m * limbs_value(l0, l1, l2, l3, l4) == limbs_value(m * l0, m * l1, m * l2, m * l3, m * l4),
        limbs_value(l0, l1, l2, l3, l4) * m == limbs_value(l0 * m, l1 * m, l2 * m, l3 * m, l4 * m),
{
    let b1: int = 0x1_0000_0000_0000_0000;
    let b2: int = 0x1_0000_0000_0000_0000_0000_0000_0000_0000int;
    let b3: int = 0x1_0000_0000_0000_0000_0000_0000_0000_0000_0000_0000_0000_0000int;
    let b4: int = 0x1_0000_0000_0000_0000_0000_0000_0000_0000_0000_0000_0000_0000_0000_0000_0000_0000int;
    let (t1, t2, t3, t4) = (l1 * b1, l2 * b2, l3 * b3, l4 * b4);
    lemma_linear(m, l0, t1 + t2 + t3 + t4, 0);
    lemma_distribute(t1, t2, t3, t4, m);
    assert(m * t1 == (m * l1) * b1) by (nonlinear_arith)
        requires
            t1 == l1 * b1,
    ;
    assert(m * t2 == (m * l2) * b2) by (nonlinear_arith)
        requires
            t2 == l2 * b2,
    ;
    assert(m * t3 == (m * l3) * b3) by (nonlinear_arith)
        requires
            t3 == l3 * b3,
    ;
    assert(m * t4 == (m * l4) * b4) by (nonlinear_arith)
        requires
            t4 == l4 * b4,
    ;
    let v = l0 + t1 + t2 + t3 + t4;
    assert(v * m == m * v && l0 * m == m * l0 && l1 * m == m * l1 && l2 * m == m * l2 && l3 * m
        == m * l3 && l4 * m == m * l4) by (nonlinear_arith);
}

impl Wide {
    /// The number that the five limbs stand for.
    pub open spec fn value(self) -> int {
        limbs_value(self.l0 as int, self.l1 as int, self.l2 as int, self.l3 as int, self.l4 as int)
    }

    /// The wide number with the value of `a`.
    pub fn from_u128(a: u128) -> (r: Wide)
        ensures
            r.value() == a,
    {
        Wide {
            l0: (a % 0x1_0000_0000_0000_0000) as u64,
            l1: (a / 0x1_0000_0000_0000_0000) as u64,
            l2: 0,
            l3: 0,
            l4: 0,
        }
    }

    /// This number times `m`.
    pub fn times(self, m: u64) -> (r: Wide)
        requires
            self.value() * m < limbs_value(0, 0, 0, 0, 0x1_0000_0000_0000_0000),
        ensures
            r.value() == self.value() * m,
    {
        proof {
            lemma_times_limbs(
                m as int,
                self.l0 as int,
                self.l1 as int,
                self.l2 as int,
                self.l3 as int,
                self.l4 as int,
            );
            assert(0 <= self.l0 * m <= 0xffff_ffff_ffff_ffff * 0xffff_ffff_ffff_ffff && 0 <= self.l1
                * m <= 0xffff_ffff_ffff_ffff * 0xffff_ffff_ffff_ffff && 0 <= self.l2 * m
                <= 0xffff_ffff_ffff_ffff * 0xffff_ffff_ffff_ffff && 0 <= self.l3 * m
                <= 0xffff_ffff_ffff_ffff * 0xffff_ffff_ffff_ffff && 0 <= self.l4 * m
                <= 0xffff_ffff_ffff_ffff * 0xffff_ffff_ffff_ffff) by (nonlinear_arith)
                requires
                    0 <= self.l0 <= 0xffff_ffff_ffff_ffff,
                    0 <= self.l1 <= 0xffff_ffff_ffff_ffff,
                    0 <= self.l2 <= 0xffff_ffff_ffff_ffff,
                    0 <= self.l3 <= 0xffff_ffff_ffff_ffff,
                    0 <= self.l4 <= 0xffff_ffff_ffff_ffff,
                    0 <= m <= 0xffff_ffff_ffff_ffff,
            ;
        }
        let t0: u128 = self.l0 as u128 * m as u128;
        let t1: u128 = self.l1 as u128 * m as u128 + t0 / 0x1_0000_0000_0000_0000;
        let t2: u128 = self.l2 as u128 * m as u128 + t1 / 0x1_0000_0000_0000_0000;
        let t3: u128 = self.l3 as u128 * m as u128 + t2 / 0x1_0000_0000_0000_0000;
        let t4: u128 = self.l4 as u128 * m as u128 + t3 / 0x1_0000_0000_0000_0000;
        Wide {
            l0: (t0 % 0x1_0000_0000_0000_0000) as u64,
            l1: (t1 % 0x1_0000_0000_0000_0000) as u64,
            l2: (t2 % 0x1_0000_0000_0000_0000) as u64,
            l3: (t3 % 0x1_0000_0000_0000_0000) as u64,
            l4: t4 as u64,
        }
    }

    /// This number times `2^64`.
    pub fn shifted(self) -> (r: Wide)
        requires
            self.l4 == 0,
        ensures
            r.value() == self.value() * 0x1_0000_0000_0000_0000,
    {
        Wide { l0: 0, l1: self.l0, l2: self.l1, l3: self.l2, l4: self.l3 }
    }

    /// The sum of the two numbers.
    pub fn plus(self, rhs: Wide) -> (r: Wide)
        requires
            self.value() + rhs.value() < limbs_value(0, 0, 0, 0, 0x1_0000_0000_0000_0000),
        ensures
            r.value() == self.value() + rhs.value(),
    {
        let t0: u128 = self.l0 as u128 + rhs.l0 as u128;
        let t1: u128 = self.l1 as u128 + rhs.l1 as u128 + t0 / 0x1_0000_0000_0000_0000;
        let t2: u128 = self.l2 as u128 + rhs.l2 as u128 + t1 / 0x1_0000_0000_0000_0000;
        let t3: u128 = self.l3 as u128 + rhs.l3 as u128 + t2 / 0x1_0000_0000_0000_0000;
        let t4: u128 = self.l4 as u128 + rhs.l4 as u128 + t3 / 0x1_0000_0000_0000_0000;
        Wide {
            l0: (t0 % 0x1_0000_0000_0000_0000) as u64,
            l1: (t1 % 0x1_0000_0000_0000_0000) as u64,
            l2: (t2 % 0x1_0000_0000_0000_0000) as u64,
            l3: (t3 % 0x1_0000_0000_0000_0000) as u64,
            l4: t4 as u64,
        }
    }

    /// Whether this number is at most `rhs`.
    pub fn le(self, rhs: Wide) -> (r: bool)
        ensures
            r == (self.value() <= rhs.value()),
    {
        if self.l4 != rhs.l4 {
            self.l4 < rhs.l4
        } else if self.l3 != rhs.l3 {
            self.l3 < rhs.l3
        } else if self.l2 != rhs.l2 {
            self.l2 < rhs.l2
        } else if self.l1 != rhs.l1 {
            self.l1 < rhs.l1
        } else {
            self.l0 <= rhs.l0
        }
    }

    /// The difference of the two numbers, the greater first.
    pub fn minus(self, rhs: Wide) -> (r: Wide)
        requires
            rhs.value() <= self.value(),
        ensures
            r.value() == self.value() - rhs.value(),
    {
        let b: u128 = 0x1_0000_0000_0000_0000;
        let t0: u128 = b + self.l0 as u128 - rhs.l0 as u128;
        let c0: u128 = if t0 < b { 1 } else { 0 };
        let r0: u128 = if t0 < b { t0 } else { t0 - b };
        assert(r0 == self.l0 - rhs.l0 + c0 * b);
        let t1: u128 = b + self.l1 as u128 - rhs.l1 as u128 - c0;
        let c1: u128 = if t1 < b { 1 } else { 0 };
        let r1: u128 = if t1 < b { t1 } else { t1 - b };
        assert(r1 == self.l1 - rhs.l1 - c0 + c1 * b);
        let t2: u128 = b + self.l2 as u128 - rhs.l2 as u128 - c1;
        let c2: u128 = if t2 < b { 1 } else { 0 };
        let r2: u128 = if t2 < b { t2 } else { t2 - b };
        assert(r2 == self.l2 - rhs.l2 - c1 + c2 * b);
        let t3: u128 = b + self.l3 as u128 - rhs.l3 as u128 - c2;
        let c3: u128 = if t3 < b { 1 } else { 0 };
        let r3: u128 = if t3 < b { t3 } else { t3 - b };
        assert(r3 == self.l3 - rhs.l3 - c2 + c3 * b);
        let t4: u128 = b + self.l4 as u128 - rhs.l4 as u128 - c3;
        let c4: u128 = if t4 < b { 1 } else { 0 };
        let r4: u128 = if t4 < b { t4 } else { t4 - b };
        assert(r4 == self.l4 - rhs.l4 - c3 + c4 * b);
        assert(limbs_value(r0 as int, r1 as int, r2 as int, r3 as int, r4 as int) == self.value()
            - rhs.value() + c4 * limbs_value(0, 0, 0, 0, 0x1_0000_0000_0000_0000));
        assert(c4 == 0);
        Wide { l0: r0 as u64, l1: r1 as u64, l2: r2 as u64, l3: r3 as u64, l4: r4 as u64 }
    }

    /// This number times `m`, a number below `2^80`.
    pub fn times_wide(self, m: u128) -> (r: Wide)
        requires
            m < 0x1_0000_0000_0000_0000_0000,
            self.value() * m < limbs_value(0, 0, 0, 0, 0x1_0000_0000_0000_0000),
        ensures
            r.value() == self.value() * m,
    {
        let low: u64 = (m % 0x1_0000_0000_0000_0000) as u64;
        let high: u64 = (m / 0x1_0000_0000_0000_0000) as u64;
        proof {
            let v = self.value();
            assert(v * m == v * low + (v * high) * 0x1_0000_0000_0000_0000) by (nonlinear_arith)
                requires
                    m == high * 0x1_0000_0000_0000_0000 + low,
            ;
            assert(v * low >= 0 && v * high >= 0) by (nonlinear_arith)
                requires
                    v >= 0,
                    low >= 0,
                    high >= 0,
            ;
        }
        let a = self.times(low);
        let b = self.times(high);
        a.plus(b.shifted())
    }
}

/// An integer of up to 320 bits: a sign and a magnitude.
#[derive(Clone, Copy, Debug)]
pub struct Signed {
    pub negative: bool,
    pub magnitude: Wide,
}

/// The magnitude of a raw value of a finite scalar.
fn magnitude_of(a: i128) -> (r: u128)
    requires
        -MAX_RAW <= a <= MAX_RAW,
    ensures
        r == if a < 0 { -a } else { a as int },
        r <= MAX_RAW,
{
    if a < 0 {
        (-a) as u128
    } else {
        a as u128
    }
}

impl Signed {
    /// The integer that the sign and the magnitude stand for.
    pub open spec fn value(self) -> int {
        if self.negative {
            -self.magnitude.value()
        } else {
            self.magnitude.value()
        }
    }

    /// The product of two raw values of finite scalars.
    pub fn product(a: i128, b: i128) -> (r: Signed)
        requires
            -MAX_RAW <= a <= MAX_RAW,
            -MAX_RAW <= b <= MAX_RAW,
        ensures
            r.value() == a * b,
            r.magnitude.value() <= 0x1000_0000_0000_0000_0000_0000_0000_0000_0000_0000int,
    {
        let x = magnitude_of(a);
        let y = magnitude_of(b);
        proof {
            assert(0 <= x * y <= 0x1000_0000_0000_0000_0000_0000_0000_0000_0000_0000int && (a * b
                == x * y || a * b == -(x * y)) && ((a < 0) != (b < 0) ==> a * b == -(x * y)) && ((a
                < 0) == (b < 0) ==> a * b == x * y)) by (nonlinear_arith)
                requires
                    x == if a < 0 { -a } else { a as int },
                    y == if b < 0 { -b } else { b as int },
                    x <= 0x3fff_ffff_ffff_ffff_ffff,
                    y <= 0x3fff_ffff_ffff_ffff_ffff,
            ;
        }
        Signed { negative: (a < 0) != (b < 0), magnitude: Wide::from_u128(x).times_wide(y) }
    }

    /// This integer times a raw value of a finite scalar.
    pub fn times(self, m: i128) -> (r: Signed)
        requires
            -MAX_RAW <= m <= MAX_RAW,
            self.magnitude.value() <= 0x2000_0000_0000_0000_0000_0000_0000_0000_0000_0000int,
        ensures
            r.value() == self.value() * m,
            r.magnitude.value()
                <= 0x800_0000_0000_0000_0000_0000_0000_0000_0000_0000_0000_0000_0000_0000_0000int,
    {
        let y = magnitude_of(m);
        proof {
            let v = self.magnitude.value();
            assert(0 <= v * y
                <= 0x800_0000_0000_0000_0000_0000_0000_0000_0000_0000_0000_0000_0000_0000_0000int && (
            -v) * m == -(v * m) && (m < 0 ==> v * m == -(v * y)) && (m >= 0 ==> v * m == v * y))
                by (nonlinear_arith)
                requires
                    0 <= v <= 0x2000_0000_0000_0000_0000_0000_0000_0000_0000_0000int,
                    y == if m < 0 { -m } else { m as int },
                    y <= 0x3fff_ffff_ffff_ffff_ffff,
            ;
        }
        Signed { negative: self.negative != (m < 0), magnitude: self.magnitude.times_wide(y) }
    }

    /// This integer times the square of the raw value of one, `2^96`.
    pub fn times_one_squared(self) -> (r: Signed)
        requires
            self.magnitude.value() <= 0x2000_0000_0000_0000_0000_0000_0000_0000_0000_0000int,
        ensures
            r.value() == self.value() * 0x1_0000_0000_0000_0000_0000_0000,
            r.magnitude.value() == self.magnitude.value() * 0x1_0000_0000_0000_0000_0000_0000,
    {
        let once = self.magnitude.times(0x1_0000_0000_0000);
        let twice = once.times(0x1_0000_0000_0000);
        Signed { negative: self.negative, magnitude: twice }
    }

    /// The sum of the two integers.
    pub fn plus(self, rhs: Signed) -> (r: Signed)
        requires
            self.magnitude.value() + rhs.magnitude.value() < limbs_value(
                0,
                0,
                0,
                0,
                0x1_0000_0000_0000_0000,
            ),
        ensures
            r.value() == self.value() + rhs.value(),
            r.magnitude.value() <= self.magnitude.value() + rhs.magnitude.value(),
    {
        if self.negative == rhs.negative {
            Signed { negative: self.negative, magnitude: self.magnitude.plus(rhs.magnitude) }
        } else if rhs.magnitude.le(self.magnitude) {
            Signed { negative: self.negative, magnitude: self.magnitude.minus(rhs.magnitude) }
        } else {
            Signed { negative: rhs.negative, magnitude: rhs.magnitude.minus(self.magnitude) }
        }
    }

    /// Whether the integer is greater than zero.
    pub fn is_positive(self) -> (r: bool)
        ensures
            r == (self.value() > 0),
    {
        let zero = Wide::from_u128(0);
        let none = self.magnitude.le(zero);
        proof {
            assert(self.magnitude.value() >= 0) by (nonlinear_arith)
                requires
                    self.magnitude.value() == limbs_value(
                        self.magnitude.l0 as int,
                        self.magnitude.l1 as int,
                        self.magnitude.l2 as int,
                        self.magnitude.l3 as int,
                        self.magnitude.l4 as int,
                    ),
                    self.magnitude.l0 >= 0,
                    self.magnitude.l1 >= 0,
                    self.magnitude.l2 >= 0,
                    self.magnitude.l3 >= 0,
                    self.magnitude.l4 >= 0,
            ;
        }
        !self.negative && !none
    }

    /// The difference of two products of raw values of finite scalars,
    /// `a b - c d`.
    pub fn minor(a: i128, b: i128, c: i128, d: i128) -> (r: Signed)
        requires
            -MAX_RAW <= a <= MAX_RAW,
            -MAX_RAW <= b <= MAX_RAW,
            -MAX_RAW <= c <= MAX_RAW,
            -MAX_RAW <= d <= MAX_RAW,
        ensures
            r.value() == a * b - c * d,
            r.magnitude.value() <= 0x2000_0000_0000_0000_0000_0000_0000_0000_0000_0000int,
    {
        proof {
            assert(limbs_value(0, 0, 0, 0, 0x1_0000_0000_0000_0000) > 0x8000_0000_0000_0000_0000_0000_0000_0000_0000_0000_0000_0000_0000_0000_0000_0000int) by (nonlinear_arith);
        }
        Signed::product(a, b).minus(Signed::product(c, d))
    }

    /// The difference of the two integers.
    pub fn minus(self, rhs: Signed) -> (r: Signed)
        requires
            self.magnitude.value() + rhs.magnitude.value() < limbs_value(
                0,
                0,
                0,
                0,
                0x1_0000_0000_0000_0000,
            ),
        ensures
            r.value() == self.value() - rhs.value(),
            r.magnitude.value() <= self.magnitude.value() + rhs.magnitude.value(),
    {
        self.plus(Signed { negative: !rhs.negative, magnitude: rhs.magnitude })
    }
}

/// The scalar nearest to `n / d`, ties away from zero: non-finite where `d`
/// is zero or the quotient is outside the finite range.
pub open spec fn spec_rounded_quotient(n: int, d: int) -> Scalar {
    if d == 0 {
        Scalar::non_finite()
    } else {
        Scalar::fit(round_div(n, d))
    }
}

/// The magnitude and the sign of a rounded quotient.
proof fn lemma_round_div_signs(n: int, d: int, pn: int, pd: int, q: int)
    requires
        pn == if n < 0 { -n } else { n },
        pd == if d < 0 { -d } else { d },
        pd > 0,
        q == (2 * pn + pd) / (2 * pd),
    ensures
        q >= 0,
        pn == 0 ==> q == 0,
        (n < 0) != (d < 0) ==> round_div(n, d) == -q,
        (n < 0) == (d < 0) ==> round_div(n, d) == q,
{
    assert(q >= 0 && (pn == 0 ==> q == 0)) by (nonlinear_arith)
        requires
            pn >= 0,
            pd > 0,
            q == (2 * pn + pd) / (2 * pd),
    ;
    let m: int = if d < 0 { -n } else { n };
    assert(round_div(n, d) == round_div_pos(m, pd));
    if m >= 0 {
        assert(2 * m + pd == 2 * pn + pd);
    } else {
        assert(-2 * m + pd == 2 * pn + pd);
    }
}

/// The quotient of two wide naturals, rounded down, where it is below
/// `2^79`.
fn floor_quotient(nn: Wide, dd: Wide) -> (r: Option<u128>)
    requires
        0 < dd.value() <= 0x4000_0000_0000_0000_0000_0000_0000_0000_0000_0000_0000_0000_0000_0000_0000int,
    ensures
        match r {
            Some(q) => q == nn.value() / dd.value() && q < 0x8000_0000_0000_0000_0000,
            None => nn.value() / dd.value() >= 0x8000_0000_0000_0000_0000,
        },
{
    proof {
        lemma_pow2_81();
        lemma_pow2_unfold(81);
        lemma_pow2_unfold(80);
        lemma_bounded_product(dd.value(), 0x8000_0000_0000_0000_0000, 0x4000_0000_0000_0000_0000_0000_0000_0000_0000_0000_0000_0000_0000_0000_0000int, 0x8000_0000_0000_0000_0000);
    }
    let top = dd.times_wide(0x8000_0000_0000_0000_0000);
    if top.le(nn) {
        proof {
            let q = nn.value() / dd.value();
            assert(q >= 0x8000_0000_0000_0000_0000) by (nonlinear_arith)
                requires
                    dd.value() * 0x8000_0000_0000_0000_0000 <= nn.value(),
                    dd.value() > 0,
                    q == nn.value() / dd.value(),
            ;
        }
        return None;
    }
    let mut q: u128 = 0;
    let mut step: u128 = 0x8000_0000_0000_0000_0000;
    let mut i: u32 = 79;
    proof {
        assert(q * dd.value() == 0 && (q + step) * dd.value() == dd.value() * step)
            by (nonlinear_arith)
            requires
                q == 0,
        ;
    }
    while i > 0
        invariant
            step == pow2(i as nat),
            i <= 79,
            q + step <= 0x8000_0000_0000_0000_0000,
            0 < dd.value() <= 0x4000_0000_0000_0000_0000_0000_0000_0000_0000_0000_0000_0000_0000_0000_0000int,
            q * dd.value() <= nn.value(),
            nn.value() < (q + step) * dd.value(),
        decreases i,
    {
        proof {
            lemma_pow2_unfold(i as nat);
        }
        let half: u128 = step / 2;
        let t: u128 = q + half;
        proof {
            lemma_bounded_product(dd.value(), t as int, 0x4000_0000_0000_0000_0000_0000_0000_0000_0000_0000_0000_0000_0000_0000_0000int, 0x8000_0000_0000_0000_0000);
            assert(dd.value() * t == t * dd.value() && (t + half) * dd.value() == (q + step)
                * dd.value()) by (nonlinear_arith)
                requires
                    t + half == q + step,
            ;
        }
        let candidate = dd.times_wide(t);
        if candidate.le(nn) {
            q = t;
        }
        step = half;
        i = i - 1;
    }
    proof {
        lemma2_to64();
        let exact = nn.value() / dd.value();
        assert(exact == q) by (nonlinear_arith)
            requires
                dd.value() > 0,
                q * dd.value() <= nn.value() < (q + 1) * dd.value(),
                exact == nn.value() / dd.value(),
        ;
    }
    Some(q)
}

/// The quotient of two wide naturals, rounded to nearest with ties upwards,
/// where it is below `2^79`.
fn nearest_quotient(pn: Wide, pd: Wide) -> (r: Option<u128>)
    requires
        pn.value() <= 0x2000_0000_0000_0000_0000_0000_0000_0000_0000_0000_0000_0000_0000_0000_0000_0000int,
        0 < pd.value() <= 0x2000_0000_0000_0000_0000_0000_0000_0000_0000_0000_0000_0000_0000_0000_0000int,
    ensures
        match r {
            Some(q) => q == (2 * pn.value() + pd.value()) / (2 * pd.value()) && q
                < 0x8000_0000_0000_0000_0000,
            None => (2 * pn.value() + pd.value()) / (2 * pd.value())
                >= 0x8000_0000_0000_0000_0000,
        },
{
    proof {
        assert(limbs_value(0, 0, 0, 0, 0x1_0000_0000_0000_0000) > 0x8000_0000_0000_0000_0000_0000_0000_0000_0000_0000_0000_0000_0000_0000_0000_0000int) by (nonlinear_arith);
    }
    let dd = pd.plus(pd);
    let twice = pn.plus(pn);
    let nn = twice.plus(pd);
    floor_quotient(nn, dd)
}

/// The scalar nearest to the quotient of two wide integers.
pub fn rounded_quotient(n: Signed, d: Signed) -> (r: Scalar)
    requires
        n.magnitude.value() <= 0x2000_0000_0000_0000_0000_0000_0000_0000_0000_0000_0000_0000_0000_0000_0000_0000int,
        d.magnitude.value() <= 0x2000_0000_0000_0000_0000_0000_0000_0000_0000_0000_0000_0000_0000_0000_0000int,
    ensures
        r == spec_rounded_quotient(n.value(), d.value()),
{
    let zero = Wide::from_u128(0);
    if d.magnitude.le(zero) {
        return Scalar::non_finite();
    }
    let found = nearest_quotient(n.magnitude, d.magnitude);
    let ghost pn = n.magnitude.value();
    let ghost pd = d.magnitude.value();
    proof {
        lemma_round_div_signs(n.value(), d.value(), pn, pd, (2 * pn + pd) / (2 * pd));
    }
    match found {
        None => Scalar::non_finite(),
        Some(q) => {
            if q > MAX_RAW as u128 {
                Scalar::non_finite()
            } else if n.negative != d.negative {
                Scalar::from_raw(-(q as i128))
            } else {
                Scalar::from_raw(q as i128)
            }
        },
    }
}

} // verus!
