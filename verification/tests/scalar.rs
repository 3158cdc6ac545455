use adcs::scalar::{isqrt_wide, sum_of_squares, MAX_RAW, ONE_RAW};
use adcs::wide::{rounded_quotient, Signed, Wide};
use adcs::Scalar;

const ONE: f64 = 281474976710656.0;

fn s(x: f64) -> Scalar {
    Scalar::from_raw((x * ONE).round() as i128)
}

fn f(x: Scalar) -> f64 {
    assert!(x.is_finite());
    x.raw as f64 / ONE
}

#[test]
fn constants_are_consistent() {
    assert_eq!(ONE_RAW, 1i128 << 48);
    assert_eq!(MAX_RAW, (1i128 << 78) - 1);
    assert_eq!(Scalar::one().raw, ONE_RAW);
    assert_eq!(Scalar::zero().raw, 0);
    assert_eq!(Scalar::half().raw, ONE_RAW / 2);
    assert_eq!(Scalar::non_finite().raw, i128::MIN);
    assert!(!Scalar::non_finite().is_finite());
    assert!(Scalar::from_raw(MAX_RAW).is_finite());
    assert!(Scalar::from_raw(-MAX_RAW).is_finite());
    assert!(!Scalar::from_raw(MAX_RAW + 1).is_finite());
    assert!(!Scalar::from_raw(-MAX_RAW - 1).is_finite());
}

#[test]
fn from_int_scales_or_overflows() {
    assert_eq!(Scalar::from_int(3).raw, 3 * ONE_RAW);
    assert_eq!(Scalar::from_int(-7).raw, -7 * ONE_RAW);
    assert_eq!(Scalar::from_int(32768).raw, 32768 * ONE_RAW);
    assert_eq!(Scalar::from_int((1 << 30) - 1).raw, ((1 << 30) - 1) * ONE_RAW);
    assert!(!Scalar::from_int(1 << 30).is_finite());
    assert!(!Scalar::from_int(-(1 << 30)).is_finite());
    assert!(!Scalar::from_int(i64::MAX).is_finite());
    assert!(!Scalar::from_int(i64::MIN).is_finite());
}

#[test]
fn from_ratio_rounds_to_nearest() {
    assert_eq!(Scalar::from_ratio(1, 2), Scalar::half());
    assert_eq!(Scalar::from_ratio(-1, 2).raw, -ONE_RAW / 2);
    assert_eq!(Scalar::from_ratio(1, -2).raw, -ONE_RAW / 2);
    assert_eq!(Scalar::from_ratio(-1, -2).raw, ONE_RAW / 2);
    // 2^48 / 3 = 93824992236885.33..., 2^49 / 3 = 187649984473770.66...
    assert_eq!(Scalar::from_ratio(1, 3).raw, 93824992236885);
    assert_eq!(Scalar::from_ratio(2, 3).raw, 187649984473771);
    assert_eq!(Scalar::from_ratio(-2, 3).raw, -187649984473771);
    assert_eq!(Scalar::from_ratio(1, 100).raw, 2814749767107);
    assert!(!Scalar::from_ratio(1, 0).is_finite());
    assert!(!Scalar::from_ratio(0, 0).is_finite());
    assert_eq!(Scalar::from_ratio(32768, 1), Scalar::from_int(32768));
    assert!(!Scalar::from_ratio(1 << 30, 1).is_finite());
    assert_eq!(Scalar::from_ratio(0, 5), Scalar::zero());
    assert_eq!(Scalar::from_ratio(i64::MIN, i64::MIN), Scalar::one());
}

#[test]
fn addition_and_subtraction_are_exact() {
    assert_eq!(s(1.5) + s(2.25), s(3.75));
    assert_eq!(s(1.5) - s(2.25), s(-0.75));
    assert_eq!(Scalar::from_raw(1) + Scalar::from_raw(-1), Scalar::zero());
    assert_eq!(Scalar::from_raw(MAX_RAW) - Scalar::from_raw(MAX_RAW), Scalar::zero());
    assert_eq!(
        Scalar::from_raw(MAX_RAW - 1) + Scalar::from_raw(1),
        Scalar::from_raw(MAX_RAW)
    );
}

#[test]
fn sums_outside_the_range_are_non_finite() {
    assert!(!(Scalar::from_raw(MAX_RAW) + Scalar::from_raw(1)).is_finite());
    assert!(!(Scalar::from_raw(-MAX_RAW) - Scalar::from_raw(1)).is_finite());
    assert_eq!(s(20000.0) + s(20000.0), s(40000.0));
    assert!(!(s(6e8) + s(6e8)).is_finite());
}

#[test]
fn non_finite_propagates() {
    let nan = Scalar::non_finite();
    let one = Scalar::one();
    assert!(!(nan + one).is_finite());
    assert!(!(one + nan).is_finite());
    assert!(!(nan - one).is_finite());
    assert!(!(one - nan).is_finite());
    assert!(!(nan * one).is_finite());
    assert!(!(one * nan).is_finite());
    assert!(!(nan * Scalar::zero()).is_finite());
    assert!(!(nan / one).is_finite());
    assert!(!(one / nan).is_finite());
    assert!(!(-nan).is_finite());
    assert!(!nan.sin().is_finite());
    assert!(!nan.cos().is_finite());
}

#[test]
fn negation_flips_the_sign() {
    assert_eq!(-s(1.5), s(-1.5));
    assert_eq!(-Scalar::zero(), Scalar::zero());
    assert_eq!(-Scalar::from_raw(MAX_RAW), Scalar::from_raw(-MAX_RAW));
    assert_eq!(-Scalar::from_raw(-MAX_RAW), Scalar::from_raw(MAX_RAW));
}

#[test]
fn multiplication_rounds_to_nearest_ties_away_from_zero() {
    assert_eq!(s(1.5) * s(2.5), s(3.75));
    assert_eq!(s(-1.5) * s(2.5), s(-3.75));
    assert_eq!(s(-1.5) * s(-2.5), s(3.75));
    // One raw unit times one half is half a raw unit: a tie.
    assert_eq!(Scalar::from_raw(1) * Scalar::half(), Scalar::from_raw(1));
    assert_eq!(Scalar::from_raw(-1) * Scalar::half(), Scalar::from_raw(-1));
    assert_eq!(Scalar::from_raw(3) * Scalar::half(), Scalar::from_raw(2));
    assert_eq!(Scalar::from_raw(-3) * Scalar::half(), Scalar::from_raw(-2));
    // One raw unit times a quarter is below the tie.
    assert_eq!(Scalar::from_raw(1) * s(0.25), Scalar::zero());
    assert_eq!(Scalar::from_raw(3) * s(0.25), Scalar::from_raw(1));
    assert_eq!(Scalar::from_raw(1) * Scalar::from_raw(1), Scalar::zero());
}

#[test]
fn products_outside_the_range_are_non_finite() {
    assert_eq!(s(200.0) * s(200.0), s(40000.0));
    assert_eq!(s(-200.0) * s(200.0), s(-40000.0));
    assert_eq!(s(30000.0) * s(30000.0), s(9e8));
    assert!(!(s(40000.0) * s(40000.0)).is_finite());
    assert!(!(s(-40000.0) * s(40000.0)).is_finite());
    assert!(!(Scalar::from_raw(MAX_RAW) * Scalar::from_raw(MAX_RAW)).is_finite());
    assert_eq!(
        Scalar::from_raw(MAX_RAW) * Scalar::one(),
        Scalar::from_raw(MAX_RAW)
    );
    assert_eq!(
        Scalar::from_raw(-MAX_RAW) * Scalar::one(),
        Scalar::from_raw(-MAX_RAW)
    );
}

#[test]
fn division_rounds_to_nearest_ties_away_from_zero() {
    assert_eq!(s(3.75) / s(2.5), s(1.5));
    assert_eq!(s(-3.75) / s(2.5), s(-1.5));
    assert_eq!(s(3.75) / s(-2.5), s(-1.5));
    assert_eq!(s(-3.75) / s(-2.5), s(1.5));
    assert_eq!((Scalar::one() / Scalar::from_int(3)).raw, 93824992236885);
    assert_eq!((Scalar::from_int(2) / Scalar::from_int(3)).raw, 187649984473771);
    assert_eq!((Scalar::from_int(-2) / Scalar::from_int(3)).raw, -187649984473771);
    assert_eq!(Scalar::from_raw(1) / Scalar::from_int(2), Scalar::from_raw(1));
    assert_eq!(Scalar::from_raw(-1) / Scalar::from_int(2), Scalar::from_raw(-1));
    assert_eq!(Scalar::from_raw(1) / Scalar::from_int(4), Scalar::zero());
    assert_eq!(Scalar::zero() / s(-2.5), Scalar::zero());
}

#[test]
fn division_by_zero_or_out_of_range_is_non_finite() {
    assert!(!(Scalar::one() / Scalar::zero()).is_finite());
    assert!(!(Scalar::zero() / Scalar::zero()).is_finite());
    assert!((f(s(1000.0) / s(0.001)) - 1e6).abs() < 1e-2);
    assert!(!(s(1e6) / s(0.0001)).is_finite());
    assert!(!(Scalar::one() / Scalar::from_raw(1)).is_finite());
    assert!((Scalar::from_raw(32767) / Scalar::from_raw(1)).is_finite());
    assert!(!(Scalar::from_raw(1 << 30) / Scalar::from_raw(1)).is_finite());
}

#[test]
fn wide_square_root_brackets_its_argument() {
    assert_eq!(isqrt_wide(0, 0), 0);
    assert_eq!(isqrt_wide(0, 1), 1);
    assert_eq!(isqrt_wide(0, 3), 1);
    assert_eq!(isqrt_wide(0, 4), 2);
    assert_eq!(isqrt_wide(0, 99), 9);
    assert_eq!(isqrt_wide(0, 100), 10);
    assert_eq!(isqrt_wide(1, 0), 1 << 32);
    assert_eq!(isqrt_wide(0, u64::MAX as u128), (1 << 32) - 1);
    assert_eq!(isqrt_wide(1 << 92, 0), 1 << 78);
    assert_eq!(isqrt_wide((1 << 92) - 1, u64::MAX as u128), (1 << 78) - 1);
    assert_eq!(sum_of_squares(3, -4, 0, 0), (0, 25));
    assert_eq!(sum_of_squares(1 << 32, 0, 0, 0), (1, 0));
    assert_eq!(sum_of_squares(MAX_RAW, MAX_RAW, MAX_RAW, -MAX_RAW).0 >> 92, 3);
    let mut n: u128 = 12345678901234567890;
    for _ in 0..200 {
        let (high, low) = sum_of_squares(
            (n % (1 << 78)) as i128,
            -((n >> 50) as i128),
            (n >> 90) as i128,
            1,
        );
        let r = isqrt_wide(high, low);
        let (rh, rl) = sum_of_squares(r as i128, 0, 0, 0);
        assert!((rh, rl) <= (high, low));
        let (sh, sl) = sum_of_squares(r as i128 + 1, 0, 0, 0);
        assert!((sh, sl) > (high, low));
        n = n.wrapping_mul(6364136223846793005).wrapping_add(1442695040888963407);
    }
}

#[test]
fn sine_and_cosine_of_special_angles() {
    assert_eq!(Scalar::zero().sin(), Scalar::zero());
    assert_eq!(Scalar::zero().cos(), Scalar::one());
    let pi = s(std::f64::consts::PI);
    assert!((f((pi * Scalar::half()).sin()) - 1.0).abs() < 1e-14);
    assert!(f((pi * Scalar::half()).cos()).abs() < 1e-14);
    assert!(f(pi.sin()).abs() < 1e-14);
    assert!((f(pi.cos()) + 1.0).abs() < 1e-14);
    assert!((f(s(std::f64::consts::FRAC_PI_6).sin()) - 0.5).abs() < 1e-14);
    assert!((f(s(std::f64::consts::FRAC_PI_3).cos()) - 0.5).abs() < 1e-14);
    // sin(1) * 2^48 = 236853025851494.6..., cos(1) * 2^48 = 152081578960947.9...
    assert!((Scalar::one().sin().raw - 236853025851495).abs() <= 2);
    assert!((Scalar::one().cos().raw - 152081578960948).abs() <= 2);
    assert_eq!((-Scalar::one()).sin(), -Scalar::one().sin());
    assert_eq!((-Scalar::one()).cos(), Scalar::one().cos());
    assert_eq!(Scalar::one().sin_cos(), (Scalar::one().sin(), Scalar::one().cos()));
}

#[test]
fn sine_and_cosine_follow_the_reals() {
    let mut x = -40.0f64;
    while x < 40.0 {
        let a = s(x);
        let exact = f(a);
        assert!((f(a.sin()) - exact.sin()).abs() < 1e-13, "sin({})", x);
        assert!((f(a.cos()) - exact.cos()).abs() < 1e-13, "cos({})", x);
        x += 0.0137;
    }
    for k in 0..2000 {
        let a = s(-30000.0 + 30.0 * k as f64 + 0.123);
        let exact = f(a);
        assert!((f(a.sin()) - exact.sin()).abs() < 1e-11, "sin({})", exact);
        assert!((f(a.cos()) - exact.cos()).abs() < 1e-11, "cos({})", exact);
        assert!(a.sin().raw.abs() <= ONE_RAW && a.cos().raw.abs() <= ONE_RAW);
    }
    assert!(Scalar::from_raw(MAX_RAW).sin().is_finite());
    assert!(Scalar::from_raw(-MAX_RAW).cos().is_finite());
}

#[test]
fn squares_of_sine_and_cosine_add_up_to_one() {
    let one = ONE_RAW as i128;
    let mut raw: i128 = -(1 << 52);
    while raw < (1 << 52) {
        let (sin, cos) = Scalar::from_raw(raw).sin_cos();
        let sum = sin.raw as i128 * sin.raw as i128 + cos.raw as i128 * cos.raw as i128;
        assert!(sum >= one * one - 4 * one - 1 && sum <= one * one + 8 * one);
        raw += 0x3_1415_9265_3589;
    }
    let (sin, cos) = Scalar::non_finite().sin_cos();
    assert!(!sin.is_finite() && !cos.is_finite());
}

#[test]
fn scalar_addition_is_associative_in_range() {
    let (a, b, c) = (s(1.25), s(-7.5), s(100.125));
    assert_eq!((a + b) + c, a + (b + c));
    let (a, b, c) = (Scalar::from_raw(MAX_RAW), Scalar::from_raw(-5), Scalar::from_raw(3));
    assert_eq!((a + b) + c, a + (b + c));
}

#[test]
fn scalar_addition_is_not_associative_across_the_range() {
    let (a, b, c) = (Scalar::from_raw(MAX_RAW), Scalar::from_raw(1), Scalar::from_raw(-1));
    assert!(!((a + b) + c).is_finite());
    assert_eq!(a + (b + c), a);
}

#[test]
fn scalar_and_its_negation_add_to_zero() {
    for x in [0.0, 1.0, -2.5, 32767.99, 1e9, 1e-14] {
        assert_eq!(s(x) + (-s(x)), Scalar::zero());
    }
    assert_eq!(
        Scalar::from_raw(MAX_RAW) + (-Scalar::from_raw(MAX_RAW)),
        Scalar::zero()
    );
}

#[test]
fn sine_is_odd_and_cosine_even() {
    let mut raw: i128 = 1;
    while raw < (1 << 60) {
        let a = Scalar::from_raw(raw);
        assert_eq!((-a).sin(), -a.sin());
        assert_eq!((-a).cos(), a.cos());
        raw = raw * 3 + 12345;
    }
}

#[test]
fn sine_and_cosine_have_the_signs_of_their_quadrants() {
    let quarter = std::f64::consts::FRAC_PI_2;
    for k in 1..100 {
        let x = 0.01 * k as f64;
        assert!(s(x * quarter).sin().raw > 0 && s(x * quarter).cos().raw > 0);
        assert!(s((1.0 + x) * quarter).sin().raw > 0 && s((1.0 + x) * quarter).cos().raw < 0);
        assert!(s((2.0 + x) * quarter).sin().raw < 0 && s((2.0 + x) * quarter).cos().raw < 0);
        assert!(s((3.0 + x) * quarter).sin().raw < 0 && s((3.0 + x) * quarter).cos().raw > 0);
    }
}

#[test]
fn rounded_quotient_rounds_to_nearest_with_ties_away_from_zero() {
    let quotient = |a: i128, b: i128, c: i128, d: i128| {
        rounded_quotient(Signed::product(a, b), Signed::product(c, d))
    };
    assert_eq!(quotient(7, 3, 2, 1), Scalar::from_raw(11));
    assert_eq!(quotient(-7, 3, 2, 1), Scalar::from_raw(-11));
    assert_eq!(quotient(7, 3, -2, 1), Scalar::from_raw(-11));
    assert_eq!(quotient(-7, 3, 2, -1), Scalar::from_raw(11));
    assert_eq!(quotient(10, 1, 4, 1), Scalar::from_raw(3));
    assert_eq!(quotient(9, 1, 4, 1), Scalar::from_raw(2));
    assert_eq!(quotient(0, 5, 4, 1), Scalar::from_raw(0));
    assert_eq!(quotient(0, 5, -4, 1), Scalar::from_raw(0));
    assert!(!quotient(1, 1, 0, 1).is_finite());
    assert_eq!(quotient(MAX_RAW, MAX_RAW, MAX_RAW, 1), Scalar::from_raw(MAX_RAW));
    assert_eq!(quotient(MAX_RAW, -MAX_RAW, MAX_RAW, 1), Scalar::from_raw(-MAX_RAW));
    assert!(!quotient(MAX_RAW, MAX_RAW, MAX_RAW - 1, 1).is_finite());
    assert_eq!(quotient(MAX_RAW, MAX_RAW - 1, MAX_RAW, 1), Scalar::from_raw(MAX_RAW - 1));
}

#[test]
fn rounded_quotient_of_wide_integers() {
    // The cube of the greatest raw value, over its square and over itself.
    let m = MAX_RAW;
    let cube = Signed::product(m, m).times(m);
    assert_eq!(rounded_quotient(cube, Signed::product(m, m)), Scalar::from_raw(m));
    assert_eq!(rounded_quotient(cube, cube), Scalar::from_raw(1));
    let third = Signed::product(1, 1).times_one_squared();
    // 2^96 / (3 2^48) is a third of one.
    assert_eq!(
        rounded_quotient(third, Signed::product(3, 1 << 48)),
        Scalar::from_ratio(1, 3)
    );
    let minor = Signed::minor(5, 7, 6, 6);
    assert!(minor.negative);
    assert!(!minor.is_positive());
    assert!(Signed::minor(6, 6, 5, 7).is_positive());
    assert!(!Signed::minor(6, 6, 9, 4).is_positive());
    assert_eq!(rounded_quotient(minor.times(-30), Signed::product(4, 1)), Scalar::from_raw(8));
    let sum = Signed::product(m, m).plus(Signed::product(-m, m));
    assert_eq!(rounded_quotient(sum, Signed::product(1, 1)), Scalar::from_raw(0));
    let difference = Signed::product(m, m).minus(Signed::product(m, m - 1));
    assert_eq!(rounded_quotient(difference, Signed::product(1, 1)), Scalar::from_raw(m));
}

fn narrow(v: Wide) -> u128 {
    assert_eq!((v.l2, v.l3, v.l4), (0, 0, 0));
    (v.l1 as u128) << 64 | v.l0 as u128
}

#[test]
fn wide_arithmetic_agrees_with_the_machine() {
    let mut seed: u64 = 0x2545_f491_4f6c_dd1d;
    let mut next = || {
        seed = seed.wrapping_mul(6364136223846793005).wrapping_add(1442695040888963407);
        seed >> 4
    };
    for _ in 0..2000 {
        let (a, b) = (next() as u128 | (next() as u128) << 50, next() as u128);
        let m = next() & 0xffff_ffff;
        assert_eq!(narrow(Wide::from_u128(a)), a);
        assert_eq!(narrow(Wide::from_u128(b).times(m)), b * m as u128);
        assert_eq!(narrow(Wide::from_u128(a).plus(Wide::from_u128(b))), a + b);
        assert_eq!(Wide::from_u128(a).le(Wide::from_u128(b)), a <= b);
        assert_eq!(Wide::from_u128(b).le(Wide::from_u128(a)), b <= a);
        assert!(Wide::from_u128(a).le(Wide::from_u128(a)));
        let (hi, lo) = if a < b { (b, a) } else { (a, b) };
        assert_eq!(narrow(Wide::from_u128(hi).minus(Wide::from_u128(lo))), hi - lo);
        assert_eq!(narrow(Wide::from_u128(m as u128).shifted()), (m as u128) << 64);
        assert_eq!(narrow(Wide::from_u128(b >> 8).times_wide(a >> 60)), (b >> 8) * (a >> 60));
    }
    // Carries run through all five limbs.
    let top = Wide::from_u128(u128::MAX).shifted().shifted();
    assert_eq!((top.l0, top.l1, top.l2, top.l3, top.l4), (0, 0, u64::MAX, u64::MAX, 0));
    let sum = top.plus(Wide::from_u128(u128::MAX)).plus(Wide::from_u128(1));
    assert_eq!((sum.l0, sum.l1, sum.l2, sum.l3, sum.l4), (0, 0, 0, 0, 1));
    let back = sum.minus(Wide::from_u128(1));
    assert_eq!(
        (back.l0, back.l1, back.l2, back.l3, back.l4),
        (u64::MAX, u64::MAX, u64::MAX, u64::MAX, 0)
    );
    assert!(back.le(sum) && !sum.le(back));
}

#[test]
fn rounded_quotient_agrees_with_the_machine() {
    let mut seed: u64 = 0x9e37_79b9_7f4a_7c15;
    let mut next = |bits: u32| {
        seed = seed.wrapping_mul(6364136223846793005).wrapping_add(1442695040888963407);
        let v = (seed >> 8) as i128 & ((1 << bits) - 1);
        if seed & 0x80 == 0 { v } else { -v }
    };
    for _ in 0..2000 {
        let (a, b, c, d) = (next(50), next(50), next(30), next(20));
        let n = a * b;
        let m = c * d;
        let got = rounded_quotient(Signed::product(a, b), Signed::product(c, d));
        if m == 0 {
            assert!(!got.is_finite());
            continue;
        }
        let (pn, pm) = (n.abs(), m.abs());
        let q = (2 * pn + pm) / (2 * pm);
        let expected = if (n < 0) != (m < 0) { -q } else { q };
        if q > MAX_RAW {
            assert!(!got.is_finite());
        } else {
            assert_eq!(got, Scalar::from_raw(expected));
        }
        let (a, b) = (a >> 12, b >> 12);
        assert_eq!(
            rounded_quotient(Signed::minor(a, b, c, d), Signed::product(1, 1)),
            Scalar::from_raw(a * b - c * d)
        );
    }
}
