use adcs::{AngularVelocity, Quaternion, Scalar};

const ONE: f64 = 281474976710656.0;

fn s(x: f64) -> Scalar {
    Scalar::from_raw((x * ONE).round() as i128)
}

fn f(x: Scalar) -> f64 {
    assert!(x.is_finite());
    x.raw as f64 / ONE
}

fn q(w: f64, x: f64, y: f64, z: f64) -> Quaternion {
    Quaternion::new(s(w), s(x), s(y), s(z))
}

fn close(a: Quaternion, b: Quaternion, tolerance: f64) -> bool {
    (f(a.w) - f(b.w)).abs() <= tolerance
        && (f(a.x) - f(b.x)).abs() <= tolerance
        && (f(a.y) - f(b.y)).abs() <= tolerance
        && (f(a.z) - f(b.z)).abs() <= tolerance
}

#[test]
fn constructors_fill_the_parts() {
    let a = q(1.0, 2.0, 3.0, 4.0);
    assert_eq!((a.w, a.x, a.y, a.z), (s(1.0), s(2.0), s(3.0), s(4.0)));
    assert_eq!(Quaternion::unit(), q(1.0, 0.0, 0.0, 0.0));
    assert_eq!(Quaternion::from_vector(s(2.0), s(3.0), s(4.0)), q(0.0, 2.0, 3.0, 4.0));
    assert_eq!(a.get_scalar(), s(1.0));
    assert_eq!(a.get_vector(), (s(2.0), s(3.0), s(4.0)));
}

#[test]
fn sum_difference_negation_and_scaling_are_partwise() {
    let a = q(1.0, 2.0, 3.0, 4.0);
    let b = q(0.5, -1.0, 8.0, -0.25);
    assert_eq!(a + b, q(1.5, 1.0, 11.0, 3.75));
    assert_eq!(a - b, q(0.5, 3.0, -5.0, 4.25));
    assert_eq!(-a, q(-1.0, -2.0, -3.0, -4.0));
    assert_eq!(a.scale(s(-2.5)), q(-2.5, -5.0, -7.5, -10.0));
}

#[test]
fn hamilton_product_of_whole_quaternions() {
    let a = q(1.0, 2.0, 3.0, 4.0);
    let b = q(5.0, 6.0, 7.0, 8.0);
    assert_eq!(a * b, q(-60.0, 12.0, 30.0, 24.0));
    assert_eq!(b * a, q(-60.0, 20.0, 14.0, 32.0));
}

#[test]
fn basis_quaternions_multiply_as_hamilton_found() {
    let i = q(0.0, 1.0, 0.0, 0.0);
    let j = q(0.0, 0.0, 1.0, 0.0);
    let k = q(0.0, 0.0, 0.0, 1.0);
    let minus_one = q(-1.0, 0.0, 0.0, 0.0);
    assert_eq!(i * i, minus_one);
    assert_eq!(j * j, minus_one);
    assert_eq!(k * k, minus_one);
    assert_eq!(i * j, k);
    assert_eq!(j * k, i);
    assert_eq!(k * i, j);
    assert_eq!(j * i, -k);
    assert_eq!(k * j, -i);
    assert_eq!(i * k, -j);
    assert_eq!(i * j * k, minus_one);
    assert_ne!(i * j, j * i);
}

#[test]
fn unit_is_the_identity_of_the_product() {
    for a in [q(0.3, -0.1, 7.25, 1e-9), q(-100.0, 200.5, 0.0, 32000.0)] {
        assert_eq!(a * Quaternion::unit(), a);
        assert_eq!(Quaternion::unit() * a, a);
    }
}

#[test]
fn product_is_associative_on_whole_quaternions() {
    let a = q(1.0, -2.0, 3.0, 4.0);
    let b = q(5.0, 6.0, -7.0, 8.0);
    let c = q(-2.0, 1.0, 0.0, 3.0);
    assert_eq!((a * b) * c, a * (b * c));
}

#[test]
fn product_is_associative_within_tolerance() {
    let a = q(0.1, -0.7, 0.3, 0.64).normalize();
    let b = q(0.9, 0.2, -0.1, 0.37).normalize();
    let c = q(-0.5, 0.5, 0.11, 0.7).normalize();
    assert!(close((a * b) * c, a * (b * c), 1e-9));
}

#[test]
fn addition_is_associative_and_has_inverses() {
    let a = q(0.1, -0.7, 0.3, 0.64);
    let b = q(0.9, 0.2, -0.1, 0.37);
    let c = q(-0.5, 0.5, 0.11, 0.7);
    assert_eq!((a + b) + c, a + (b + c));
    assert_eq!(a + (-a), q(0.0, 0.0, 0.0, 0.0));
}

#[test]
fn norm_is_the_root_of_the_sum_of_squares() {
    assert_eq!(q(1.0, 2.0, 2.0, 4.0).norm(), s(5.0));
    assert_eq!(q(0.0, 3.0, 0.0, -4.0).norm(), s(5.0));
    assert_eq!(Quaternion::unit().norm(), s(1.0));
    assert_eq!(q(0.0, 0.0, 0.0, 0.0).norm(), s(0.0));
    assert!((f(q(1.0, 1.0, 1.0, 1.0).norm()) - 2.0).abs() < 1e-14);
    assert!((f(q(0.1, 0.2, 0.3, 0.4).norm()) - 0.3f64.sqrt()).abs() < 1e-14);
    // The squares are summed exactly: no part overflows on the way.
    assert_eq!(q(20000.0, 0.0, 0.0, 0.0).norm(), s(20000.0));
    assert_eq!(q(20000.0, 20000.0, 20000.0, 20000.0).norm(), s(40000.0));
    assert_eq!(q(3e8, 0.0, 4e8, 0.0).norm(), s(5e8));
    assert!(!q(1e9, 1e9, 1e9, 1e9).norm().is_finite());
    assert!(!Quaternion::new(Scalar::non_finite(), s(0.0), s(0.0), s(0.0)).norm().is_finite());
}

#[test]
fn normalize_divides_by_the_norm() {
    assert_eq!(q(0.0, 3.0, 0.0, -4.0).normalize(), q(0.0, 0.6, 0.0, -0.8));
    assert_eq!(q(2.0, 0.0, 0.0, 0.0).normalize(), Quaternion::unit());
    assert_eq!(q(-0.125, 0.0, 0.0, 0.0).normalize(), q(-1.0, 0.0, 0.0, 0.0));
    assert_eq!(q(1.0, 1.0, 1.0, 1.0).normalize(), q(0.5, 0.5, 0.5, 0.5));
}

#[test]
fn normalize_of_zero_is_non_finite() {
    let n = q(0.0, 0.0, 0.0, 0.0).normalize();
    assert!(!n.w.is_finite() && !n.x.is_finite() && !n.y.is_finite() && !n.z.is_finite());
}

#[test]
fn normalize_gives_norm_one_and_is_idempotent() {
    for a in [
        q(0.1, -0.7, 0.3, 0.64),
        q(100.0, -2000.0, 3.0, 0.5),
        q(1e-4, 0.0, 0.0, 1e-4),
        q(1e-3, -2e-3, 5e-4, 0.0),
    ] {
        let n = a.normalize();
        assert!((f(n.norm()) - 1.0).abs() < 1e-10);
        assert!(close(n.normalize(), n, 1e-9));
    }
}

#[test]
fn inverse_is_the_conjugate_over_the_squared_norm() {
    assert_eq!(q(0.0, 2.0, 0.0, 0.0).inv(), q(0.0, -0.5, 0.0, 0.0));
    assert_eq!(q(1.0, 1.0, 1.0, 1.0).inv(), q(0.25, -0.25, -0.25, -0.25));
    assert_eq!(Quaternion::unit().inv(), Quaternion::unit());
    let z = q(0.0, 0.0, 0.0, 0.0).inv();
    assert!(!z.w.is_finite() && !z.x.is_finite());
}

#[test]
fn unit_quaternion_times_its_inverse_is_the_unit() {
    for a in [q(0.1, -0.7, 0.3, 0.64), q(0.9, 0.2, -0.1, 0.37), q(0.0, 0.0, 1.0, 0.0)] {
        let n = a.normalize();
        assert!(close(n * n.inv(), Quaternion::unit(), 1e-9));
        assert!(close(n.inv() * n, Quaternion::unit(), 1e-9));
    }
}

#[test]
fn diff_is_half_the_product_with_the_rate() {
    let a = q(1.0, 2.0, 3.0, 4.0);
    let w = AngularVelocity::new(s(2.0), s(-4.0), s(6.0));
    // (1, 2, 3, 4) (0, 2, -4, 6) = (-16, 36, -8, -8)
    assert_eq!(a.diff(w), q(-8.0, 18.0, -4.0, -4.0));
    let rest = AngularVelocity::new(s(0.0), s(0.0), s(0.0));
    assert_eq!(a.diff(rest), q(0.0, 0.0, 0.0, 0.0));
    let spin = AngularVelocity::new(s(0.0), s(0.0), s(1.0));
    assert_eq!(Quaternion::unit().diff(spin), q(0.0, 0.0, 0.0, 0.5));
}

#[test]
fn from_rotation_is_the_half_angle_form() {
    let pi = std::f64::consts::PI;
    let a = Quaternion::from_rotation(s(pi / 3.0), s(1.0), s(1.0), s(0.0));
    let (c, sn) = ((pi / 6.0).cos(), (pi / 6.0).sin());
    let r = 0.5f64.sqrt();
    assert!((f(a.w) - c).abs() < 1e-13);
    assert!((f(a.x) - sn * r).abs() < 1e-13);
    assert!((f(a.y) - sn * r).abs() < 1e-13);
    assert_eq!(a.z, s(0.0));
    let b = Quaternion::from_rotation(s(0.0), s(0.0), s(0.0), s(5.0));
    assert_eq!(b, Quaternion::unit());
    let turn = Quaternion::from_rotation(s(pi), s(0.0), s(0.0), s(-2.0));
    assert!(close(turn, q(0.0, 0.0, 0.0, -1.0), 1e-13));
}

#[test]
fn from_rotation_has_norm_one() {
    let mut angle = -7.0;
    while angle < 7.0 {
        for axis in [(1.0, 0.0, 0.0), (1.0, 1.0, 0.0), (-0.3, 0.2, 5.0), (1e-3, 2e-3, -1e-3)] {
            let a = Quaternion::from_rotation(s(angle), s(axis.0), s(axis.1), s(axis.2));
            assert!((f(a.norm()) - 1.0).abs() < 1e-9, "{} {:?}", angle, axis);
        }
        angle += 0.37;
    }
}

#[test]
fn from_rotation_about_no_axis_is_non_finite() {
    let a = Quaternion::from_rotation(s(1.0), s(0.0), s(0.0), s(0.0));
    assert!(a.w.is_finite());
    assert!(!a.x.is_finite() && !a.y.is_finite() && !a.z.is_finite());
}

#[test]
fn validate_accepts_unit_quaternions_only() {
    assert!(Quaternion::unit().validate());
    assert!(q(0.5, 0.5, 0.5, 0.5).validate());
    assert!(q(0.1, -0.7, 0.3, 0.64).normalize().validate());
    assert!(Quaternion::from_rotation(s(1.0), s(1.0), s(2.0), s(3.0)).validate());
    assert!(!q(0.0, 0.0, 0.0, 0.0).validate());
    assert!(!q(1.0, 1.0, 0.0, 0.0).validate());
    assert!(!q(1.000001, 0.0, 0.0, 0.0).validate());
    assert!(!q(0.999999, 0.0, 0.0, 0.0).validate());
    assert!(q(1.0 + 9e-11, 0.0, 0.0, 0.0).validate());
    assert!(!q(1.0 + 1.1e-10, 0.0, 0.0, 0.0).validate());
    assert!(!Quaternion::new(s(1.0), Scalar::non_finite(), s(0.0), s(0.0)).validate());
}

fn parts(a: Quaternion) -> [i128; 4] {
    [a.w.raw, a.x.raw, a.y.raw, a.z.raw]
}

fn furthest(a: Quaternion, b: Quaternion) -> i128 {
    let (a, b) = (parts(a), parts(b));
    (0..4).map(|i| (a[i] - b[i]).abs()).max().unwrap()
}

#[test]
fn rounding_stays_within_the_proven_bounds() {
    let mut seed: u64 = 0x2545_f491_4f6c_dd1d;
    let mut next = |scale: f64| {
        seed = seed.wrapping_mul(6364136223846793005).wrapping_add(1442695040888963407);
        ((seed >> 11) as f64 / (1u64 << 53) as f64 * 2.0 - 1.0) * scale
    };
    for _ in 0..2000 {
        let a = q(next(2.0), next(2.0), next(2.0), next(2.0));
        let b = q(next(2.0), next(2.0), next(2.0), next(2.0));
        let c = q(next(2.0), next(2.0), next(2.0), next(2.0));
        assert!(furthest((a * b) * c, a * (b * c)) <= 36);
        let n = a.normalize();
        if a.norm().raw >= 1 << 34 {
            assert!(n.validate());
            assert!(furthest(n.normalize(), n) <= 28148);
            assert!(furthest(n * n.inv(), Quaternion::unit()) <= 13);
            assert!(parts(n).iter().all(|p| p.abs() <= 1 << 48));
        }
        let r = Quaternion::from_rotation(s(next(100.0)), a.x, a.y, a.z);
        if Quaternion::from_vector(a.x, a.y, a.z).norm().raw >= 1 << 34 {
            assert!(r.validate());
        }
    }
}

#[test]
fn tiny_quaternions_normalize_to_units() {
    let tiny = Quaternion::new(
        Scalar::from_raw(1 << 34),
        Scalar::from_raw(0),
        Scalar::from_raw(-3),
        Scalar::from_raw(5),
    );
    assert!(tiny.normalize().validate());
    let huge = q(16000.0, -16000.0, 16000.0, 16000.0);
    assert!(huge.normalize().validate());
    let wide = q(30000.0, 30000.0, 0.0, 0.0).normalize();
    assert!(wide.validate());
    assert!((f(wide.w) - 0.5f64.sqrt()).abs() < 1e-12);
    assert!((f(wide.x) - 0.5f64.sqrt()).abs() < 1e-12);
    assert!(close(wide.normalize(), wide, 1e-9));
    let widest = q(5e8, -5e8, 5e8, 5e8).normalize();
    assert!(widest.validate());
}

#[test]
fn large_parts_stay_finite() {
    let p = q(1000.0, 0.0, 0.0, 0.0);
    assert_eq!(p * p, q(1_000_000.0, 0.0, 0.0, 0.0));
    assert_eq!((p * p).norm(), s(1_000_000.0));
    let a = Quaternion::from_rotation(s(0.0), s(30000.0), s(30000.0), s(0.0));
    assert_eq!(a, Quaternion::unit());
    let d = q(200.0, 0.0, 0.0, 0.0).diff(AngularVelocity::new(s(200.0), s(0.0), s(0.0)));
    assert_eq!(d, q(0.0, 20000.0, 0.0, 0.0));
    let (a, b, c) = (q(30000.0, 1.0, 2.0, 3.0), q(30000.0, 1.0, 2.0, 3.0), q(-30000.0, 0.0, 0.0, 0.0));
    assert_eq!((a + b) + c, a + (b + c));
    assert_eq!(((a + b) + c).w, s(30000.0));
}

#[test]
fn derivative_is_orthogonal_and_norm_is_multiplicative() {
    let mut seed: u64 = 0x0123_4567_89ab_cdef;
    let mut next = |scale: f64| {
        seed = seed.wrapping_mul(6364136223846793005).wrapping_add(1442695040888963407);
        ((seed >> 11) as f64 / (1u64 << 53) as f64 * 2.0 - 1.0) * scale
    };
    for _ in 0..1000 {
        let a = q(next(4.0), next(4.0), next(4.0), next(4.0));
        let b = q(next(100.0), next(100.0), next(100.0), next(100.0));
        let w = AngularVelocity::new(s(next(200.0)), s(next(200.0)), s(next(200.0)));
        let d = a.diff(w);
        let dot: i128 = (0..4).map(|i| parts(a)[i] * parts(d)[i]).sum();
        assert!(dot.abs() <= 6 * (4i128 << 48));
        let product = (a * b).norm().raw;
        let norms = (a.norm() * b.norm()).raw;
        assert!(((product - norms).abs() << 48) <= (9i128 << 48) + a.norm().raw + b.norm().raw);
    }
}
