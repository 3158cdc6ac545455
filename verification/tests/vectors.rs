use adcs::{AngularMomentum, AngularVelocity, Inertia, Quaternion, Scalar, Torque};

const ONE: f64 = 281474976710656.0;

fn s(x: f64) -> Scalar {
    Scalar::from_raw((x * ONE).round() as i128)
}

fn f(x: Scalar) -> f64 {
    assert!(x.is_finite());
    x.raw as f64 / ONE
}

fn w(x: f64, y: f64, z: f64) -> AngularVelocity {
    AngularVelocity::new(s(x), s(y), s(z))
}

fn t(x: f64, y: f64, z: f64) -> Torque {
    Torque::new(s(x), s(y), s(z))
}

fn h(x: f64, y: f64, z: f64) -> AngularMomentum {
    AngularMomentum::new(s(x), s(y), s(z))
}

fn length(v: AngularVelocity) -> f64 {
    (f(v.x) * f(v.x) + f(v.y) * f(v.y) + f(v.z) * f(v.z)).sqrt()
}

#[test]
fn angular_velocity_arithmetic_is_coordinatewise() {
    let a = w(1.0, -2.0, 3.5);
    let b = w(0.25, 4.0, -1.0);
    assert_eq!((a.x, a.y, a.z), (s(1.0), s(-2.0), s(3.5)));
    assert_eq!(a + b, w(1.25, 2.0, 2.5));
    assert_eq!(a - b, w(0.75, -6.0, 4.5));
    assert_eq!(-a, w(-1.0, 2.0, -3.5));
    assert_eq!(a.scale(s(2.0)), w(2.0, -4.0, 7.0));
    assert_eq!(a.scale(s(0.0)), w(0.0, 0.0, 0.0));
}

#[test]
fn torque_arithmetic_is_coordinatewise() {
    let a = t(1.0, -2.0, 3.5);
    let b = t(0.25, 4.0, -1.0);
    assert_eq!(Torque::zero(), t(0.0, 0.0, 0.0));
    assert_eq!(a + b, t(1.25, 2.0, 2.5));
    assert_eq!(a - b, t(0.75, -6.0, 4.5));
    assert_eq!(-a, t(-1.0, 2.0, -3.5));
    assert_eq!(a.scale(s(-0.5)), t(-0.5, 1.0, -1.75));
    assert_eq!(a + Torque::zero(), a);
}

#[test]
fn angular_momentum_arithmetic_is_coordinatewise() {
    let a = h(1.0, -2.0, 3.5);
    let b = h(0.25, 4.0, -1.0);
    assert_eq!(AngularMomentum::zero(), h(0.0, 0.0, 0.0));
    assert_eq!(a + b, h(1.25, 2.0, 2.5));
    assert_eq!(a - b, h(0.75, -6.0, 4.5));
    assert_eq!(-a, h(-1.0, 2.0, -3.5));
    assert_eq!(a.scale(s(4.0)), h(4.0, -8.0, 14.0));
}

#[test]
fn vector_addition_is_associative_and_has_inverses() {
    let (a, b, c) = (w(0.1, 0.2, 0.3), w(-5.0, 7.5, 1e-9), w(100.0, -200.0, 300.0));
    assert_eq!((a + b) + c, a + (b + c));
    assert_eq!(a + (-a), w(0.0, 0.0, 0.0));
    let (a, b, c) = (t(0.1, 0.2, 0.3), t(-5.0, 7.5, 1e-9), t(100.0, -200.0, 300.0));
    assert_eq!((a + b) + c, a + (b + c));
    assert_eq!(a + (-a), Torque::zero());
    let (a, b, c) = (h(0.1, 0.2, 0.3), h(-5.0, 7.5, 1e-9), h(100.0, -200.0, 300.0));
    assert_eq!((a + b) + c, a + (b + c));
    assert_eq!(a + (-a), AngularMomentum::zero());
}

#[test]
fn product_is_the_voigt_matrix_vector_product() {
    let j = Inertia::new(s(1.0), s(2.0), s(3.0), s(4.0), s(5.0), s(6.0));
    let v = w(1.0, 10.0, 100.0);
    // [[1 6 5] [6 2 4] [5 4 3]] (1, 10, 100)
    assert_eq!(AngularMomentum::product(j, v), h(561.0, 426.0, 345.0));
    let diagonal = Inertia::new(s(2.0), s(1.0), s(3.0), s(0.0), s(0.0), s(0.0));
    assert_eq!(AngularMomentum::product(diagonal, w(0.5, 1.0, -0.25)), h(1.0, 1.0, -0.75));
}

#[test]
fn inertia_keeps_its_entries() {
    let j = Inertia::new(s(1.0), s(2.0), s(3.0), s(4.0), s(5.0), s(6.0));
    assert_eq!(
        (j.j1, j.j2, j.j3, j.j4, j.j5, j.j6),
        (s(1.0), s(2.0), s(3.0), s(4.0), s(5.0), s(6.0))
    );
}

#[test]
fn diff_solves_eulers_equations_on_a_diagonal_inertia() {
    let j = Inertia::new(s(1.0), s(2.0), s(4.0), s(0.0), s(0.0), s(0.0));
    let rate = w(1.0, 2.0, 3.0);
    // J w = (1, 4, 12); w x J w = (12, -9, 2); t - w x J w = (-11, 10, -1).
    assert_eq!(rate.diff(j, t(1.0, 1.0, 1.0)), w(-11.0, 5.0, -0.25));
    assert_eq!(w(0.0, 0.0, 0.0).diff(j, t(1.0, 2.0, 4.0)), w(1.0, 1.0, 1.0));
}

#[test]
fn diff_inverts_a_full_inertia() {
    // det = 2 (6 - 1) + 1 (0 - 3) + 0 = 7; the inverse is
    // [[5 -3 1] [-3 6 -2] [1 -2 3]] / 7.
    let j = Inertia::new(s(2.0), s(2.0), s(3.0), s(1.0), s(0.0), s(1.0));
    let got = w(0.0, 0.0, 0.0).diff(j, t(7.0, 0.0, 0.0));
    assert!((f(got.x) - 5.0).abs() < 1e-13);
    assert!((f(got.y) + 3.0).abs() < 1e-13);
    assert!((f(got.z) - 1.0).abs() < 1e-13);
    let got = w(0.0, 0.0, 0.0).diff(j, t(0.0, 7.0, 14.0));
    assert!((f(got.x) + 1.0).abs() < 1e-13);
    assert!((f(got.y) - 2.0).abs() < 1e-13);
    assert!((f(got.z) - 4.0).abs() < 1e-13);
}

#[test]
fn diff_agrees_with_the_formula_in_floating_point() {
    let (j1, j2, j3, j4, j5, j6) = (2.0, 1.5, 3.0, 0.1, -0.2, 0.3);
    let (wx, wy, wz) = (0.1, 1.0, -0.4);
    let (tx, ty, tz) = (0.5, -0.25, 2.0);
    let hx = j1 * wx + j6 * wy + j5 * wz;
    let hy = j6 * wx + j2 * wy + j4 * wz;
    let hz = j5 * wx + j4 * wy + j3 * wz;
    let (ex, ey, ez) = (
        tx - (wy * hz - wz * hy),
        ty - (wz * hx - wx * hz),
        tz - (wx * hy - wy * hx),
    );
    let det = j1 * (j2 * j3 - j4 * j4) + j6 * (j4 * j5 - j3 * j6) + j5 * (j4 * j6 - j2 * j5);
    let i1 = (j2 * j3 - j4 * j4) / det;
    let i2 = (j1 * j3 - j5 * j5) / det;
    let i3 = (j1 * j2 - j6 * j6) / det;
    let i4 = (j5 * j6 - j1 * j4) / det;
    let i5 = (j4 * j6 - j2 * j5) / det;
    let i6 = (j5 * j4 - j3 * j6) / det;
    let want = (
        i1 * ex + i6 * ey + i5 * ez,
        i6 * ex + i2 * ey + i4 * ez,
        i5 * ex + i4 * ey + i3 * ez,
    );
    let j = Inertia::new(s(j1), s(j2), s(j3), s(j4), s(j5), s(j6));
    let got = w(wx, wy, wz).diff(j, t(tx, ty, tz));
    assert!((f(got.x) - want.0).abs() < 1e-12);
    assert!((f(got.y) - want.1).abs() < 1e-12);
    assert!((f(got.z) - want.2).abs() < 1e-12);
}

#[test]
fn diff_with_a_singular_inertia_is_non_finite() {
    let j = Inertia::new(s(1.0), s(1.0), s(0.0), s(0.0), s(0.0), s(0.0));
    let got = w(0.0, 0.0, 0.0).diff(j, t(1.0, 1.0, 1.0));
    assert!(!got.x.is_finite() && !got.y.is_finite() && !got.z.is_finite());
}

#[test]
fn rotate_by_quarter_turns() {
    let half = 0.5f64.sqrt();
    let about_z = Quaternion::new(s(half), s(0.0), s(0.0), s(half));
    let got = w(1.0, 0.0, 0.0).rotate(about_z);
    assert!(f(got.x).abs() < 1e-13);
    assert!((f(got.y) - 1.0).abs() < 1e-13);
    assert!(f(got.z).abs() < 1e-13);
    let got = t(0.0, 2.0, 5.0).rotate(about_z);
    assert!((f(got.x) + 2.0).abs() < 1e-13);
    assert!(f(got.y).abs() < 1e-13);
    assert!((f(got.z) - 5.0).abs() < 1e-13);
    let got = h(1.0, 2.0, 3.0).rotate(Quaternion::unit());
    assert_eq!(got, h(1.0, 2.0, 3.0));
}

#[test]
fn rotate_by_half_turns_is_exact() {
    let about_x = Quaternion::new(s(0.0), s(1.0), s(0.0), s(0.0));
    assert_eq!(w(1.0, 2.0, 3.0).rotate(about_x), w(1.0, -2.0, -3.0));
    assert_eq!(t(1.0, 2.0, 3.0).rotate(about_x), t(1.0, -2.0, -3.0));
    assert_eq!(h(1.0, 2.0, 3.0).rotate(about_x), h(1.0, -2.0, -3.0));
}

#[test]
fn rotate_preserves_length() {
    let pi = std::f64::consts::PI;
    for (angle, axis) in [
        (0.3, (1.0, 0.0, 0.0)),
        (pi / 3.0, (1.0, 1.0, 0.0)),
        (-2.0, (0.2, -0.5, 0.8)),
        (5.5, (-1.0, 2.0, 3.0)),
    ] {
        let q = Quaternion::from_rotation(s(angle), s(axis.0), s(axis.1), s(axis.2));
        for v in [w(1.0, 0.0, 0.0), w(0.3, -0.4, 1.2), w(-10.0, 20.0, 5.0)] {
            assert!((length(v.rotate(q)) - length(v)).abs() < 1e-9);
        }
    }
}

#[test]
fn diff_satisfies_eulers_equations() {
    let (j1, j2, j3, j4, j5, j6) = (2.0, 1.5, 3.0, 0.1, -0.2, 0.3);
    let j = Inertia::new(s(j1), s(j2), s(j3), s(j4), s(j5), s(j6));
    let rate = w(0.1, 1.0, -0.4);
    let torque = (0.5, -0.25, 2.0);
    let a = rate.diff(j, t(torque.0, torque.1, torque.2));
    // J a + w x (J w) = t
    let apply = |v: (f64, f64, f64)| {
        (
            j1 * v.0 + j6 * v.1 + j5 * v.2,
            j6 * v.0 + j2 * v.1 + j4 * v.2,
            j5 * v.0 + j4 * v.1 + j3 * v.2,
        )
    };
    let (wx, wy, wz) = (f(rate.x), f(rate.y), f(rate.z));
    let h = apply((wx, wy, wz));
    let ja = apply((f(a.x), f(a.y), f(a.z)));
    assert!((ja.0 + (wy * h.2 - wz * h.1) - torque.0).abs() < 1e-12);
    assert!((ja.1 + (wz * h.0 - wx * h.2) - torque.1).abs() < 1e-12);
    assert!((ja.2 + (wx * h.1 - wy * h.0) - torque.2).abs() < 1e-12);
}

#[test]
fn validate_accepts_positive_definite_inertias_only() {
    let zero = s(0.0);
    assert!(Inertia::new(s(1.0), s(1.0), s(1.0), zero, zero, zero).validate());
    assert!(Inertia::new(s(2.0), s(2.0), s(3.0), s(1.0), zero, s(1.0)).validate());
    assert!(!Inertia::new(s(1.0), s(1.0), zero, zero, zero, zero).validate());
    assert!(!Inertia::new(s(-1.0), s(1.0), s(1.0), zero, zero, zero).validate());
    assert!(!Inertia::new(s(1.0), s(-1.0), s(1.0), zero, zero, zero).validate());
    assert!(!Inertia::new(s(1.0), s(1.0), s(-1.0), zero, zero, zero).validate());
    assert!(!Inertia::new(s(1.0), s(1.0), s(1.0), zero, zero, s(2.0)).validate());
    assert!(!Inertia::new(s(1.0), s(1.0), s(1.0), s(2.0), zero, zero).validate());
    assert!(!Inertia::new(Scalar::non_finite(), s(1.0), s(1.0), zero, zero, zero).validate());
    assert!(Inertia::new(s(30000.0), s(30000.0), s(1.0), zero, zero, zero).validate());
    assert!(Inertia::new(s(30000.0), s(30000.0), s(30000.0), zero, zero, zero).validate());
}

#[test]
fn rotate_changes_the_length_by_few_raw_units() {
    let mut seed: u64 = 0x9e37_79b9_7f4a_7c15;
    let mut next = |scale: f64| {
        seed = seed.wrapping_mul(6364136223846793005).wrapping_add(1442695040888963407);
        ((seed >> 11) as f64 / (1u64 << 53) as f64 * 2.0 - 1.0) * scale
    };
    for _ in 0..2000 {
        let q = Quaternion::new(s(next(1.0)), s(next(1.0)), s(next(1.0)), s(next(1.0))).normalize();
        if !q.validate() {
            continue;
        }
        let v = w(next(128.0), next(128.0), next(128.0));
        let r = v.rotate(q);
        let before = Quaternion::from_vector(v.x, v.y, v.z).norm().raw;
        let after = Quaternion::from_vector(r.x, r.y, r.z).norm().raw;
        assert!((after - before).abs() <= 13927);
    }
}

#[test]
fn diff_leaves_a_small_residual_of_eulers_equations() {
    let mut seed: u64 = 0x1234_5678_9abc_def1;
    let mut next = |scale: f64| {
        seed = seed.wrapping_mul(6364136223846793005).wrapping_add(1442695040888963407);
        ((seed >> 11) as f64 / (1u64 << 53) as f64 * 2.0 - 1.0) * scale
    };
    let mut checked = 0;
    while checked < 500 {
        let j = Inertia::new(
            s(2.5 + next(1.5)),
            s(2.5 + next(1.5)),
            s(2.5 + next(1.5)),
            s(next(0.5)),
            s(next(0.5)),
            s(next(0.5)),
        );
        let rate = w(next(2.0), next(2.0), next(2.0));
        let torque = t(next(4.0), next(4.0), next(4.0));
        let a = rate.diff(j, torque);
        let apply = |v: (f64, f64, f64)| {
            (
                f(j.j1) * v.0 + f(j.j6) * v.1 + f(j.j5) * v.2,
                f(j.j6) * v.0 + f(j.j2) * v.1 + f(j.j4) * v.2,
                f(j.j5) * v.0 + f(j.j4) * v.1 + f(j.j3) * v.2,
            )
        };
        let (wx, wy, wz) = (f(rate.x), f(rate.y), f(rate.z));
        let h = apply((wx, wy, wz));
        let ja = apply((f(a.x), f(a.y), f(a.z)));
        let bound = 3669.0 / ONE + 1e-13;
        assert!((ja.0 + (wy * h.2 - wz * h.1) - f(torque.x)).abs() <= bound);
        assert!((ja.1 + (wz * h.0 - wx * h.2) - f(torque.y)).abs() <= bound);
        assert!((ja.2 + (wx * h.1 - wy * h.0) - f(torque.z)).abs() <= bound);
        checked += 1;
    }
}

#[test]
fn diff_with_a_large_inertia() {
    let j = Inertia::new(s(100.0), s(100.0), s(100.0), s(0.0), s(0.0), s(0.0));
    assert_eq!(w(0.0, 0.0, 1.0).diff(j, t(0.0, 0.0, 0.0)), w(0.0, 0.0, 0.0));
    assert_eq!(w(0.0, 0.0, 1.0).diff(j, t(0.0, 0.0, 1.0)), w(0.0, 0.0, 0.01));
    assert_eq!(AngularMomentum::product(j, w(0.0, 0.0, 1.0)), h(0.0, 0.0, 100.0));
    let (a, b, c) = (w(30000.0, 1.0, 2.0), w(30000.0, 1.0, 2.0), w(-30000.0, 0.0, 0.0));
    assert_eq!((a + b) + c, a + (b + c));
    let (a, b, c) = (t(30000.0, 1.0, 2.0), t(30000.0, 1.0, 2.0), t(-30000.0, 0.0, 0.0));
    assert_eq!((a + b) + c, a + (b + c));
    let (a, b, c) = (h(30000.0, 1.0, 2.0), h(30000.0, 1.0, 2.0), h(-30000.0, 0.0, 0.0));
    assert_eq!((a + b) + c, a + (b + c));
}

#[test]
fn diff_with_inertias_far_from_one() {
    let zero = s(0.0);
    let heavy = Inertia::new(s(1.0e6), s(1.0e6), s(1.0e6), zero, zero, zero);
    let a = w(0.0, 0.0, 0.0).diff(heavy, t(0.0, 0.0, 1.0e6));
    assert!((f(a.z) - 1.0).abs() <= 1.0e-8);
    assert_eq!((a.x, a.y), (zero, zero));
    let a = w(0.0, 0.0, 0.0).diff(heavy, t(3.0, -2.0, 1.0));
    assert!((f(a.x) - 3.0e-6).abs() <= 1.0e-14);
    assert!((f(a.y) + 2.0e-6).abs() <= 1.0e-14);
    assert!((f(a.z) - 1.0e-6).abs() <= 1.0e-14);
    let light = Inertia::new(s(0.001), s(0.001), s(0.001), zero, zero, zero);
    let a = w(0.0, 0.0, 0.0).diff(light, t(0.001, 0.002, -0.004));
    assert!((f(a.x) - 1.0).abs() <= 1.0e-11);
    assert!((f(a.y) - 2.0).abs() <= 1.0e-11);
    assert!((f(a.z) + 4.0).abs() <= 1.0e-11);
    let mixed = Inertia::new(s(1000.0), s(0.001), s(1.0), zero, zero, zero);
    let a = w(0.0, 0.0, 0.0).diff(mixed, t(1000.0, 0.001, 1.0));
    assert!((f(a.x) - 1.0).abs() <= 1.0e-11);
    assert!((f(a.y) - 1.0).abs() <= 1.0e-11);
    assert!((f(a.z) - 1.0).abs() <= 1.0e-11);
}

#[test]
fn diff_rounds_the_inverse_once() {
    // The inverse of diag(3, 3, 3) is a third, rounded once: the
    // acceleration under the torque (1, 0, 0) is the scalar nearest to it.
    let zero = s(0.0);
    let j = Inertia::new(s(3.0), s(3.0), s(3.0), zero, zero, zero);
    let a = w(0.0, 0.0, 0.0).diff(j, t(1.0, 0.0, 0.0));
    assert_eq!(a.x, Scalar::from_ratio(1, 3));
    // A full matrix with determinant 7 and cofactors 5, 3, 3, -2, -1, -3.
    let j = Inertia::new(s(2.0), s(2.0), s(3.0), s(1.0), zero, s(1.0));
    let a = w(0.0, 0.0, 0.0).diff(j, t(1.0, 0.0, 0.0));
    assert_eq!(a.x, Scalar::from_ratio(5, 7));
    assert_eq!(a.y, Scalar::from_ratio(-3, 7));
    assert_eq!(a.z, Scalar::from_ratio(1, 7));
}

#[test]
fn validate_forms_the_minors_exactly() {
    let zero = s(0.0);
    assert!(Inertia::new(s(1.0e6), s(1.0e6), s(1.0e6), zero, zero, zero).validate());
    assert!(Inertia::new(s(1.0e-6), s(1.0e-6), s(1.0e-6), zero, zero, zero).validate());
    assert!(Inertia::new(s(1.0e9), s(1.0e9), s(1.0e9), s(1.0), s(1.0), s(1.0)).validate());
    let tiny = Scalar::from_raw(1);
    assert!(Inertia::new(tiny, tiny, tiny, zero, zero, zero).validate());
    assert!(!Inertia::new(tiny, tiny, tiny, zero, zero, tiny).validate());
    assert!(!Inertia::new(s(1.0), s(1.0), s(1.0), s(1.0), zero, zero).validate());
}

#[test]
fn diff_leaves_a_residual_in_proportion_to_the_magnitudes() {
    let mut seed: u64 = 0x0fed_cba9_8765_4321;
    let mut next = |scale: f64| {
        seed = seed.wrapping_mul(6364136223846793005).wrapping_add(1442695040888963407);
        ((seed >> 11) as f64 / (1u64 << 53) as f64 * 2.0 - 1.0) * scale
    };
    let mut checked = 0;
    while checked < 300 {
        let size = [0.01, 1.0, 50.0][checked % 3];
        let j = Inertia::new(
            s(size * (2.5 + next(1.5))),
            s(size * (2.5 + next(1.5))),
            s(size * (2.5 + next(1.5))),
            s(size * next(0.5)),
            s(size * next(0.5)),
            s(size * next(0.5)),
        );
        let rate = w(next(8.0), next(8.0), next(8.0));
        let torque = t(next(100.0), next(100.0), next(100.0));
        let a = rate.diff(j, torque);
        let apply = |v: (f64, f64, f64)| {
            (
                f(j.j1) * v.0 + f(j.j6) * v.1 + f(j.j5) * v.2,
                f(j.j6) * v.0 + f(j.j2) * v.1 + f(j.j4) * v.2,
                f(j.j5) * v.0 + f(j.j4) * v.1 + f(j.j3) * v.2,
            )
        };
        let (wx, wy, wz) = (f(rate.x), f(rate.y), f(rate.z));
        let h = apply((wx, wy, wz));
        let g = (wy * h.2 - wz * h.1, wz * h.0 - wx * h.2, wx * h.1 - wy * h.0);
        let ja = apply((f(a.x), f(a.y), f(a.z)));
        let largest = |v: &[f64]| v.iter().fold(0.0f64, |m, x| m.max(x.abs()));
        let mj = largest(&[f(j.j1), f(j.j2), f(j.j3), f(j.j4), f(j.j5), f(j.j6)]);
        let mw = largest(&[wx, wy, wz]);
        let mt = largest(&[f(torque.x) - g.0, f(torque.y) - g.1, f(torque.z) - g.2]);
        let bound = (9.0 * mj * (mt + 1.0e-9) + 6.0 * mj + 4.0 * mw + 1.0) / ONE + 1.0e-11;
        assert!((ja.0 + g.0 - f(torque.x)).abs() <= bound);
        assert!((ja.1 + g.1 - f(torque.y)).abs() <= bound);
        assert!((ja.2 + g.2 - f(torque.z)).abs() <= bound);
        checked += 1;
    }
}
