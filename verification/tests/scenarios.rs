use adcs::{
    AngularVelocity, ForwardEuler, Inertia, KaneDamper, Quaternion, RungeKutta4, Scalar, State,
    Torque,
};

const ONE: f64 = 281474976710656.0;

fn s(x: f64) -> Scalar {
    Scalar::from_raw((x * ONE).round() as i128)
}

fn f(x: Scalar) -> f64 {
    assert!(x.is_finite());
    x.raw as f64 / ONE
}

fn inertia(j1: f64, j2: f64, j3: f64) -> Inertia {
    Inertia::new(s(j1), s(j2), s(j3), s(0.0), s(0.0), s(0.0))
}

fn momentum_norm(state: &State) -> f64 {
    let j = state.inertia;
    let w = state.angular_velocity;
    let hx = f(j.j1) * f(w.x) + f(j.j6) * f(w.y) + f(j.j5) * f(w.z);
    let hy = f(j.j6) * f(w.x) + f(j.j2) * f(w.y) + f(j.j4) * f(w.z);
    let hz = f(j.j5) * f(w.x) + f(j.j4) * f(w.y) + f(j.j3) * f(w.z);
    (hx * hx + hy * hy + hz * hz).sqrt()
}

fn kinetic_energy(state: &State) -> f64 {
    let j = state.inertia;
    let w = state.angular_velocity;
    let hx = f(j.j1) * f(w.x) + f(j.j6) * f(w.y) + f(j.j5) * f(w.z);
    let hy = f(j.j6) * f(w.x) + f(j.j2) * f(w.y) + f(j.j4) * f(w.z);
    let hz = f(j.j5) * f(w.x) + f(j.j4) * f(w.y) + f(j.j3) * f(w.z);
    let body = 0.5 * (f(w.x) * hx + f(w.y) * hy + f(w.z) * hz);
    match state.damper {
        Some(d) => {
            let wd = d.angular_velocity;
            let square = f(wd.x) * f(wd.x) + f(wd.y) * f(wd.y) + f(wd.z) * f(wd.z);
            body + 0.5 * f(d.inertia.j1) * square
        }
        None => body,
    }
}

fn quaternion_norm(q: &Quaternion) -> f64 {
    (f(q.w) * f(q.w) + f(q.x) * f(q.x) + f(q.y) * f(q.y) + f(q.z) * f(q.z)).sqrt()
}

#[test]
fn identity_rest_stays_at_rest() {
    let rk4 = RungeKutta4::new(s(0.01));
    let mut state = State::new(inertia(1.0, 1.0, 1.0));
    for _ in 0..1000 {
        state = rk4.step(state);
    }
    assert_eq!(state.quaternion, Quaternion::unit());
    assert_eq!(state.angular_velocity, AngularVelocity::new(s(0.0), s(0.0), s(0.0)));
    assert!((f(state.time) - 10.0).abs() < 1e-9);
}

#[test]
fn spin_about_body_z() {
    let rk4 = RungeKutta4::new(s(0.01));
    let mut state = State::new(inertia(1.0, 1.0, 1.0));
    state.angular_velocity = AngularVelocity::new(s(0.0), s(0.0), s(1.0));
    for _ in 0..1000 {
        state = rk4.step(state);
    }
    let w = state.angular_velocity;
    assert!(f(w.x).abs() < 1e-10);
    assert!(f(w.y).abs() < 1e-10);
    assert!((f(w.z) - 1.0).abs() < 1e-10);
    let q = state.quaternion;
    assert!((f(q.w) - 5.0f64.cos()).abs() < 1e-6);
    assert!(f(q.x).abs() < 1e-6);
    assert!(f(q.y).abs() < 1e-6);
    assert!((f(q.z) - 5.0f64.sin()).abs() < 1e-6);
    assert!((quaternion_norm(&q) - 1.0).abs() < 1e-10);
}

#[test]
fn torque_induced_spin() {
    let rk4 = RungeKutta4::new(s(0.01));
    let mut state = State::new(inertia(2.0, 2.0, 2.0));
    state.torque = Torque::new(s(0.0), s(0.0), s(1.0));
    for _ in 0..100 {
        state = rk4.step(state);
    }
    let w = state.angular_velocity;
    assert!((f(state.time) - 1.0).abs() < 1e-9);
    assert!(f(w.x).abs() < 1e-8);
    assert!(f(w.y).abs() < 1e-8);
    assert!((f(w.z) - 0.5).abs() < 1e-8);
}

#[test]
fn euler_free_precession_conserves_momentum_and_energy() {
    let rk4 = RungeKutta4::new(s(0.01));
    let mut state = State::new(inertia(2.0, 1.0, 3.0));
    state.angular_velocity = AngularVelocity::new(s(0.1), s(1.0), s(0.1));
    let h0 = momentum_norm(&state);
    let e0 = kinetic_energy(&state);
    for _ in 0..10_000 {
        state = rk4.step(state);
        assert!((quaternion_norm(&state.quaternion) - 1.0).abs() < 1e-10);
    }
    assert!((momentum_norm(&state) - h0).abs() < 1e-6);
    assert!((kinetic_energy(&state) - e0).abs() < 1e-6);
}

#[test]
fn kane_damping_to_quiescence() {
    let rk4 = RungeKutta4::new(s(0.01));
    let mut state = State::new(inertia(1.0, 1.0, 1.0));
    state.angular_velocity = AngularVelocity::new(s(1.0), s(0.0), s(0.0));
    state.damper = Some(KaneDamper::new(s(0.1), s(0.5)));
    let gap = |st: &State| {
        let d = st.damper.unwrap().angular_velocity;
        let w = st.angular_velocity;
        let (dx, dy, dz) = (f(w.x) - f(d.x), f(w.y) - f(d.y), f(w.z) - f(d.z));
        (dx * dx + dy * dy + dz * dz).sqrt()
    };
    let mut last_gap = gap(&state);
    let mut last_energy = kinetic_energy(&state);
    for _ in 0..100_000 {
        state = rk4.step(state);
        let g = gap(&state);
        let e = kinetic_energy(&state);
        assert!(g <= last_gap + 1e-12);
        assert!(e <= last_energy + 1e-12);
        if last_gap > 1e-9 {
            assert!(g < last_gap);
        }
        if last_gap > 1e-5 {
            assert!(e < last_energy);
        }
        last_gap = g;
        last_energy = e;
    }
    let w = state.angular_velocity;
    let d = state.damper.unwrap().angular_velocity;
    assert!(last_gap < 1e-9);
    assert!((f(w.x) - 1.0 / 1.1).abs() < 1e-6);
    assert!((f(d.x) - 1.0 / 1.1).abs() < 1e-6);
    assert!(f(w.y).abs() < 1e-9 && f(w.z).abs() < 1e-9);
}

#[test]
fn forward_euler_advances_time_by_the_step() {
    let euler = ForwardEuler::new(s(0.25));
    let mut state = State::new(inertia(1.0, 2.0, 3.0));
    state.time = s(1.5);
    let next = euler.step(state);
    assert_eq!(next.time, s(1.75));
}

#[test]
fn quaternion_round_trip() {
    let q = Quaternion::from_rotation(s(std::f64::consts::PI / 3.0), s(1.0), s(1.0), s(0.0));
    let v = AngularVelocity::new(s(1.0), s(0.0), s(0.0));
    let back = v.rotate(q).rotate(q.inv());
    assert!((f(back.x) - 1.0).abs() < 1e-12);
    assert!(f(back.y).abs() < 1e-12);
    assert!(f(back.z).abs() < 1e-12);
}
