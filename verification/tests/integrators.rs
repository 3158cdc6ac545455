use adcs::integrator::runge_kutta::combine;
use adcs::integrator::{displace, dynamics};
use adcs::{
    AngularVelocity, ForwardEuler, Inertia, Integrator, KaneDamper, Quaternion, RungeKutta4,
    Scalar, State, Torque,
};

const ONE: f64 = 281474976710656.0;

fn s(x: f64) -> Scalar {
    Scalar::from_raw((x * ONE).round() as i128)
}

fn f(x: Scalar) -> f64 {
    assert!(x.is_finite());
    x.raw as f64 / ONE
}

fn w(x: f64, y: f64, z: f64) -> AngularVelocity {
    AngularVelocity::new(s(x), s(y), s(z))
}

fn q(w: f64, x: f64, y: f64, z: f64) -> Quaternion {
    Quaternion::new(s(w), s(x), s(y), s(z))
}

fn diagonal(j1: f64, j2: f64, j3: f64) -> Inertia {
    Inertia::new(s(j1), s(j2), s(j3), s(0.0), s(0.0), s(0.0))
}

fn inertial_momentum(state: &State) -> (f64, f64, f64) {
    let j = state.inertia;
    let v = state.angular_velocity;
    let body = AngularVelocity::new(
        j.j1 * v.x + j.j6 * v.y + j.j5 * v.z,
        j.j6 * v.x + j.j2 * v.y + j.j4 * v.z,
        j.j5 * v.x + j.j4 * v.y + j.j3 * v.z,
    );
    let r = body.rotate(state.quaternion);
    (f(r.x), f(r.y), f(r.z))
}

fn kinetic_energy(state: &State) -> f64 {
    let j = state.inertia;
    let v = state.angular_velocity;
    let body = 0.5
        * (f(j.j1) * f(v.x) * f(v.x) + f(j.j2) * f(v.y) * f(v.y) + f(j.j3) * f(v.z) * f(v.z));
    match state.damper {
        Some(d) => {
            let u = d.angular_velocity;
            body + 0.5 * f(d.inertia.j1) * (f(u.x) * f(u.x) + f(u.y) * f(u.y) + f(u.z) * f(u.z))
        }
        None => body,
    }
}

#[test]
fn new_state_is_at_rest_at_time_zero() {
    let j = diagonal(1.0, 2.0, 3.0);
    let state = State::new(j);
    assert_eq!(state.time, s(0.0));
    assert_eq!(state.quaternion, Quaternion::unit());
    assert_eq!(state.angular_velocity, w(0.0, 0.0, 0.0));
    assert_eq!(state.inertia, j);
    assert_eq!(state.torque, Torque::zero());
    assert!(state.damper.is_none());
}

#[test]
fn new_damper_is_a_sphere_at_rest() {
    let d = KaneDamper::new(s(0.1), s(0.5));
    assert_eq!(d.inertia, diagonal(0.1, 0.1, 0.1));
    assert_eq!(d.coefficient, s(0.5));
    assert_eq!(d.angular_velocity, w(0.0, 0.0, 0.0));
}

#[test]
fn dynamics_without_damper() {
    let mut state = State::new(diagonal(1.0, 2.0, 4.0));
    state.angular_velocity = w(1.0, 2.0, 3.0);
    state.torque = Torque::new(s(1.0), s(1.0), s(1.0));
    let (qdot, wdot, wddot) = dynamics(state);
    assert_eq!(qdot, q(0.0, 0.5, 1.0, 1.5));
    assert_eq!(wdot, w(-11.0, 5.0, -0.25));
    assert_eq!(wddot, w(0.0, 0.0, 0.0));
}

#[test]
fn dynamics_with_damper_exchanges_opposite_torques() {
    let mut state = State::new(diagonal(1.0, 1.0, 1.0));
    state.angular_velocity = w(1.0, 0.0, 0.0);
    state.torque = Torque::new(s(0.0), s(0.0), s(2.0));
    let mut damper = KaneDamper::new(s(0.5), s(0.25));
    damper.angular_velocity = w(0.0, 0.0, 2.0);
    state.damper = Some(damper);
    // The damper turns at (-1, 0, 2) relative to the body and applies
    // (-0.25, 0, 0.5) to it; the opposite torque over 0.5 is (0.5, 0, -1).
    let (qdot, wdot, wddot) = dynamics(state);
    assert_eq!(qdot, q(0.0, 0.5, 0.0, 0.0));
    assert_eq!(wdot, w(-0.25, 0.0, 2.5));
    assert_eq!(wddot, w(0.5, 0.0, -1.0));
}

#[test]
fn both_integrators_share_the_dynamics() {
    let mut state = State::new(diagonal(2.0, 1.0, 3.0));
    state.angular_velocity = w(0.1, 1.0, 0.1);
    state.damper = Some(KaneDamper::new(s(0.1), s(0.5)));
    let euler = ForwardEuler::new(s(0.01));
    let rk4 = RungeKutta4::new(s(0.5));
    assert_eq!(euler.dynamics(state), dynamics(state));
    assert_eq!(rk4.dynamics(state), dynamics(state));
}

#[test]
fn displace_moves_rates_and_renormalizes() {
    let mut state = State::new(diagonal(1.0, 1.0, 1.0));
    state.time = s(3.0);
    state.angular_velocity = w(1.0, 2.0, 3.0);
    state.damper = Some(KaneDamper::new(s(0.5), s(0.25)));
    let rates = (q(0.0, 0.0, 0.0, 1.5), w(4.0, 0.0, -8.0), w(1.0, 1.0, 1.0));
    let moved = displace(state, rates, s(0.5));
    // (1, 0, 0, 0.75) has norm 1.25.
    assert_eq!(moved.quaternion, q(0.8, 0.0, 0.0, 0.6));
    assert_eq!(moved.angular_velocity, w(3.0, 2.0, -1.0));
    assert_eq!(moved.damper.unwrap().angular_velocity, w(0.5, 0.5, 0.5));
    assert_eq!(moved.damper.unwrap().inertia, diagonal(0.5, 0.5, 0.5));
    assert_eq!(moved.damper.unwrap().coefficient, s(0.25));
    assert_eq!(moved.time, s(3.0));
    assert_eq!(moved.inertia, state.inertia);
    assert_eq!(moved.torque, state.torque);
    state.damper = None;
    assert!(displace(state, rates, s(0.5)).damper.is_none());
}

#[test]
fn combine_weighs_the_stages_one_two_two_one() {
    let k = |x: f64| (q(x, 0.0, 0.0, -x), w(x, 2.0 * x, 0.0), w(0.0, 0.0, x));
    let got = combine(k(6.0), k(12.0), k(-3.0), k(0.0));
    // (6 + 24 - 6 + 0) / 6 = 4
    let want = k(4.0);
    assert!((f(got.0.w) - f(want.0.w)).abs() < 1e-13);
    assert!((f(got.0.z) - f(want.0.z)).abs() < 1e-13);
    assert!((f(got.1.x) - f(want.1.x)).abs() < 1e-13);
    assert!((f(got.1.y) - f(want.1.y)).abs() < 1e-13);
    assert!((f(got.2.z) - f(want.2.z)).abs() < 1e-13);
    assert_eq!(got.0.x, s(0.0));
    assert_eq!(got.1.z, s(0.0));
}

#[test]
fn forward_euler_step_is_one_displacement() {
    let mut state = State::new(diagonal(1.0, 2.0, 4.0));
    state.time = s(2.0);
    state.angular_velocity = w(1.0, 2.0, 3.0);
    state.torque = Torque::new(s(1.0), s(1.0), s(1.0));
    let next = ForwardEuler::new(s(0.5)).step(state);
    assert_eq!(next.time, s(2.5));
    assert_eq!(next.angular_velocity, w(-4.5, 4.5, 2.875));
    assert_eq!(next.quaternion, q(1.0, 0.25, 0.5, 0.75).normalize());
    assert_eq!(next.inertia, state.inertia);
    assert_eq!(next.torque, state.torque);
    assert!(next.damper.is_none());
}

#[test]
fn forward_euler_step_moves_the_damper() {
    let mut state = State::new(diagonal(1.0, 1.0, 1.0));
    state.angular_velocity = w(1.0, 0.0, 0.0);
    state.damper = Some(KaneDamper::new(s(0.5), s(0.25)));
    let next = ForwardEuler::new(s(0.5)).step(state);
    // The damper lags by (-1, 0, 0): it slows the body by 0.25 and gains 0.5.
    assert_eq!(next.angular_velocity, w(0.875, 0.0, 0.0));
    let damper = next.damper.unwrap();
    assert_eq!(damper.angular_velocity, w(0.25, 0.0, 0.0));
    assert_eq!(damper.coefficient, s(0.25));
    assert_eq!(damper.inertia, diagonal(0.5, 0.5, 0.5));
}

#[test]
fn step_advances_time_by_exactly_the_step() {
    let h = s(0.01);
    let euler = ForwardEuler::new(h);
    let rk4 = RungeKutta4::new(h);
    let mut a = State::new(diagonal(2.0, 1.0, 3.0));
    a.angular_velocity = w(0.1, 1.0, 0.1);
    let mut b = a;
    for _ in 0..500 {
        let (ta, tb) = (a.time, b.time);
        a = euler.step(a);
        b = rk4.step(b);
        assert_eq!(a.time, ta + h);
        assert_eq!(b.time, tb + h);
    }
    assert_eq!(a.time.raw, 500 * h.raw);
}

#[test]
fn step_keeps_the_attitude_at_norm_one() {
    let euler = ForwardEuler::new(s(0.01));
    let rk4 = RungeKutta4::new(s(0.01));
    let mut a = State::new(diagonal(2.0, 1.0, 3.0));
    a.angular_velocity = w(0.4, -1.0, 2.5);
    a.torque = Torque::new(s(0.1), s(0.0), s(-0.2));
    a.damper = Some(KaneDamper::new(s(0.1), s(0.5)));
    let mut b = a;
    for _ in 0..2000 {
        a = euler.step(a);
        b = rk4.step(b);
        assert!((f(a.quaternion.norm()) - 1.0).abs() < 1e-10);
        assert!((f(b.quaternion.norm()) - 1.0).abs() < 1e-10);
    }
}

#[test]
fn free_symmetric_body_keeps_its_rate() {
    for j0 in [1.0, 2.0, 5.0] {
        let euler = ForwardEuler::new(s(0.01));
        let rk4 = RungeKutta4::new(s(0.01));
        let mut a = State::new(diagonal(j0, j0, j0));
        a.angular_velocity = w(0.3, -0.2, 0.7);
        let mut b = a;
        for _ in 0..1000 {
            a = euler.step(a);
            b = rk4.step(b);
            assert_eq!(a.angular_velocity, w(0.3, -0.2, 0.7));
            assert_eq!(b.angular_velocity, w(0.3, -0.2, 0.7));
            assert!((f(b.quaternion.norm()) - 1.0).abs() < 1e-10);
        }
    }
    let rk4 = RungeKutta4::new(s(0.01));
    let mut c = State::new(diagonal(0.7, 0.7, 0.7));
    c.angular_velocity = w(0.3, -0.2, 0.7);
    for _ in 0..1000 {
        c = rk4.step(c);
    }
    assert!((f(c.angular_velocity.x) - 0.3).abs() < 1e-10);
    assert!((f(c.angular_velocity.y) + 0.2).abs() < 1e-10);
    assert!((f(c.angular_velocity.z) - 0.7).abs() < 1e-10);
}

#[test]
fn free_body_conserves_inertial_angular_momentum() {
    let drift = |euler: bool, h: f64, steps: usize| {
        let mut state = State::new(diagonal(2.0, 1.0, 3.0));
        state.angular_velocity = w(0.1, 1.0, 0.1);
        let start = inertial_momentum(&state);
        let e = ForwardEuler::new(s(h));
        let r = RungeKutta4::new(s(h));
        for _ in 0..steps {
            state = if euler { e.step(state) } else { r.step(state) };
        }
        let end = inertial_momentum(&state);
        ((end.0 - start.0).powi(2) + (end.1 - start.1).powi(2) + (end.2 - start.2).powi(2)).sqrt()
    };
    // Over the same horizon the drift falls with the step: about in
    // proportion for forward Euler, about with its fourth power for RK4.
    let (e1, e2) = (drift(true, 0.01, 100), drift(true, 0.005, 200));
    assert!(e1 < 2e-2);
    assert!(e2 < 0.6 * e1);
    let (r1, r2) = (drift(false, 0.1, 10), drift(false, 0.05, 20));
    assert!(r1 < 1e-4);
    assert!(r2 < 0.1 * r1);
    assert!(drift(false, 0.01, 100) < 1e-9);
}

#[test]
fn damper_never_adds_energy() {
    let rk4 = RungeKutta4::new(s(0.01));
    let mut state = State::new(diagonal(2.0, 1.0, 3.0));
    state.angular_velocity = w(0.1, 1.0, 0.1);
    state.damper = Some(KaneDamper::new(s(0.1), s(0.5)));
    let mut last = kinetic_energy(&state);
    for _ in 0..5000 {
        state = rk4.step(state);
        let now = kinetic_energy(&state);
        assert!(now <= last + 1e-12);
        last = now;
    }
    assert!(last < 0.5 * (0.02 + 1.0 + 0.03));
}

fn run<I: Integrator>(integrator: &I, mut state: State, steps: usize) -> State {
    for _ in 0..steps {
        state = integrator.step(state);
    }
    state
}

#[test]
fn integrators_are_interchangeable() {
    let mut state = State::new(diagonal(2.0, 1.0, 3.0));
    state.angular_velocity = w(0.1, 1.0, 0.1);
    let euler = run(&ForwardEuler::new(s(0.001)), state, 1000);
    let rk4 = run(&RungeKutta4::new(s(0.01)), state, 100);
    assert!((f(euler.time) - 1.0).abs() < 1e-9);
    assert!((f(rk4.time) - 1.0).abs() < 1e-9);
    assert!((f(euler.angular_velocity.x) - f(rk4.angular_velocity.x)).abs() < 1e-2);
    assert!((f(euler.angular_velocity.y) - f(rk4.angular_velocity.y)).abs() < 1e-2);
    assert!((f(euler.angular_velocity.z) - f(rk4.angular_velocity.z)).abs() < 1e-2);
    assert!((f(euler.quaternion.w) - f(rk4.quaternion.w)).abs() < 1e-2);
}

#[test]
fn free_symmetric_body_with_a_fractional_inertia_drifts_by_raw_units() {
    for j0 in [1.0, 1.3, 2.7, 77.7, 127.9] {
        let euler = ForwardEuler::new(s(0.5));
        let mut state = State::new(diagonal(j0, j0, j0));
        state.angular_velocity = w(0.3, -0.2, 0.7);
        let next = euler.step(state);
        assert!((next.angular_velocity.x.raw - state.angular_velocity.x.raw).abs() <= 4);
        assert!((next.angular_velocity.y.raw - state.angular_velocity.y.raw).abs() <= 4);
        assert!((next.angular_velocity.z.raw - state.angular_velocity.z.raw).abs() <= 4);
    }
    let euler = ForwardEuler::new(s(0.5));
    let mut state = State::new(diagonal(0.3, 0.3, 0.3));
    state.angular_velocity = w(0.3, -0.2, 0.7);
    let next = euler.step(state);
    assert!((next.angular_velocity.x.raw - state.angular_velocity.x.raw).abs() <= 4);
    assert!((next.angular_velocity.y.raw - state.angular_velocity.y.raw).abs() <= 4);
    assert!((next.angular_velocity.z.raw - state.angular_velocity.z.raw).abs() <= 4);
}

#[test]
fn large_inertias_and_rates_stay_finite() {
    let euler = ForwardEuler::new(s(0.01));
    let mut state = State::new(diagonal(100.0, 100.0, 100.0));
    state.angular_velocity = w(0.0, 0.0, 1.0);
    let next = euler.step(state);
    assert_eq!(next.angular_velocity, w(0.0, 0.0, 1.0));
    assert!(next.quaternion.validate());
    state.damper = Some(KaneDamper::new(s(100.0), s(1.0)));
    let (_, _, wddot) = dynamics(state);
    assert_eq!(wddot, w(0.0, 0.0, 0.01));
    for (attitude, rate, h) in [
        (q(200.0, 0.0, 0.0, 0.0), w(200.0, 0.0, 0.0), 1.0),
        (q(1.0, 0.0, 0.0, 0.0), w(30000.0, 0.0, 0.0), 4.0),
    ] {
        let mut state = State::new(diagonal(1.0, 1.0, 1.0));
        state.quaternion = attitude;
        state.angular_velocity = rate;
        assert!(ForwardEuler::new(s(h)).step(state).quaternion.validate());
        assert!(RungeKutta4::new(s(h)).step(state).quaternion.validate());
    }
}

#[test]
fn free_symmetric_body_with_a_light_inertia_drifts_in_proportion() {
    for (j0, k) in [(0.001, 1024), (0.01, 100), (0.1, 10), (0.5, 2), (1.0, 1)] {
        let euler = ForwardEuler::new(s(1.0));
        let mut state = State::new(diagonal(j0, j0, j0));
        state.angular_velocity = w(900.0, -1000.0, 1024.0);
        let next = euler.step(state);
        let most: i128 = k * 1025 + 2;
        assert!((next.angular_velocity.x.raw - state.angular_velocity.x.raw).abs() <= most);
        assert!((next.angular_velocity.y.raw - state.angular_velocity.y.raw).abs() <= most);
        assert!((next.angular_velocity.z.raw - state.angular_velocity.z.raw).abs() <= most);
    }
}

#[test]
fn runge_kutta_on_a_free_symmetric_body_with_a_light_inertia() {
    for (j0, k) in [(0.001, 1024), (0.01, 100), (0.3, 4), (1.0, 1), (100.0, 1)] {
        let rk4 = RungeKutta4::new(s(1.0));
        let mut state = State::new(diagonal(j0, j0, j0));
        state.angular_velocity = w(900.0, -1000.0, 1023.0);
        let next = rk4.step(state);
        let most: i128 = 1025 * k + 2;
        assert!((next.angular_velocity.x.raw - state.angular_velocity.x.raw).abs() <= most);
        assert!((next.angular_velocity.y.raw - state.angular_velocity.y.raw).abs() <= most);
        assert!((next.angular_velocity.z.raw - state.angular_velocity.z.raw).abs() <= most);
    }
}
