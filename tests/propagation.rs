use orbit_propagator::gravity::{GravityModel, OtherGrav, SphericalGrav};
use orbit_propagator::system::{perturbers, DynamicalSystem, OtherBody, Perturber, SatBody};
use std::cell::RefCell;

fn snap(ids: &[usize]) -> Vec<Perturber<u64>> {
    ids.iter()
        .enumerate()
        .map(|(index, id)| Perturber { index, id: *id, state: (index as u64 + 1) * 10 })
        .collect()
}

#[test]
fn excluded_id_never_among_perturbers() {
    let s = snap(&[1, 2, 1, 3]);
    let r = perturbers(&s, Some(1));
    assert_eq!(r.iter().map(|p| p.index).collect::<Vec<_>>(), vec![1, 3]);
    assert!(r.iter().all(|p| p.id != 1));
    let all = perturbers(&s, None);
    assert_eq!(all.len(), 4);
    let none_excluded = perturbers(&s, Some(9));
    assert_eq!(none_excluded.len(), 4);
    assert!(perturbers(&Vec::<Perturber<u64>>::new(), Some(1)).is_empty());
}

fn counting_system(store: bool, steps: usize) -> DynamicalSystem<u64> {
    DynamicalSystem::new(
        vec![SatBody::new(String::from("sat"), 0)],
        vec![OtherBody::new(String::from("a"), 1, 10), OtherBody::new(String::from("b"), 2, 20)],
        GravityModel::Spherical(SphericalGrav),
        steps,
        store,
    )
}

#[test]
fn bodies_see_perturbers_as_they_stood_at_step_start() {
    let calls = RefCell::new(Vec::new());
    let mut sys = counting_system(true, 2);
    sys.propagate(|model: &GravityModel, ps: &Vec<Perturber<u64>>, s: &u64, k: usize| {
        calls.borrow_mut().push((*model, ps.iter().map(|p| p.id).collect::<Vec<_>>(), k));
        s + ps.iter().map(|p| p.state).sum::<u64>()
    });
    assert_eq!(sys.satellites[0].state_history, vec![0, 30, 90]);
    assert_eq!(sys.other_bodies[0].state_history, vec![10, 30, 60]);
    assert_eq!(sys.other_bodies[1].state_history, vec![20, 30, 60]);
    assert_eq!(sys.satellites[0].state, 90);
    assert_eq!(sys.other_bodies[0].pos_old, 30);
    assert_eq!(sys.other_bodies[1].pos_old, 30);
    let sph = GravityModel::Spherical(SphericalGrav);
    let other = GravityModel::OtherModel(OtherGrav);
    assert_eq!(
        calls.into_inner(),
        vec![
            (sph, vec![1, 2], 0),
            (other, vec![2], 0),
            (other, vec![1], 0),
            (sph, vec![1, 2], 1),
            (other, vec![2], 1),
            (other, vec![1], 1),
        ]
    );
}

#[test]
fn histories_hold_initial_state_plus_one_entry_per_step() {
    for n in [0usize, 1, 5, 17] {
        let mut sys = counting_system(true, n);
        sys.propagate(|_m: &GravityModel, _p: &Vec<Perturber<u64>>, s: &u64, _k: usize| s + 1);
        for b in &sys.satellites {
            assert_eq!(b.state_history.len(), n + 1);
            assert_eq!(b.time_history, (0..=n).collect::<Vec<_>>());
        }
        for b in &sys.other_bodies {
            assert_eq!(b.state_history.len(), n + 1);
            assert_eq!(b.time_history.len(), n + 1);
        }
        assert_eq!(sys.satellites[0].state, n as u64);
    }
}

#[test]
fn without_store_flag_histories_stay_as_they_were() {
    let mut sys = counting_system(false, 4);
    sys.satellites[0].state_history.push(99);
    sys.propagate(|_m: &GravityModel, _p: &Vec<Perturber<u64>>, s: &u64, _k: usize| s + 2);
    assert_eq!(sys.satellites[0].state_history, vec![99]);
    assert!(sys.satellites[0].time_history.is_empty());
    assert!(sys.other_bodies[0].state_history.is_empty());
    assert_eq!(sys.satellites[0].state, 8);
    assert_eq!(sys.other_bodies[1].state, 28);
    assert_eq!(sys.other_bodies[1].pos_old, 26);
}

#[test]
fn zero_steps_records_only_the_initial_state() {
    let mut sys = counting_system(true, 0);
    sys.propagate(|_m: &GravityModel, _p: &Vec<Perturber<u64>>, s: &u64, _k: usize| s + 1);
    assert_eq!(sys.satellites[0].state_history, vec![0]);
    assert_eq!(sys.other_bodies[1].state_history, vec![20]);
    assert_eq!(sys.other_bodies[1].pos_old, 20);
}

// Two-body scenario with a point-mass central body integrated by classic RK4.

const MU: f64 = 398600.4418;
const R0: f64 = 7378.137;

type State = [f64; 6];

fn point_mass(s: &State) -> State {
    let r = (s[0] * s[0] + s[1] * s[1] + s[2] * s[2]).sqrt();
    let k = -MU / (r * r * r);
    [s[3], s[4], s[5], k * s[0], k * s[1], k * s[2]]
}

fn axpy(s: &State, h: f64, d: &State) -> State {
    let mut r = *s;
    for i in 0..6 {
        r[i] += h * d[i];
    }
    r
}

fn rk4(s: &State, h: f64) -> State {
    let k1 = point_mass(s);
    let k2 = point_mass(&axpy(s, h / 2., &k1));
    let k3 = point_mass(&axpy(s, h / 2., &k2));
    let k4 = point_mass(&axpy(s, h, &k3));
    let mut r = *s;
    for i in 0..6 {
        r[i] += h / 6. * (k1[i] + 2. * k2[i] + 2. * k3[i] + k4[i]);
    }
    r
}

fn circular_run(h: f64, steps: usize) -> State {
    let v = (MU / R0).sqrt();
    let mut sys = DynamicalSystem::new(
        vec![SatBody::new(String::from("leo"), [R0, 0., 0., 0., v, 0.])],
        vec![],
        GravityModel::select(0, 0),
        steps,
        true,
    );
    sys.propagate(|_m: &GravityModel, _p: &Vec<Perturber<State>>, s: &State, _k: usize| rk4(s, h));
    assert_eq!(sys.satellites[0].state_history.len(), steps + 1);
    sys.satellites[0].state
}

fn error_against_exact(s: &State, t: f64) -> f64 {
    let n = (MU / (R0 * R0 * R0)).sqrt();
    let (ex, ey) = (R0 * (n * t).cos(), R0 * (n * t).sin());
    ((s[0] - ex).powi(2) + (s[1] - ey).powi(2) + s[2].powi(2)).sqrt()
}

#[test]
fn circular_orbit_closes_after_one_period() {
    let v = (MU / R0).sqrt();
    assert!((v - 7.350138629613).abs() < 1e-9);
    let period = 2. * std::f64::consts::PI * (R0 * R0 * R0 / MU).sqrt();
    let steps = (period / 60.).round() as usize;
    let end = circular_run(60., steps);
    // the whole-step rounding of the period moves the end point along the orbit
    let rounding = v * (period - steps as f64 * 60.).abs();
    let dist = ((end[0] - R0).powi(2) + end[1].powi(2) + end[2].powi(2)).sqrt();
    assert!(dist < rounding + 0.05, "distance {} rounding {}", dist, rounding);
    assert!(error_against_exact(&end, steps as f64 * 60.) < 0.05);
}

#[test]
fn halving_the_step_divides_the_error_by_about_sixteen() {
    let t = 3000.;
    let coarse = error_against_exact(&circular_run(60., 50), t);
    let fine = error_against_exact(&circular_run(30., 100), t);
    let ratio = coarse / fine;
    assert!(ratio > 12. && ratio < 20., "ratio {}", ratio);
}

#[test]
fn restart_seeds_next_run_from_last_record() {
    let mut sys = counting_system(true, 3);
    sys.propagate(|_m: &GravityModel, _p: &Vec<Perturber<u64>>, s: &u64, _k: usize| s + 1);
    sys.restart();
    assert_eq!(sys.satellites[0].state, 3);
    assert_eq!(sys.other_bodies[0].state, 13);
    assert!(sys.satellites[0].state_history.is_empty());
    assert!(sys.other_bodies[1].time_history.is_empty());
    sys.propagate(|_m: &GravityModel, _p: &Vec<Perturber<u64>>, s: &u64, _k: usize| s + 1);
    assert_eq!(sys.satellites[0].state_history, vec![3, 4, 5, 6]);

    // a body that recorded nothing keeps its state
    let mut quiet = SatBody::new(String::from("q"), 42u64);
    quiet.restart();
    assert_eq!(quiet.state, 42);
}
