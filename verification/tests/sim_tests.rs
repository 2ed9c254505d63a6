use nbody_sim::body::{initialize_object, MASS_LIMIT, POS_LIMIT, TRAIL_LEN, VEL_LIMIT};
use nbody_sim::math::isqrt;
use nbody_sim::store::{BodyStore, SimError};

const EARTH_MASS: u128 = 5_972_000_000_000_000_000_000_000;

fn momentum(store: &BodyStore) -> (i128, i128) {
    let mut px: i128 = 0;
    let mut py: i128 = 0;
    for i in 0..store.len() {
        let b = store.body(i);
        px += (b.mass as i128) * (b.vel.x as i128);
        py += (b.mass as i128) * (b.vel.y as i128);
    }
    (px, py)
}

/// The three bodies the host program starts with, on an 800x600 screen:
/// two light bodies around one Earth-mass body.
fn starting_three_bodies() -> BodyStore {
    let mut store = BodyStore::new();
    store.add_body(initialize_object(6_000_000, 3_000_000, -2000, -1500, 1, 10, 1));
    store.add_body(initialize_object(2_000_000, 3_000_000, 0, 0, EARTH_MASS, 30, 2));
    store.add_body(initialize_object(4_000_000, 4_500_000, 0, 2000, 1, 10, 3));
    store
}

#[test]
fn isqrt_exact_values() {
    assert_eq!(isqrt(0), 0);
    assert_eq!(isqrt(1), 1);
    assert_eq!(isqrt(3), 1);
    assert_eq!(isqrt(4), 2);
    assert_eq!(isqrt(99), 9);
    assert_eq!(isqrt(100), 10);
    assert_eq!(isqrt(1_000_000_000_000), 1_000_000);
    assert_eq!(isqrt(u64::MAX as u128), 4_294_967_295);
}

#[test]
fn initialize_object_fills_trail() {
    let b = initialize_object(7, -9, 3, 4, 5, 6, 42);
    assert_eq!(b.pos.x, 7);
    assert_eq!(b.pos.y, -9);
    assert_eq!(b.vel.x, 3);
    assert_eq!(b.vel.y, 4);
    assert_eq!(b.mass, 5);
    assert_eq!(b.radius, 6);
    assert_eq!(b.color, 42);
    assert_eq!(b.trail.len(), TRAIL_LEN);
    for p in &b.trail {
        assert_eq!((p.x, p.y), (7, -9));
    }
}

/// Two bodies, masses 1 kg and the Earth's, 100 pixels (400_000 m) apart,
/// at rest: after one 1/160 s step the light body gains exactly 38
/// subpixels a step toward the heavy one, whose displacement is zero.
#[test]
fn two_body_step_pulls_light_body() {
    let mut store = BodyStore::new();
    store.add_body(initialize_object(0, 0, 0, 0, EARTH_MASS, 30, 0));
    store.add_body(initialize_object(1_000_000, 0, 0, 0, 1, 10, 0));
    let (px0, py0) = momentum(&store);
    assert_eq!(store.eulers_method_update(), Ok(()));
    let heavy = store.body(0);
    let light = store.body(1);
    assert_eq!(light.vel.x, -38);
    assert_eq!(light.vel.y, 0);
    assert_eq!(light.pos.x, 1_000_000 - 38);
    assert_eq!(heavy.vel.x, 0);
    assert_eq!(heavy.vel.y, 0);
    assert_eq!(heavy.pos.x, 0);
    assert_eq!(heavy.pos.y, 0);
    // Newton's third law nets out up to the rounding of the two kicks.
    let (px1, py1) = momentum(&store);
    assert_eq!(px1 - px0, -38);
    assert_eq!(py1 - py0, 0);
    assert!((px1 - px0).unsigned_abs() < (EARTH_MASS + 1) as u128);
}

/// The starting three-body arrangement: many steps, never an error, the
/// heavy body barely moves while the light bodies wander.
#[test]
fn three_body_run_stays_finite() {
    let mut store = starting_three_bodies();
    for _ in 0..100 {
        assert_eq!(store.eulers_method_update(), Ok(()));
        store.trail_manager();
    }
    let heavy = store.body(1);
    let heavy_disp =
        (heavy.pos.x - 2_000_000).unsigned_abs().max((heavy.pos.y - 3_000_000).unsigned_abs());
    let p1_disp =
        (store.body(0).pos.x - 6_000_000).unsigned_abs().max(
            (store.body(0).pos.y - 3_000_000).unsigned_abs(),
        );
    assert!(heavy_disp <= 10);
    assert!(p1_disp > 100 * heavy_disp);
    for i in 0..store.len() {
        let b = store.body(i);
        assert!(b.pos.x.abs() <= POS_LIMIT && b.pos.y.abs() <= POS_LIMIT);
        assert!(b.vel.x.abs() <= VEL_LIMIT && b.vel.y.abs() <= VEL_LIMIT);
    }
}

/// Momentum drift over a long run stays far below one rounding unit per
/// body pair per step.
#[test]
fn momentum_drift_is_bounded() {
    let mut store = starting_three_bodies();
    let (px0, py0) = momentum(&store);
    let steps: i128 = 200;
    for _ in 0..steps {
        assert_eq!(store.eulers_method_update(), Ok(()));
    }
    let (px1, py1) = momentum(&store);
    let bound: i128 = steps * 2 * (EARTH_MASS as i128 + 2);
    assert!((px1 - px0).abs() < bound);
    assert!((py1 - py0).abs() < bound);
}

/// Two bodies at identical coordinates exert no force on each other: no
/// overflow, no motion, no error.
#[test]
fn zero_distance_pair_is_inert() {
    let mut store = BodyStore::new();
    store.add_body(initialize_object(5_000, 5_000, 0, 0, EARTH_MASS, 30, 0));
    store.add_body(initialize_object(5_000, 5_000, 0, 0, EARTH_MASS, 30, 0));
    assert_eq!(store.eulers_method_update(), Ok(()));
    for i in 0..2 {
        let b = store.body(i);
        assert_eq!((b.pos.x, b.pos.y), (5_000, 5_000));
        assert_eq!((b.vel.x, b.vel.y), (0, 0));
    }
}

/// A step that would push a body out of the representable range reports the
/// error and leaves the store untouched.
#[test]
fn out_of_range_step_is_refused() {
    let mut store = BodyStore::new();
    store.add_body(initialize_object(POS_LIMIT, 0, VEL_LIMIT, 0, 1, 1, 0));
    assert_eq!(store.eulers_method_update(), Err(SimError::StateOutOfRange));
    let b = store.body(0);
    assert_eq!(b.pos.x, POS_LIMIT);
    assert_eq!(b.vel.x, VEL_LIMIT);
}

/// After each step the trail keeps its length, ends at the current
/// position, and holds the older entries shifted down, oldest first.
#[test]
fn trail_keeps_length_and_order() {
    let mut store = BodyStore::new();
    store.add_body(initialize_object(0, 0, 10_000, 0, 1, 10, 0));
    for expected_x in [10_000i64, 20_000, 30_000] {
        assert_eq!(store.eulers_method_update(), Ok(()));
        store.trail_manager();
        let b = store.body(0);
        assert_eq!(b.trail.len(), TRAIL_LEN);
        assert_eq!(b.trail[TRAIL_LEN - 1].x, b.pos.x);
        assert_eq!(b.trail[TRAIL_LEN - 1].y, b.pos.y);
        assert_eq!(b.pos.x, expected_x);
    }
    let b = store.body(0);
    assert_eq!(b.trail[TRAIL_LEN - 3].x, 10_000);
    assert_eq!(b.trail[TRAIL_LEN - 2].x, 20_000);
    assert_eq!(b.trail[TRAIL_LEN - 1].x, 30_000);
    for k in 0..TRAIL_LEN - 3 {
        assert_eq!((b.trail[k].x, b.trail[k].y), (0, 0));
    }
}

/// Identical initial bodies and step counts give bit-identical final state.
#[test]
fn repeated_runs_are_deterministic() {
    let mut a = starting_three_bodies();
    let mut b = starting_three_bodies();
    for _ in 0..50 {
        assert_eq!(a.eulers_method_update(), Ok(()));
        a.trail_manager();
        assert_eq!(b.eulers_method_update(), Ok(()));
        b.trail_manager();
    }
    assert_eq!(a.len(), b.len());
    for i in 0..a.len() {
        assert_eq!(a.body(i), b.body(i));
    }
}

/// The Runge-Kutta slot performs the same sweep as the Euler scheme today.
#[test]
fn rk4_matches_euler_sweep() {
    let mut a = starting_three_bodies();
    let mut b = starting_three_bodies();
    for _ in 0..20 {
        assert_eq!(a.eulers_method_update(), Ok(()));
        assert_eq!(b.rk4_update(4), Ok(()));
    }
    for i in 0..a.len() {
        assert_eq!(a.body(i), b.body(i));
    }
}

/// A store never holds more than it was given and reads back what was put
/// in.
#[test]
fn store_holds_bodies() {
    let mut store = BodyStore::new();
    assert_eq!(store.len(), 0);
    store.add_body(initialize_object(1, 2, 3, 4, MASS_LIMIT, 5, 6));
    assert_eq!(store.len(), 1);
    let b = store.body(0);
    assert_eq!((b.pos.x, b.pos.y, b.vel.x, b.vel.y), (1, 2, 3, 4));
    assert_eq!(b.mass, MASS_LIMIT);
}
