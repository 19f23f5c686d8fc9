use boids::boid::Boid;
use boids::model::{
    model, update, Bounds, Model, ModelError, BOID_SIZE, COORD_LIMIT, FLOCK_SIZE, MAX_DIST,
    MAX_VELOCITY,
};
use boids::vector::{vec2, Vector2, MIN_LIMIT, UNIT};

const W: i64 = 100 * UNIT;

fn size() -> Vector2 {
    vec2(BOID_SIZE, BOID_SIZE)
}

fn world() -> Bounds {
    Bounds { min_x: -W, max_x: W, min_y: -W, max_y: W }
}

fn flock_of(boids: Vec<Boid>) -> Model {
    Model::new(boids, MAX_DIST, MAX_VELOCITY).unwrap()
}

fn speed_sq(b: &Boid) -> u128 {
    let x = b.velocity.x.unsigned_abs() as u128;
    let y = b.velocity.y.unsigned_abs() as u128;
    x * x + y * y
}

#[test]
fn the_defaults_are_in_world_units() {
    assert_eq!(FLOCK_SIZE, 40);
    assert_eq!(BOID_SIZE, 10 * UNIT);
    assert_eq!(MAX_DIST, 50 * UNIT);
    assert_eq!(MAX_VELOCITY, 10 * UNIT);
    assert_eq!(COORD_LIMIT, 1 << 62);
}

#[test]
fn from_surface_centres_the_world_on_the_origin() {
    let b = Bounds::from_surface(800 * UNIT, 600 * UNIT);
    assert_eq!(
        b,
        Bounds { min_x: -400 * UNIT, max_x: 400 * UNIT, min_y: -300 * UNIT, max_y: 300 * UNIT }
    );
    assert!(b.is_valid());
}

#[test]
fn from_surface_halves_toward_zero() {
    let b = Bounds::from_surface(7, -3);
    assert_eq!(b, Bounds { min_x: -3, max_x: 4, min_y: 1, max_y: -2 });
    assert!(!b.is_valid());
    let b = Bounds::from_surface(7, 1);
    assert_eq!(b, Bounds { min_x: -3, max_x: 4, min_y: 0, max_y: 1 });
    assert!(b.is_valid());
    let b = Bounds::from_surface(i64::MAX, i64::MIN);
    assert_eq!(
        b,
        Bounds {
            min_x: -COORD_LIMIT + 1,
            max_x: COORD_LIMIT,
            min_y: COORD_LIMIT,
            max_y: -COORD_LIMIT
        }
    );
    assert!(!b.is_valid());
    assert!(Bounds::from_surface(i64::MAX, i64::MAX).is_valid());
}

#[test]
fn bounds_need_room_on_both_axes() {
    assert!(Bounds::from_surface(2, 2).is_valid());
    assert!(Bounds::from_surface(1, 1).is_valid());
    assert!(!Bounds::from_surface(0, 2).is_valid());
    assert!(!Bounds::from_surface(2, 0).is_valid());
    assert!(!Bounds::from_surface(0, 0).is_valid());
    assert!(!Bounds::from_surface(2, -1).is_valid());
    assert!(!Bounds::from_surface(-800 * UNIT, 600 * UNIT).is_valid());
    assert!(!Bounds { min_x: 5, max_x: 5, min_y: 0, max_y: 1 }.is_valid());
    assert!(!Bounds { min_x: 0, max_x: 1, min_y: 6, max_y: 5 }.is_valid());
    assert!(Bounds { min_x: 0, max_x: 1, min_y: 5, max_y: 6 }.is_valid());
}

#[test]
fn bounds_stay_inside_the_coordinate_limit() {
    assert!(Bounds {
        min_x: -COORD_LIMIT,
        max_x: COORD_LIMIT,
        min_y: -COORD_LIMIT,
        max_y: COORD_LIMIT
    }
    .is_valid());
    assert!(!Bounds { min_x: -COORD_LIMIT - 1, max_x: 0, min_y: 0, max_y: 1 }.is_valid());
    assert!(!Bounds { min_x: 0, max_x: 1, min_y: 0, max_y: COORD_LIMIT + 1 }.is_valid());
}

#[test]
fn random_seeds_inside_the_rectangle() {
    let mut k: i32 = 0;
    while k < 500 {
        let b = Boid::random(-400 * UNIT, 400 * UNIT, 100, 103, size());
        assert!(-400 * UNIT <= b.position.x && b.position.x < 400 * UNIT);
        assert!(100 <= b.position.y && b.position.y < 103);
        assert!(0 <= b.velocity.x && b.velocity.x < UNIT);
        assert!(0 <= b.velocity.y && b.velocity.y < UNIT);
        assert_eq!(b.size, size());
        k += 1;
    }
}

#[test]
fn random_in_a_rectangle_of_one_point() {
    let b = Boid::random(-7, -6, i64::MAX - 1, i64::MAX, vec2(1, 2));
    assert_eq!(b.position, vec2(-7, i64::MAX - 1));
    assert_eq!(b.size, vec2(1, 2));
}

#[test]
fn random_does_not_repeat_one_value() {
    let first = Boid::random(0, 1000 * UNIT, 0, 1000 * UNIT, size());
    let mut k: i32 = 0;
    let mut xs_differ = false;
    let mut ys_differ = false;
    let mut speeds_differ = false;
    let mut off_the_lower_edge = false;
    while k < 200 {
        let b = Boid::random(0, 1000 * UNIT, 0, 1000 * UNIT, size());
        xs_differ = xs_differ || b.position.x != first.position.x;
        ys_differ = ys_differ || b.position.y != first.position.y;
        speeds_differ = speeds_differ || b.velocity != first.velocity;
        off_the_lower_edge = off_the_lower_edge || (b.position.x != 0 && b.position.y != 0);
        k += 1;
    }
    assert!(xs_differ && ys_differ && speeds_differ && off_the_lower_edge);
}

#[test]
fn init_boids_makes_as_many_as_asked() {
    assert_eq!(Boid::init_boids(-5, 5, -5, 5, size(), 0).len(), 0);
    assert_eq!(Boid::init_boids(-5, 5, -5, 5, size(), 1).len(), 1);
    let boids = Boid::init_boids(-5, 5, -9, -8, size(), 250);
    assert_eq!(boids.len(), 250);
    for b in boids.iter() {
        assert!(-5 <= b.position.x && b.position.x < 5);
        assert_eq!(b.position.y, -9);
        assert!(0 <= b.velocity.x && b.velocity.x < UNIT);
        assert!(0 <= b.velocity.y && b.velocity.y < UNIT);
        assert_eq!(b.size, size());
    }
}

#[test]
fn model_starts_with_the_default_flock() {
    let m = model(800 * UNIT, 600 * UNIT).unwrap();
    assert!(m.is_valid());
    assert_eq!(m.max_dist, 50 * UNIT);
    assert_eq!(m.max_velocity, 10 * UNIT);
    assert_eq!(m.boids.len(), 40);
    for b in m.boids.iter() {
        assert!(-400 * UNIT <= b.position.x && b.position.x < 400 * UNIT);
        assert!(-300 * UNIT <= b.position.y && b.position.y < 300 * UNIT);
        assert!(0 <= b.velocity.x && b.velocity.x < UNIT);
        assert!(0 <= b.velocity.y && b.velocity.y < UNIT);
        assert_eq!(b.size, vec2(10 * UNIT, 10 * UNIT));
    }
}

#[test]
fn model_refuses_a_surface_without_room() {
    assert_eq!(model(0, 0), Err(ModelError::DegenerateBounds));
    assert_eq!(model(0, 600 * UNIT), Err(ModelError::DegenerateBounds));
    assert_eq!(model(800 * UNIT, 0), Err(ModelError::DegenerateBounds));
    assert_eq!(model(-800 * UNIT, 600 * UNIT), Err(ModelError::DegenerateBounds));
    assert_eq!(model(800 * UNIT, i64::MIN), Err(ModelError::DegenerateBounds));
    assert!(model(2, 2).is_ok());
    let smallest = model(1, 1).unwrap();
    assert_eq!(smallest.boids.len(), 40);
    for b in smallest.boids.iter() {
        assert_eq!(b.position, vec2(0, 0));
    }
}

#[test]
fn new_keeps_what_it_is_given() {
    let boids = vec![Boid::placed(1, 2, 3, 4, size()), Boid::placed(5, 6, 7, 8, size())];
    let m = Model::new(boids.clone(), 123, 456_789).unwrap();
    assert_eq!(m.boids, boids);
    assert_eq!(m.max_dist, 123);
    assert_eq!(m.max_velocity, 456_789);
    assert!(m.is_valid());
    assert!(Model::new(vec![], -1, 0).unwrap().is_valid());
    assert!(Model::new(vec![], 0, COORD_LIMIT - 1).is_ok());
}

#[test]
fn new_refuses_a_speed_limit_out_of_range() {
    assert_eq!(Model::new(vec![], MAX_DIST, -1), Err(ModelError::SpeedLimitOutOfRange));
    assert_eq!(Model::new(vec![], MAX_DIST, COORD_LIMIT), Err(ModelError::SpeedLimitOutOfRange));
    assert_eq!(Model::new(vec![], MAX_DIST, i64::MAX), Err(ModelError::SpeedLimitOutOfRange));
    assert_eq!(Model::new(vec![], MAX_DIST, i64::MIN), Err(ModelError::SpeedLimitOutOfRange));
}

#[test]
fn is_valid_sees_a_broken_speed_limit() {
    let mut m = flock_of(vec![]);
    assert!(m.is_valid());
    m.max_velocity = -1;
    assert!(!m.is_valid());
    m.max_velocity = COORD_LIMIT;
    assert!(!m.is_valid());
}

#[test]
fn a_lone_boid_coasts() {
    let mut m = flock_of(vec![Boid::placed(1_000, 2_000, 300, -400, size())]);
    m.tick(&world());
    assert_eq!(m.boids, vec![Boid::placed(1_300, 1_600, 300, -400, size())]);
    m.tick(&world());
    assert_eq!(m.boids, vec![Boid::placed(1_600, 1_200, 300, -400, size())]);
}

#[test]
fn boids_out_of_sight_coast() {
    let a = Boid::placed(0, 0, 100, 0, size());
    let b = Boid::placed(50 * UNIT, 0, 0, 100, size());
    let mut m = flock_of(vec![a, b]);
    m.tick(&world());
    assert_eq!(
        m.boids,
        vec![Boid::placed(100, 0, 100, 0, size()), Boid::placed(50 * UNIT, 100, 0, 100, size())]
    );
}

#[test]
fn a_boid_that_coasts_too_fast_is_slowed() {
    let mut m = flock_of(vec![Boid::placed(0, 0, 12 * UNIT, -16 * UNIT, size())]);
    m.tick(&world());
    assert_eq!(m.boids, vec![Boid::placed(6 * UNIT, -8 * UNIT, 6 * UNIT, -8 * UNIT, size())]);
}

#[test]
fn each_boid_steers_by_the_other_as_it_was_before_the_tick() {
    let a = Boid::placed(0, 0, UNIT, 0, size());
    let b = Boid::placed(10 * UNIT, 0, 0, UNIT, size());
    let a_next = Boid::placed(-2_707_106_781, 707_106_781, -2_707_106_781, 707_106_781, size());
    let b_next = Boid::placed(13_707_106_781, 292_893_219, 3_707_106_781, 292_893_219, size());

    let mut m = flock_of(vec![a, b]);
    m.tick(&world());
    assert_eq!(m.boids, vec![a_next, b_next]);

    let mut m = flock_of(vec![b, a]);
    m.tick(&world());
    assert_eq!(m.boids, vec![b_next, a_next]);
}

#[test]
fn a_tick_does_not_depend_on_the_order_of_the_flock() {
    let mut boids = Vec::new();
    let mut k: i64 = 0;
    while k < 30 {
        boids.push(Boid::placed(
            ((k * 7_919) % 120_001 - 60_000) * 1_000_003,
            ((k * 104_729) % 120_001 - 60_000) * 999_983,
            ((k * 311) % 20_001 - 10_000) * 1_000_033,
            ((k * 173) % 20_001 - 10_000) * 999_979,
            vec2(k, k),
        ));
        k += 1;
    }
    let mut reversed = boids.clone();
    reversed.reverse();
    let mut forward = flock_of(boids);
    let mut backward = flock_of(reversed);
    forward.tick(&world());
    backward.tick(&world());
    backward.boids.reverse();
    assert_eq!(forward.boids, backward.boids);
}

#[test]
fn steering_is_added_to_the_velocity_and_then_capped() {
    let a = Boid::placed(0, 0, 9 * UNIT, 0, size());
    let b = Boid::placed(-10 * UNIT, 0, 9 * UNIT, 0, size());
    let mut m = flock_of(vec![a, b]);
    m.tick(&world());
    // a: centering (-1, 0), aligning (0, 0), separating (4, 0): 12 units, capped at 10.
    // b: centering (1, 0), aligning (0, 0), separating (-4, 0): 6 units.
    assert_eq!(
        m.boids,
        vec![
            Boid::placed(10 * UNIT, 0, 10 * UNIT, 0, size()),
            Boid::placed(-4 * UNIT, 0, 6 * UNIT, 0, size())
        ]
    );
}

#[test]
fn no_boid_is_faster_than_the_limit_after_a_tick() {
    let mut m = model(400 * UNIT, 300 * UNIT).unwrap();
    let limit = (m.max_velocity as u128) * (m.max_velocity as u128);
    let mut t: i32 = 0;
    while t < 60 {
        assert_eq!(update(&mut m, 400 * UNIT, 300 * UNIT), Ok(()));
        assert_eq!(m.boids.len(), 40);
        for b in m.boids.iter() {
            assert!(speed_sq(b) <= limit);
            assert_eq!(b.size, size());
            assert!(-210 * UNIT <= b.position.x && b.position.x <= 210 * UNIT);
            assert!(-160 * UNIT <= b.position.y && b.position.y <= 160 * UNIT);
        }
        t += 1;
    }
}

#[test]
fn the_limit_holds_for_any_start() {
    let boids = vec![
        Boid::placed(0, 0, i64::MAX, i64::MAX, size()),
        Boid::placed(1, 1, i64::MIN, i64::MIN, size()),
        Boid::placed(i64::MAX, i64::MIN, i64::MAX, i64::MIN, size()),
        Boid::placed(i64::MIN, i64::MAX, 0, 0, size()),
    ];
    for limit in [2, 3, MIN_LIMIT, UNIT, COORD_LIMIT - 1] {
        let mut m = Model::new(boids.clone(), i64::MAX, limit).unwrap();
        m.tick(&world());
        let cap = (limit as u128) * (limit as u128);
        let nearly = ((limit - 2) as u128) * ((limit - 2) as u128);
        for b in m.boids.iter() {
            assert!(speed_sq(b) <= cap);
            assert!(-W - limit <= b.position.x && b.position.x <= W + limit);
            assert!(-W - limit <= b.position.y && b.position.y <= W + limit);
        }
        assert!(speed_sq(&m.boids[0]) > nearly);
        assert!(speed_sq(&m.boids[1]) > nearly);
        assert!(speed_sq(&m.boids[2]) > nearly);
    }
}

#[test]
fn a_speed_limit_of_zero_stops_the_flock() {
    let boids = vec![
        Boid::placed(0, 0, i64::MAX, i64::MAX, size()),
        Boid::placed(1, 1, -5, 7, size()),
        Boid::placed(90 * UNIT, 1, 0, 0, size()),
    ];
    let mut m = Model::new(boids.clone(), MAX_DIST, 0).unwrap();
    m.tick(&world());
    for (b, old) in m.boids.iter().zip(boids.iter()) {
        assert_eq!(b.velocity, vec2(0, 0));
        assert_eq!(b.position, old.position);
    }
}

#[test]
fn a_tick_wraps_before_it_moves() {
    let beyond_right = Boid::placed(W + 1, 0, 0, 0, size());
    let mut m = flock_of(vec![beyond_right]);
    m.tick(&world());
    assert_eq!(m.boids[0].position, vec2(-W, 0));

    let moving = Boid::placed(W + 1, -W - 1, 250, -350, size());
    let mut m = flock_of(vec![moving]);
    m.tick(&world());
    assert_eq!(m.boids[0], Boid::placed(-W + 250, W - 350, 250, -350, size()));
}

#[test]
fn a_tick_only_moves_a_boid_inside_the_world() {
    let inside = Boid::placed(W - 1, -W + 1, 250, -350, size());
    let mut m = flock_of(vec![inside]);
    m.tick(&world());
    assert_eq!(m.boids[0], Boid::placed(W + 249, -W - 349, 250, -350, size()));
    m.tick(&world());
    assert_eq!(m.boids[0], Boid::placed(-W + 250, W - 350, 250, -350, size()));
}

#[test]
fn neighbours_are_sought_before_wrapping() {
    let a = Boid::placed(W + 1, 0, 0, 0, size());
    let b = Boid::placed(-W + UNIT, 0, 0, 0, size());
    let mut m = flock_of(vec![a, b]);
    m.tick(&world());
    assert_eq!(
        m.boids,
        vec![Boid::placed(-W, 0, 0, 0, size()), Boid::placed(-W + UNIT, 0, 0, 0, size())]
    );
}

#[test]
fn update_takes_the_world_from_the_surface() {
    let mut m = flock_of(vec![Boid::placed(400 * UNIT + 1, -300 * UNIT - 1, 5, 5, size())]);
    assert_eq!(update(&mut m, 800 * UNIT, 600 * UNIT), Ok(()));
    assert_eq!(m.boids, vec![Boid::placed(-400 * UNIT + 5, 300 * UNIT + 5, 5, 5, size())]);
    assert_eq!(update(&mut m, 800 * UNIT + 1, 600 * UNIT + 1), Ok(()));
    assert_eq!(m.boids, vec![Boid::placed(-400 * UNIT + 10, -300 * UNIT + 5, 5, 5, size())]);
    assert_eq!(update(&mut m, 2, 2), Ok(()));
    assert_eq!(m.boids, vec![Boid::placed(6, 6, 5, 5, size())]);
}

#[test]
fn update_refuses_a_surface_without_room() {
    let start = vec![Boid::placed(1, 2, 3, 4, size()), Boid::placed(5, 6, 7, 8, size())];
    let mut m = flock_of(start.clone());
    assert_eq!(update(&mut m, 0, 600 * UNIT), Err(ModelError::DegenerateBounds));
    assert_eq!(update(&mut m, 800 * UNIT, 0), Err(ModelError::DegenerateBounds));
    assert_eq!(update(&mut m, -2, -2), Err(ModelError::DegenerateBounds));
    assert_eq!(m.boids, start);
    assert_eq!(m.max_dist, MAX_DIST);
    assert_eq!(m.max_velocity, MAX_VELOCITY);
}

#[test]
fn update_caps_the_speed_on_the_smallest_surface() {
    let fast = Boid::placed(5, 5, 30 * UNIT, -40 * UNIT, size());
    let mut m = flock_of(vec![fast]);
    assert_eq!(update(&mut m, 1, 1), Ok(()));
    assert_eq!(m.boids, vec![Boid::placed(6 * UNIT, -8 * UNIT, 6 * UNIT, -8 * UNIT, size())]);
}

#[test]
fn update_keeps_the_speed_limit_from_tick_to_tick() {
    let mut m = model(3, 5).unwrap();
    let limit = (m.max_velocity as u128) * (m.max_velocity as u128);
    for (w, h) in [(3, 5), (0, 5), (800 * UNIT, 600 * UNIT), (-1, -1), (1, 1), (i64::MAX, 7)] {
        let served = update(&mut m, w, h);
        assert_eq!(served.is_ok(), w >= 1 && h >= 1);
        for b in m.boids.iter() {
            assert!(speed_sq(b) <= limit);
        }
    }
}

#[test]
fn advance_is_one_boid_of_a_tick() {
    let a = Boid::placed(0, 0, UNIT, 0, size());
    let b = Boid::placed(10 * UNIT, 0, 0, UNIT, size());
    let flock = vec![a, b];
    let next = Boid::advance(&a, &flock, MAX_DIST, MAX_VELOCITY, &world());
    assert_eq!(next, Boid::placed(-2_707_106_781, 707_106_781, -2_707_106_781, 707_106_781, size()));
    let next = Boid::advance(&b, &flock, MAX_DIST, MAX_VELOCITY, &world());
    assert_eq!(next, Boid::placed(13_707_106_781, 292_893_219, 3_707_106_781, 292_893_219, size()));
    let blind = Boid::advance(&a, &flock, 10 * UNIT, MAX_VELOCITY, &world());
    assert_eq!(blind, Boid::placed(UNIT, 0, UNIT, 0, size()));
}
