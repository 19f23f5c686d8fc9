use boids::boid::Boid;
use boids::vector::{vec2, UNIT};

fn at(x: i64, y: i64) -> Boid {
    Boid::placed(x, y, 0, 0, vec2(10 * UNIT, 10 * UNIT))
}

#[test]
fn placed_sets_every_field() {
    let b = Boid::placed(1, -2, 3, -4, vec2(5, 6));
    assert_eq!(b.position, vec2(1, -2));
    assert_eq!(b.velocity, vec2(3, -4));
    assert_eq!(b.size, vec2(5, 6));
}

#[test]
fn a_boid_is_not_its_own_neighbour() {
    let me = at(0, 0);
    let flock = vec![me, at(UNIT, 0), me, at(0, 2 * UNIT), me];
    let ns = Boid::extract_neightbours(&me, &flock, 50 * UNIT);
    assert_eq!(ns, vec![at(UNIT, 0), at(0, 2 * UNIT)]);
    assert!(!ns.contains(&me));
}

#[test]
fn a_boid_alone_has_no_neighbours() {
    let me = at(5, 5);
    assert_eq!(Boid::extract_neightbours(&me, &vec![me], 50 * UNIT), vec![]);
    assert_eq!(Boid::extract_neightbours(&me, &vec![], 50 * UNIT), vec![]);
}

#[test]
fn neighbours_lie_strictly_inside_the_radius() {
    let me = at(0, 0);
    let inside = at(30 * UNIT, 40 * UNIT - 1);
    let on_the_edge = at(30 * UNIT, 40 * UNIT);
    let outside = at(30 * UNIT, 40 * UNIT + 1);
    let flock = vec![outside, on_the_edge, inside, me];
    let ns = Boid::extract_neightbours(&me, &flock, 50 * UNIT);
    assert_eq!(ns, vec![inside]);
}

#[test]
fn every_boid_left_out_is_far_or_equal() {
    let me = at(-3 * UNIT, 7 * UNIT);
    let radius: i64 = 20 * UNIT;
    let mut flock = vec![me];
    let mut k: i64 = 0;
    while k < 200 {
        flock.push(at(
            ((k * 7_919) % 60_001 - 30_000) * (UNIT / 1000),
            ((k * 104_729) % 60_001 - 30_000) * (UNIT / 1000),
        ));
        k += 1;
    }
    let ns = Boid::extract_neightbours(&me, &flock, radius);
    let r2 = (radius as i128) * (radius as i128);
    for other in flock.iter() {
        let dx = (other.position.x - me.position.x) as i128;
        let dy = (other.position.y - me.position.y) as i128;
        let near = dx * dx + dy * dy < r2;
        assert_eq!(ns.contains(other), *other != me && near);
    }
    assert!(!ns.is_empty() && ns.len() < flock.len());
}

#[test]
fn neighbours_keep_the_order_of_the_flock() {
    let me = at(0, 0);
    let flock = vec![at(3, 0), at(90 * UNIT, 0), at(1, 0), me, at(2, 0)];
    let ns = Boid::extract_neightbours(&me, &flock, 10);
    assert_eq!(ns, vec![at(3, 0), at(1, 0), at(2, 0)]);
}

#[test]
fn a_radius_of_zero_or_less_finds_nobody() {
    let me = at(0, 0);
    let twin_apart_in_velocity = Boid::placed(0, 0, 1, 0, vec2(10 * UNIT, 10 * UNIT));
    let flock = vec![me, twin_apart_in_velocity, at(1, 1)];
    assert_eq!(Boid::extract_neightbours(&me, &flock, 0), vec![]);
    assert_eq!(Boid::extract_neightbours(&me, &flock, -50 * UNIT), vec![]);
    assert_eq!(Boid::extract_neightbours(&me, &flock, 1), vec![twin_apart_in_velocity]);
}

#[test]
fn boids_equal_in_every_field_do_not_see_each_other() {
    let me = at(4, 4);
    let twin = at(4, 4);
    let other_size = Boid::placed(4, 4, 0, 0, vec2(1, 1));
    let flock = vec![me, twin, other_size];
    assert_eq!(Boid::extract_neightbours(&me, &flock, 50 * UNIT), vec![other_size]);
}

#[test]
fn neighbours_are_found_across_the_whole_grid() {
    let me = at(i64::MIN, i64::MAX);
    let far = at(i64::MAX, i64::MIN);
    let near = at(i64::MIN + 3, i64::MAX - 4);
    let flock = vec![far, me, near];
    assert_eq!(Boid::extract_neightbours(&me, &flock, i64::MAX), vec![near]);
    assert_eq!(Boid::extract_neightbours(&me, &flock, 5), vec![]);
    assert_eq!(Boid::extract_neightbours(&me, &flock, 6), vec![near]);
}
