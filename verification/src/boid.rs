//! One member of the flock, and the boids that it can see.

use rand::Rng;
use vstd::prelude::*;
use crate::vector::{MIN_LIMIT, UNIT, Vector2, closer_than};

verus! {

/// A boid: where it is, how large it is drawn, and how far it moves in one
/// tick. Two boids are equal when all three fields are equal.
#[derive(Clone, Copy, Debug, PartialEq, Eq, Structural)]
pub struct Boid {
    pub position: Vector2,
    pub size: Vector2,
    pub velocity: Vector2,
}

/// `other` is a neighbour of `boid`: it differs from `boid` in some field
/// and lies strictly closer to it than `max_dist`.
///
/// A boid is told from itself by value, so two boids of a flock that agree
/// in every field do not see each other.
pub open spec fn is_neighbour(boid: Boid, other: Boid, max_dist: int) -> bool {
    other != boid && closer_than(boid.position, other.position, max_dist)
}

/// The neighbours of `boid` among `boids`, in the order of `boids`.
pub open spec fn neighbours_of(boid: Boid, boids: Seq<Boid>, max_dist: int) -> Seq<Boid> {
    boids.filter(|other: Boid| is_neighbour(boid, other, max_dist))
}

/// Where a coordinate `c` stands after wrapping on the interval from `min`
/// to `max`: a coordinate below `min` reappears at `max`, one above `max`
/// reappears at `min`, and one inside the interval stays.
pub open spec fn wrapped(c: int, min: int, max: int) -> int {
    if c < min {
        max
    } else if c > max {
        min
    } else {
        c
    }
}

/// `boid` is a possible outcome of seeding in the given rectangle: its
/// position lies in the rectangle, upper edges excluded, both components of
/// its velocity lie between zero and one world unit, one excluded, and its
/// size is `size`.
pub open spec fn seeded_in(
    boid: Boid,
    min_x: int,
    max_x: int,
    min_y: int,
    max_y: int,
    size: Vector2,
) -> bool {
    &&& min_x <= boid.position.x < max_x
    &&& min_y <= boid.position.y < max_y
    &&& 0 <= boid.velocity.x < UNIT
    &&& 0 <= boid.velocity.y < UNIT
    &&& boid.size == size
}

/// Draws one value with `rand::Rng::gen_range` on the thread's random
/// number generator. The draw is at least `low` and less than `high`; which
/// value it is, nothing says. An empty range makes the generator panic and
/// is not admitted.
#[verifier::external_body]
fn sample_between(low: i64, high: i64) -> (r: i64)
    requires
        low < high,
    ensures
        low <= r < high,
{
    rand::thread_rng().gen_range(low, high)
}

impl Boid {
    /// The boid at `(x, y)` that moves by `(dx, dy)` in a tick.
    pub fn placed(x: i64, y: i64, dx: i64, dy: i64, size: Vector2) -> (boid: Boid)
        ensures
            boid.position == (Vector2 { x, y }),
            boid.velocity == (Vector2 { x: dx, y: dy }),
            boid.size == size,
    {
        Boid { position: Vector2 { x, y }, size, velocity: Vector2 { x: dx, y: dy } }
    }

    /// A boid at a random place of the rectangle from `(min_x, min_y)` to
    /// `(max_x, max_y)`, upper edges excluded, with each component of its
    /// velocity drawn from zero up to, but not including, one world unit.
    pub fn random(min_x: i64, max_x: i64, min_y: i64, max_y: i64, size: Vector2) -> (boid: Boid)
        requires
            min_x < max_x,
            min_y < max_y,
        ensures
            seeded_in(boid, min_x as int, max_x as int, min_y as int, max_y as int, size),
    {
        let x: i64 = sample_between(min_x, max_x);
        let y: i64 = sample_between(min_y, max_y);
        let dx: i64 = sample_between(0, UNIT);
        let dy: i64 = sample_between(0, UNIT);
        Boid::placed(x, y, dx, dy, size)
    }

    /// `n` boids, each seeded on its own as [`Boid::random`] does.
    pub fn init_boids(
        min_x: i64,
        max_x: i64,
        min_y: i64,
        max_y: i64,
        size: Vector2,
        n: u32,
    ) -> (boids: Vec<Boid>)
        requires
            min_x < max_x,
            min_y < max_y,
        ensures
            boids@.len() == n,
            forall|k: int|
                0 <= k < n ==> seeded_in(
                    #[trigger] boids@[k],
                    min_x as int,
                    max_x as int,
                    min_y as int,
                    max_y as int,
                    size,
                ),
    {
        let mut boids: Vec<Boid> = Vec::new();
        let mut i: u32 = 0;
        while i < n
            invariant
                min_x < max_x,
                min_y < max_y,
                0 <= i <= n,
                boids@.len() == i,
                forall|k: int|
                    0 <= k < i ==> seeded_in(
                        #[trigger] boids@[k],
                        min_x as int,
                        max_x as int,
                        min_y as int,
                        max_y as int,
                        size,
                    ),
            decreases n - i,
        {
            let boid: Boid = Boid::random(min_x, max_x, min_y, max_y, size);
            boids.push(boid);
            i = i + 1;
        }
        boids
    }

    /// Wraps the boid's position on the rectangle from `(min_x, min_y)` to
    /// `(max_x, max_y)`: on each axis, a coordinate below the lower bound
    /// moves to the upper bound, one above the upper bound moves to the
    /// lower bound, and one on or between the bounds stays. The rectangle
    /// must have room on both axes: there is no wrapping on edges that
    /// coincide or stand the wrong way round.
    pub fn bounding(boid: &mut Boid, min_x: i64, max_x: i64, min_y: i64, max_y: i64)
        requires
            min_x < max_x,
            min_y < max_y,
        ensures
            final(boid).position.x == wrapped(
                old(boid).position.x as int,
                min_x as int,
                max_x as int,
            ),
            final(boid).position.y == wrapped(
                old(boid).position.y as int,
                min_y as int,
                max_y as int,
            ),
            min_x <= final(boid).position.x <= max_x,
            min_y <= final(boid).position.y <= max_y,
            final(boid).size == old(boid).size,
            final(boid).velocity == old(boid).velocity,
    {
        if boid.position.x < min_x {
            boid.position.x = max_x;
        } else if boid.position.x > max_x {
            boid.position.x = min_x;
        }
        if boid.position.y < min_y {
            boid.position.y = max_y;
        } else if boid.position.y > max_y {
            boid.position.y = min_y;
        }
    }

    /// Caps the boid's speed at `max_velocity`, for every limit from zero:
    /// a velocity no longer than the limit is kept, a longer one is
    /// rescaled to that length, each component rounded toward zero, so that
    /// none changes its sign. The rescaled velocity is never faster than
    /// the limit and less than two grid steps slower. Where the limit is at
    /// least [`MIN_LIMIT`], that is within one part in a hundred thousand
    /// of it.
    pub fn limiting(boid: &mut Boid, max_velocity: i64)
        requires
            0 <= max_velocity,
        ensures
            final(boid).velocity@ == old(boid).velocity@.capped(max_velocity as int),
            final(boid).velocity@.magnitude_sq() <= max_velocity * max_velocity,
            old(boid).velocity@.magnitude_sq() <= max_velocity * max_velocity
                ==> final(boid).velocity == old(boid).velocity,
            old(boid).velocity@.magnitude_sq() > max_velocity * max_velocity && max_velocity >= 2
                ==> (max_velocity - 2) * (max_velocity - 2)
                < final(boid).velocity@.magnitude_sq(),
            old(boid).velocity@.magnitude_sq() > max_velocity * max_velocity && max_velocity
                >= MIN_LIMIT ==> (99_999 * max_velocity) * (99_999 * max_velocity)
                < 10_000_000_000 * final(boid).velocity@.magnitude_sq(),
            old(boid).velocity.x >= 0 ==> final(boid).velocity.x >= 0,
            old(boid).velocity.x <= 0 ==> final(boid).velocity.x <= 0,
            old(boid).velocity.y >= 0 ==> final(boid).velocity.y >= 0,
            old(boid).velocity.y <= 0 ==> final(boid).velocity.y <= 0,
            final(boid).position == old(boid).position,
            final(boid).size == old(boid).size,
    {
        boid.velocity = boid.velocity.limit_magnitude(max_velocity);
    }

    /// Moves the boid by its velocity.
    pub fn moving(boid: &mut Boid)
        requires
            i64::MIN <= old(boid).position.x + old(boid).velocity.x <= i64::MAX,
            i64::MIN <= old(boid).position.y + old(boid).velocity.y <= i64::MAX,
        ensures
            final(boid).position@ == old(boid).position@.plus(old(boid).velocity@),
            final(boid).size == old(boid).size,
            final(boid).velocity == old(boid).velocity,
    {
        boid.position = Vector2 {
            x: boid.position.x + boid.velocity.x,
            y: boid.position.y + boid.velocity.y,
        };
    }

    /// The boids of `boids` that `boid` can see: every one that is not equal
    /// to `boid` and lies strictly closer to it than `max_dist`, in the
    /// order of `boids`. The result is empty where there is none.
    pub fn extract_neightbours(boid: &Boid, boids: &Vec<Boid>, max_dist: i64) -> (neighbours: Vec<
        Boid,
    >)
        ensures
            neighbours@ == neighbours_of(*boid, boids@, max_dist as int),
            neighbours@.len() <= boids@.len(),
            !neighbours@.contains(*boid),
            forall|k: int|
                0 <= k < neighbours@.len() ==> closer_than(
                    boid.position,
                    (#[trigger] neighbours@[k]).position,
                    max_dist as int,
                ),
            forall|j: int|
                0 <= j < boids@.len() && #[trigger] boids@[j] != *boid && !neighbours@.contains(
                    boids@[j],
                ) ==> !closer_than(boid.position, boids@[j].position, max_dist as int),
    {
        let ghost pred = |other: Boid| is_neighbour(*boid, other, max_dist as int);
        let mut neighbours: Vec<Boid> = Vec::new();
        let mut i: usize = 0;
        proof {
            reveal(Seq::filter);
            assert(boids@.take(0) =~= Seq::<Boid>::empty());
        }
        while i < boids.len()
            invariant
                0 <= i <= boids@.len(),
                pred == |other: Boid| is_neighbour(*boid, other, max_dist as int),
                neighbours@ == boids@.take(i as int).filter(pred),
            decreases boids@.len() - i,
        {
            let other: Boid = boids[i];
            proof {
                reveal(Seq::filter);
                assert(boids@.take(i + 1).drop_last() =~= boids@.take(i as int));
                assert(boids@.take(i + 1).last() == other);
            }
            if *boid != other {
                if boid.position.within(other.position, max_dist) {
                    neighbours.push(other);
                }
            }
            i = i + 1;
        }
        proof {
            assert(boids@.take(i as int) =~= boids@);
            boids@.lemma_filter_len(pred);
            law_neighbours_exclude_equal(*boid, boids@, max_dist as int);
            assert forall|k: int| 0 <= k < neighbours@.len() implies closer_than(
                boid.position,
                (#[trigger] neighbours@[k]).position,
                max_dist as int,
            ) by {
                boids@.lemma_filter_pred(pred, k);
            }
            assert forall|j: int|
                0 <= j < boids@.len() && #[trigger] boids@[j] != *boid && !neighbours@.contains(
                    boids@[j],
                ) implies !closer_than(boid.position, boids@[j].position, max_dist as int) by {
                if pred(boids@[j]) {
                    boids@.lemma_filter_contains(pred, j);
                }
            }
        }
        neighbours
    }
}

/// No boid is its own neighbour: whatever the flock and the radius, the
/// neighbours of `boid` hold no boid equal to `boid`.
pub proof fn law_neighbours_exclude_equal(boid: Boid, boids: Seq<Boid>, max_dist: int)
    ensures
        !neighbours_of(boid, boids, max_dist).contains(boid),
        forall|k: int|
            0 <= k < neighbours_of(boid, boids, max_dist).len() ==> #[trigger] neighbours_of(
                boid,
                boids,
                max_dist,
            )[k] != boid,
{
    let pred = |other: Boid| is_neighbour(boid, other, max_dist);
    let out = boids.filter(pred);
    assert forall|k: int| 0 <= k < out.len() implies #[trigger] out[k] != boid by {
        boids.lemma_filter_pred(pred, k);
    }
}

/// The neighbours are the boids within the radius: every neighbour is a
/// boid of the flock at a distance strictly less than `max_dist`, and every
/// boid of the flock that is neither equal to `boid` nor among the
/// neighbours is at a distance of `max_dist` or more.
pub proof fn law_neighbours_within_radius(boid: Boid, boids: Seq<Boid>, max_dist: int)
    requires
        max_dist > 0,
    ensures
        neighbours_of(boid, boids, max_dist).len() <= boids.len(),
        forall|k: int|
            0 <= k < neighbours_of(boid, boids, max_dist).len() ==> {
                &&& boids.contains(#[trigger] neighbours_of(boid, boids, max_dist)[k])
                &&& boid.position@.minus(
                    neighbours_of(boid, boids, max_dist)[k].position@,
                ).magnitude_sq() < max_dist * max_dist
            },
        forall|j: int|
            0 <= j < boids.len() && #[trigger] boids[j] != boid && !neighbours_of(
                boid,
                boids,
                max_dist,
            ).contains(boids[j]) ==> boid.position@.minus(boids[j].position@).magnitude_sq()
                >= max_dist * max_dist,
{
    let pred = |other: Boid| is_neighbour(boid, other, max_dist);
    let out = boids.filter(pred);
    boids.lemma_filter_len(pred);
    assert forall|k: int| 0 <= k < out.len() implies boids.contains(#[trigger] out[k])
        && boid.position@.minus(out[k].position@).magnitude_sq() < max_dist * max_dist by {
        boids.lemma_filter_pred(pred, k);
        assert(out.contains(out[k]));
        boids.lemma_filter_contains_rev(pred, out[k]);
    }
    assert forall|j: int|
        0 <= j < boids.len() && #[trigger] boids[j] != boid && !out.contains(
            boids[j],
        ) implies boid.position@.minus(boids[j].position@).magnitude_sq() >= max_dist
        * max_dist by {
        if pred(boids[j]) {
            boids.lemma_filter_contains(pred, j);
        }
    }
}

/// Wrapping on an interval that is not empty sends a coordinate beyond the
/// upper bound to the lower bound and one beyond the lower bound to the
/// upper bound, and leaves a coordinate on or between the bounds where it
/// is.
pub proof fn law_wrapped(c: int, min: int, max: int)
    requires
        min <= max,
    ensures
        c > max ==> wrapped(c, min, max) == min,
        c < min ==> wrapped(c, min, max) == max,
        min <= c <= max ==> wrapped(c, min, max) == c,
        min <= wrapped(c, min, max) <= max,
{
}

} // verus!
