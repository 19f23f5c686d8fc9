//! The flock as a whole: its boids, its constants, and the tick that moves
//! every boid by what it saw before the tick began.

use vstd::prelude::*;
use crate::numeric::{abs, quot};
use crate::vector::{
    MIN_LIMIT, Offset, Vector2, cap, closer_than, law_capped_length, law_capped_relative,
    lemma_capped_norm,
};
use crate::boid::{Boid, is_neighbour, neighbours_of, seeded_in, wrapped};
use crate::steering::{
    ALIGNING_PULL, CENTERING_PULL, MAX_NEIGHBOURS, SEPARATING_PUSH, SEPARATION_RADIUS,
    aligning_of, centering_of, law_steering_ignores_order, separating_of,
};

verus! {

/// The number of boids that a new flock starts with.
pub const FLOCK_SIZE: u32 = 40;

/// The width and the height at which a boid is drawn: ten world units.
pub const BOID_SIZE: i64 = 10_000_000_000;

/// How far a boid of a new flock sees: fifty world units.
pub const MAX_DIST: i64 = 50_000_000_000;

/// How fast a boid of a new flock may move: ten world units a tick.
pub const MAX_VELOCITY: i64 = 10_000_000_000;

/// The largest coordinate of a world's edge; a speed limit stays below it.
/// A boid that starts a move inside such a world, no faster than such a
/// limit, ends it on the grid.
pub const COORD_LIMIT: i64 = 0x4000_0000_0000_0000;

/// Why a flock could not be made or moved.
#[derive(Clone, Copy, Debug, PartialEq, Eq, Structural)]
pub enum ModelError {
    /// The surface leaves no room: its width or its height is zero or
    /// less, so that the world would have no extent, or its edges would
    /// be the wrong way round.
    DegenerateBounds,
    /// The speed limit is negative, or [`COORD_LIMIT`] or more.
    SpeedLimitOutOfRange,
    /// The flock has more than [`MAX_NEIGHBOURS`] boids.
    FlockTooLarge,
}

/// The edges of the world, a rectangle with its sides along the axes.
#[derive(Clone, Copy, Debug, PartialEq, Eq, Structural)]
pub struct Bounds {
    pub min_x: i64,
    pub max_x: i64,
    pub min_y: i64,
    pub max_y: i64,
}

/// A flock and its constants.
#[derive(Debug, PartialEq, Eq)]
pub struct Model {
    /// The boids, in a fixed order.
    pub boids: Vec<Boid>,
    /// How far a boid sees.
    pub max_dist: i64,
    /// How fast a boid may move.
    pub max_velocity: i64,
}

/// The world that a surface of the given width and height shows: as wide
/// and as high as the surface, and centred on the origin. The lower edges
/// lie half the extent away, rounded toward zero, so with an odd extent
/// the upper edges are one grid step further out.
pub open spec fn centred(win_w: i64, win_h: i64) -> Bounds {
    Bounds {
        min_x: (-quot(win_w as int, 2)) as i64,
        max_x: (win_w - quot(win_w as int, 2)) as i64,
        min_y: (-quot(win_h as int, 2)) as i64,
        max_y: (win_h - quot(win_h as int, 2)) as i64,
    }
}

/// The velocity of `boid` after steering by what it sees in `flock`: with
/// neighbours, its velocity plus the three steering vectors; without, its
/// velocity as it is.
pub open spec fn steered(boid: Boid, flock: Seq<Boid>, max_dist: int) -> Offset {
    let ns = neighbours_of(boid, flock, max_dist);
    if ns.len() > 0 {
        boid.velocity@.plus(centering_of(boid, ns)).plus(aligning_of(boid, ns)).plus(
            separating_of(boid, ns),
        )
    } else {
        boid.velocity@
    }
}

/// The velocity of `boid` after one tick in `flock`: steered, then capped.
pub open spec fn next_velocity(boid: Boid, flock: Seq<Boid>, max_dist: int, max_velocity: int) -> Offset {
    steered(boid, flock, max_dist).capped(max_velocity)
}

/// The position of `boid` after wrapping on the edges of the world.
pub open spec fn wrapped_position(boid: Boid, bounds: Bounds) -> Offset {
    Offset {
        x: wrapped(boid.position.x as int, bounds.min_x as int, bounds.max_x as int),
        y: wrapped(boid.position.y as int, bounds.min_y as int, bounds.max_y as int),
    }
}

/// `next` is `boid` one tick later, given the flock as it was before the
/// tick: the new velocity is the steered and capped one, the new position
/// is the wrapped old position moved by the new velocity, and the size is
/// the old one.
pub open spec fn advanced(
    boid: Boid,
    next: Boid,
    flock: Seq<Boid>,
    max_dist: int,
    max_velocity: int,
    bounds: Bounds,
) -> bool {
    &&& next.velocity@ == next_velocity(boid, flock, max_dist, max_velocity)
    &&& next.position@ == wrapped_position(boid, bounds).plus(next.velocity@)
    &&& next.size == boid.size
}

/// `after` is the flock `before` one tick later: it has as many boids, and
/// each is the boid of `before` at the same place, moved by what it saw in
/// `before`.
pub open spec fn ticked(
    before: Seq<Boid>,
    after: Seq<Boid>,
    max_dist: int,
    max_velocity: int,
    bounds: Bounds,
) -> bool {
    &&& after.len() == before.len()
    &&& forall|k: int|
        0 <= k < before.len() ==> advanced(
            before[k],
            #[trigger] after[k],
            before,
            max_dist,
            max_velocity,
            bounds,
        )
}

/// No boid of `boids` is faster than `max_velocity`.
pub open spec fn none_faster(boids: Seq<Boid>, max_velocity: int) -> bool {
    forall|k: int|
        0 <= k < boids.len() ==> (#[trigger] boids[k]).velocity@.magnitude_sq() <= max_velocity
            * max_velocity
}

/// Half of `extent`, rounded toward zero.
fn half(extent: i64) -> (r: i128)
    ensures
        r == quot(extent as int, 2),
        -0x4000_0000_0000_0000 <= r <= 0x3fff_ffff_ffff_ffff,
{
    let e: i128 = extent as i128;
    if e >= 0 {
        e / 2
    } else {
        -((-e) / 2)
    }
}

impl Bounds {
    /// The rectangle has room on both axes and no edge lies beyond
    /// [`COORD_LIMIT`].
    pub open spec fn valid(self) -> bool {
        &&& -COORD_LIMIT <= self.min_x < self.max_x <= COORD_LIMIT
        &&& -COORD_LIMIT <= self.min_y < self.max_y <= COORD_LIMIT
    }

    /// The world that a surface of the given width and height shows.
    pub fn from_surface(win_w: i64, win_h: i64) -> (bounds: Bounds)
        ensures
            bounds == centred(win_w, win_h),
            bounds.min_x == -quot(win_w as int, 2),
            bounds.max_x - bounds.min_x == win_w,
            bounds.min_y == -quot(win_h as int, 2),
            bounds.max_y - bounds.min_y == win_h,
            bounds.valid() <==> win_w >= 1 && win_h >= 1,
    {
        let half_w: i128 = half(win_w);
        let half_h: i128 = half(win_h);
        Bounds {
            min_x: (-half_w) as i64,
            max_x: (win_w as i128 - half_w) as i64,
            min_y: (-half_h) as i64,
            max_y: (win_h as i128 - half_h) as i64,
        }
    }

    /// Whether the rectangle is [`valid`](Bounds::valid).
    pub fn is_valid(&self) -> (r: bool)
        ensures
            r == self.valid(),
    {
        -COORD_LIMIT <= self.min_x && self.min_x < self.max_x && self.max_x <= COORD_LIMIT
            && -COORD_LIMIT <= self.min_y && self.min_y < self.max_y && self.max_y
            <= COORD_LIMIT
    }
}

/// A vector no longer than `m` has no component beyond `m`.
proof fn lemma_component_bounds(v: Offset, m: int)
    requires
        0 <= m,
        v.magnitude_sq() <= m * m,
    ensures
        abs(v.x) <= m,
        abs(v.y) <= m,
{
    assert(abs(v.x) <= m && abs(v.y) <= m) by (nonlinear_arith)
        requires
            v.x * v.x + v.y * v.y <= m * m,
            0 <= m,
    ;
}

impl Boid {
    /// The boid one tick later, steered by what it sees in `flock`: its
    /// velocity gains the three steering vectors where it has neighbours,
    /// is capped at `max_velocity`, and then moves the position, which was
    /// first wrapped on the edges of the world. A velocity that had to be
    /// capped is less than two grid steps slower than the limit, which
    /// for a limit of at least [`MIN_LIMIT`] is within one part in a
    /// hundred thousand of it.
    pub fn advance(
        boid: &Boid,
        flock: &Vec<Boid>,
        max_dist: i64,
        max_velocity: i64,
        bounds: &Bounds,
    ) -> (next: Boid)
        requires
            bounds.valid(),
            0 <= max_velocity < COORD_LIMIT,
            flock@.len() <= MAX_NEIGHBOURS,
        ensures
            advanced(*boid, next, flock@, max_dist as int, max_velocity as int, *bounds),
            next.velocity@.magnitude_sq() <= max_velocity * max_velocity,
            steered(*boid, flock@, max_dist as int).magnitude_sq() > max_velocity * max_velocity
                && max_velocity >= 2 ==> (max_velocity - 2) * (max_velocity - 2)
                < next.velocity@.magnitude_sq(),
            steered(*boid, flock@, max_dist as int).magnitude_sq() > max_velocity * max_velocity
                && max_velocity >= MIN_LIMIT ==> (99_999 * max_velocity) * (99_999
                * max_velocity) < 10_000_000_000 * next.velocity@.magnitude_sq(),
    {
        let neighbours: Vec<Boid> = Boid::extract_neightbours(boid, flock, max_dist);
        let mut vx: i128 = boid.velocity.x as i128;
        let mut vy: i128 = boid.velocity.y as i128;
        if neighbours.len() > 0 {
            proof {
                neighbours@.lemma_filter_len(
                    |n: Boid| closer_than(boid.position, n.position, SEPARATION_RADIUS as int),
                );
            }
            let v1: Vector2 = Boid::centering(boid, &neighbours);
            let v2: Vector2 = Boid::aligning(boid, &neighbours);
            let v3: Vector2 = Boid::separating(boid, &neighbours);
            proof {
                lemma_component_bounds(v1@, CENTERING_PULL as int);
                lemma_component_bounds(v2@, ALIGNING_PULL as int);
                lemma_component_bounds(v3@, SEPARATING_PUSH as int);
            }
            vx = vx + v1.x as i128 + v2.x as i128 + v3.x as i128;
            vy = vy + v1.y as i128 + v2.y as i128 + v3.y as i128;
        }
        let velocity: Vector2 = cap(vx, vy, max_velocity);
        proof {
            let v = Offset { x: vx as int, y: vy as int };
            assert(v == steered(*boid, flock@, max_dist as int));
            lemma_capped_norm(v, max_velocity as int);
            lemma_component_bounds(velocity@, max_velocity as int);
            if v.magnitude_sq() > max_velocity * max_velocity && max_velocity >= 2 {
                law_capped_length(v, max_velocity as int);
            }
            if v.magnitude_sq() > max_velocity * max_velocity && max_velocity >= MIN_LIMIT {
                law_capped_relative(v, max_velocity as int);
            }
        }
        let mut next = Boid { position: boid.position, size: boid.size, velocity };
        Boid::bounding(&mut next, bounds.min_x, bounds.max_x, bounds.min_y, bounds.max_y);
        Boid::moving(&mut next);
        next
    }
}

impl Model {
    /// The speed limit is in range, from zero up to, but not including,
    /// [`COORD_LIMIT`], and the flock is small enough for the separation
    /// rule to add up.
    pub open spec fn wf(&self) -> bool {
        &&& 0 <= self.max_velocity < COORD_LIMIT
        &&& self.boids@.len() <= MAX_NEIGHBOURS
    }

    /// A flock of the given boids. It is refused where the speed limit is
    /// negative or not less than [`COORD_LIMIT`], and else where
    /// there are more boids than [`MAX_NEIGHBOURS`].
    pub fn new(boids: Vec<Boid>, max_dist: i64, max_velocity: i64) -> (r: Result<Model, ModelError>)
        ensures
            match r {
                Ok(model) => {
                    &&& model.wf()
                    &&& model.boids@ == boids@
                    &&& model.max_dist == max_dist
                    &&& model.max_velocity == max_velocity
                },
                Err(ModelError::SpeedLimitOutOfRange) => !(0 <= max_velocity < COORD_LIMIT),
                Err(ModelError::FlockTooLarge) => {
                    &&& 0 <= max_velocity < COORD_LIMIT
                    &&& boids@.len() > MAX_NEIGHBOURS
                },
                Err(ModelError::DegenerateBounds) => false,
            },
    {
        if max_velocity < 0 || max_velocity >= COORD_LIMIT {
            return Err(ModelError::SpeedLimitOutOfRange);
        }
        if boids.len() > MAX_NEIGHBOURS {
            return Err(ModelError::FlockTooLarge);
        }
        Ok(Model { boids, max_dist, max_velocity })
    }

    /// Whether the flock is [well formed](Model::wf).
    pub fn is_valid(&self) -> (r: bool)
        ensures
            r == self.wf(),
    {
        0 <= self.max_velocity && self.max_velocity < COORD_LIMIT && self.boids.len()
            <= MAX_NEIGHBOURS
    }

    /// Moves every boid by one tick inside the given world. Each boid is
    /// steered by the flock as it was before the tick, whatever its place
    /// in the order: no boid sees a move that another made in this tick.
    /// Afterwards no boid is faster than the speed limit.
    pub fn tick(&mut self, bounds: &Bounds)
        requires
            old(self).wf(),
            bounds.valid(),
        ensures
            final(self).wf(),
            final(self).max_dist == old(self).max_dist,
            final(self).max_velocity == old(self).max_velocity,
            ticked(
                old(self).boids@,
                final(self).boids@,
                old(self).max_dist as int,
                old(self).max_velocity as int,
                *bounds,
            ),
            none_faster(final(self).boids@, old(self).max_velocity as int),
    {
        let mut moved: Vec<Boid> = Vec::new();
        let mut i: usize = 0;
        while i < self.boids.len()
            invariant
                *self == *old(self),
                self.wf(),
                bounds.valid(),
                0 <= i <= self.boids@.len(),
                moved@.len() == i,
                forall|k: int|
                    0 <= k < i ==> advanced(
                        self.boids@[k],
                        #[trigger] moved@[k],
                        self.boids@,
                        self.max_dist as int,
                        self.max_velocity as int,
                        *bounds,
                    ),
                forall|k: int|
                    0 <= k < i ==> (#[trigger] moved@[k]).velocity@.magnitude_sq()
                        <= self.max_velocity * self.max_velocity,
            decreases self.boids@.len() - i,
        {
            let next: Boid = Boid::advance(
                &self.boids[i],
                &self.boids,
                self.max_dist,
                self.max_velocity,
                bounds,
            );
            moved.push(next);
            i = i + 1;
        }
        self.boids = moved;
    }
}

/// A new flock for a surface of the given width and height:
/// [`FLOCK_SIZE`] boids of size [`BOID_SIZE`], seeded at random inside the
/// world that the surface shows, that see as far as [`MAX_DIST`] and move
/// no faster than [`MAX_VELOCITY`]. A surface of positive width and height
/// always gets its flock; one that leaves the world without room is
/// refused.
pub fn model(win_w: i64, win_h: i64) -> (r: Result<Model, ModelError>)
    ensures
        r is Ok <==> win_w >= 1 && win_h >= 1,
        match r {
            Ok(model) => {
                &&& centred(win_w, win_h).valid()
                &&& model.wf()
                &&& model.max_dist == MAX_DIST
                &&& model.max_velocity == MAX_VELOCITY
                &&& model.boids@.len() == FLOCK_SIZE
                &&& forall|k: int|
                    0 <= k < model.boids@.len() ==> seeded_in(
                        #[trigger] model.boids@[k],
                        centred(win_w, win_h).min_x as int,
                        centred(win_w, win_h).max_x as int,
                        centred(win_w, win_h).min_y as int,
                        centred(win_w, win_h).max_y as int,
                        Vector2 { x: BOID_SIZE, y: BOID_SIZE },
                    )
            },
            Err(e) => e == ModelError::DegenerateBounds && !centred(win_w, win_h).valid(),
        },
{
    let bounds: Bounds = Bounds::from_surface(win_w, win_h);
    if !bounds.is_valid() {
        return Err(ModelError::DegenerateBounds);
    }
    let size = Vector2 { x: BOID_SIZE, y: BOID_SIZE };
    let boids: Vec<Boid> = Boid::init_boids(
        bounds.min_x,
        bounds.max_x,
        bounds.min_y,
        bounds.max_y,
        size,
        FLOCK_SIZE,
    );
    Ok(Model { boids, max_dist: MAX_DIST, max_velocity: MAX_VELOCITY })
}

/// Moves the flock by one tick inside the world that a surface of the given
/// width and height shows, as [`Model::tick`] does. On every surface of
/// positive width and height the tick is made, and afterwards no boid is
/// faster than the speed limit. A surface without room is refused, and the
/// flock stays as it was: no boid has moved, so a flock that kept the speed
/// limit before keeps it still.
pub fn update(model: &mut Model, win_w: i64, win_h: i64) -> (r: Result<(), ModelError>)
    requires
        old(model).wf(),
    ensures
        final(model).wf(),
        final(model).max_dist == old(model).max_dist,
        final(model).max_velocity == old(model).max_velocity,
        none_faster(old(model).boids@, old(model).max_velocity as int) ==> none_faster(
            final(model).boids@,
            old(model).max_velocity as int,
        ),
        r is Ok <==> win_w >= 1 && win_h >= 1,
        match r {
            Ok(_) => {
                &&& centred(win_w, win_h).valid()
                &&& ticked(
                    old(model).boids@,
                    final(model).boids@,
                    old(model).max_dist as int,
                    old(model).max_velocity as int,
                    centred(win_w, win_h),
                )
                &&& none_faster(final(model).boids@, old(model).max_velocity as int)
            },
            Err(e) => {
                &&& e == ModelError::DegenerateBounds
                &&& !centred(win_w, win_h).valid()
                &&& final(model).boids@ == old(model).boids@
            },
        },
{
    let bounds: Bounds = Bounds::from_surface(win_w, win_h);
    if !bounds.is_valid() {
        return Err(ModelError::DegenerateBounds);
    }
    model.tick(&bounds);
    Ok(())
}

/// The speed limit holds after every tick: whatever the flock was before,
/// no boid of the flock after the tick is faster than `max_velocity`.
pub proof fn law_speed_limit(
    before: Seq<Boid>,
    after: Seq<Boid>,
    max_dist: int,
    max_velocity: int,
    bounds: Bounds,
)
    requires
        0 <= max_velocity,
        ticked(before, after, max_dist, max_velocity, bounds),
    ensures
        none_faster(after, max_velocity),
{
    assert forall|k: int| 0 <= k < after.len() implies (#[trigger] after[k]).velocity@.magnitude_sq()
        <= max_velocity * max_velocity by {
        assert(advanced(before[k], after[k], before, max_dist, max_velocity, bounds));
        lemma_capped_norm(steered(before[k], before, max_dist), max_velocity);
    }
}

/// A tick wraps before it moves. A boid that starts the tick beyond the
/// right edge of the world ends it as far from the left edge as its new
/// velocity carries it, and so on the left edge itself where that velocity
/// has no horizontal part. A boid that starts on or between the edges is
/// only moved: it ends the tick at its old position plus its new velocity.
pub proof fn law_tick_wraps(
    boid: Boid,
    next: Boid,
    flock: Seq<Boid>,
    max_dist: int,
    max_velocity: int,
    bounds: Bounds,
)
    requires
        bounds.valid(),
        advanced(boid, next, flock, max_dist, max_velocity, bounds),
    ensures
        boid.position.x > bounds.max_x ==> next.position.x == bounds.min_x + next.velocity.x,
        boid.position.x > bounds.max_x && next.velocity.x == 0 ==> next.position.x
            == bounds.min_x,
        bounds.min_x <= boid.position.x <= bounds.max_x && bounds.min_y <= boid.position.y
            <= bounds.max_y ==> next.position@ == boid.position@.plus(next.velocity@),
{
}

/// A surface shows a world with room exactly when its width and its
/// height are positive; the world is then as wide and as high as the
/// surface.
pub proof fn law_surface_has_room(win_w: i64, win_h: i64)
    ensures
        centred(win_w, win_h).valid() <==> win_w >= 1 && win_h >= 1,
        centred(win_w, win_h).max_x - centred(win_w, win_h).min_x == win_w,
        centred(win_w, win_h).max_y - centred(win_w, win_h).min_y == win_h,
{
}

/// A tick leaves every boid near the world: no further beyond an edge than
/// the speed limit carries it in one move.
pub proof fn law_tick_stays_near(
    boid: Boid,
    next: Boid,
    flock: Seq<Boid>,
    max_dist: int,
    max_velocity: int,
    bounds: Bounds,
)
    requires
        bounds.valid(),
        0 <= max_velocity,
        advanced(boid, next, flock, max_dist, max_velocity, bounds),
    ensures
        bounds.min_x - max_velocity <= next.position.x <= bounds.max_x + max_velocity,
        bounds.min_y - max_velocity <= next.position.y <= bounds.max_y + max_velocity,
{
    lemma_capped_norm(steered(boid, flock, max_dist), max_velocity);
    lemma_component_bounds(next.velocity@, max_velocity);
}

/// A tick reads the flock as it was and nothing else: two flocks that both
/// are the flock `before` one tick later agree boid for boid. So what a
/// boid does in a tick cannot depend on the order in which the boids are
/// moved, nor on a move that another boid made in the same tick.
pub proof fn law_tick_reads_the_past(
    before: Seq<Boid>,
    after: Seq<Boid>,
    other: Seq<Boid>,
    max_dist: int,
    max_velocity: int,
    bounds: Bounds,
)
    requires
        ticked(before, after, max_dist, max_velocity, bounds),
        ticked(before, other, max_dist, max_velocity, bounds),
    ensures
        after == other,
{
    assert forall|k: int| 0 <= k < after.len() implies after[k] == other[k] by {
        assert(advanced(before[k], after[k], before, max_dist, max_velocity, bounds));
        assert(advanced(before[k], other[k], before, max_dist, max_velocity, bounds));
        assert(after[k].velocity@ == other[k].velocity@);
        assert(after[k].position@ == other[k].position@);
        assert(after[k].velocity == other[k].velocity);
        assert(after[k].position == other[k].position);
    }
    assert(after =~= other);
}

/// A tick does not ask in which order the flock stands: where two runs of
/// boids that follow one another change places, every boid steers as it
/// did, and so ends the tick where it would have ended it.
pub proof fn law_tick_ignores_order(
    boid: Boid,
    next: Boid,
    a: Seq<Boid>,
    u: Seq<Boid>,
    v: Seq<Boid>,
    b: Seq<Boid>,
    max_dist: int,
    max_velocity: int,
    bounds: Bounds,
)
    ensures
        steered(boid, a + u + v + b, max_dist) == steered(boid, a + v + u + b, max_dist),
        advanced(boid, next, a + u + v + b, max_dist, max_velocity, bounds) == advanced(
            boid,
            next,
            a + v + u + b,
            max_dist,
            max_velocity,
            bounds,
        ),
{
    let pred = |other: Boid| is_neighbour(boid, other, max_dist);
    Seq::filter_distributes_over_add(a, u, pred);
    Seq::filter_distributes_over_add(a + u, v, pred);
    Seq::filter_distributes_over_add(a + u + v, b, pred);
    Seq::filter_distributes_over_add(a, v, pred);
    Seq::filter_distributes_over_add(a + v, u, pred);
    Seq::filter_distributes_over_add(a + v + u, b, pred);
    let na = a.filter(pred);
    let nu = u.filter(pred);
    let nv = v.filter(pred);
    let nb = b.filter(pred);
    assert(neighbours_of(boid, a + u + v + b, max_dist) == na + nu + nv + nb);
    assert(neighbours_of(boid, a + v + u + b, max_dist) == na + nv + nu + nb);
    assert((na + nu + nv + nb).len() == (na + nv + nu + nb).len());
    law_steering_ignores_order(boid, na, nu, nv, nb);
}

} // verus!
