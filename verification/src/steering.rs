//! The three steering rules: toward the centre of the neighbours, toward
//! their heading, and away from those that come too close.

use vstd::prelude::*;
use vstd::arithmetic::div_mod::{
    lemma_div_is_ordered, lemma_div_multiples_vanish, lemma_div_pos_is_pos,
};
use crate::numeric::{abs, quot};
use crate::vector::{
    Offset, Vector2, closer_than, law_rescaled_length, law_zero_rescaled, lemma_rescaled_norm,
    rescale,
};
use crate::boid::Boid;

verus! {

/// Boids closer than this crowd each other: 35 world units.
pub const SEPARATION_RADIUS: i64 = 35_000_000_000;

/// The length of the pull toward the neighbours' centre: one world unit.
pub const CENTERING_PULL: i64 = 1_000_000_000;

/// The length of the pull toward the neighbours' heading: one world unit.
pub const ALIGNING_PULL: i64 = 1_000_000_000;

/// The length of the push away from a crowd: four world units.
pub const SEPARATING_PUSH: i64 = 4_000_000_000;

/// The largest crowd that the separation rule can add up: as many boids
/// closer than [`SEPARATION_RADIUS`] as a count of 32 bits can hold. How
/// many neighbours stand further off does not matter.
pub const MAX_NEIGHBOURS: usize = 0xffff_ffff;

/// The sum of the vectors of `vs`.
pub open spec fn total(vs: Seq<Offset>) -> Offset
    decreases vs.len(),
{
    if vs.len() == 0 {
        Offset::zero()
    } else {
        total(vs.drop_last()).plus(vs.last())
    }
}

/// The mean of the vectors of `vs`, each component rounded toward zero.
pub open spec fn average(vs: Seq<Offset>) -> Offset {
    Offset { x: quot(total(vs).x, vs.len() as int), y: quot(total(vs).y, vs.len() as int) }
}

/// The positions of `ns`, in order.
pub open spec fn positions(ns: Seq<Boid>) -> Seq<Offset> {
    ns.map_values(|n: Boid| n.position@)
}

/// The velocities of `ns`, in order.
pub open spec fn velocities(ns: Seq<Boid>) -> Seq<Offset> {
    ns.map_values(|n: Boid| n.velocity@)
}

/// The boids of `ns` that crowd `boid`: those strictly closer to it than
/// [`SEPARATION_RADIUS`].
pub open spec fn crowd(boid: Boid, ns: Seq<Boid>) -> Seq<Boid> {
    ns.filter(|n: Boid| closer_than(boid.position, n.position, SEPARATION_RADIUS as int))
}

/// For each boid of `ns`, the vector from it to `boid`.
pub open spec fn retreats(boid: Boid, ns: Seq<Boid>) -> Seq<Offset> {
    ns.map_values(|n: Boid| boid.position@.minus(n.position@))
}

/// The pull of `boid` toward the centre of `ns`: from its position to the
/// mean position of `ns`, rescaled to [`CENTERING_PULL`].
pub open spec fn centering_of(boid: Boid, ns: Seq<Boid>) -> Offset {
    average(positions(ns)).minus(boid.position@).rescaled(CENTERING_PULL as int)
}

/// The pull of `boid` toward the heading of `ns`: from its velocity to the
/// mean velocity of `ns`, rescaled to [`ALIGNING_PULL`].
pub open spec fn aligning_of(boid: Boid, ns: Seq<Boid>) -> Offset {
    average(velocities(ns)).minus(boid.velocity@).rescaled(ALIGNING_PULL as int)
}

/// The push of `boid` away from those of `ns` that crowd it: the sum of the
/// vectors from each of them to `boid`, rescaled to [`SEPARATING_PUSH`].
pub open spec fn separating_of(boid: Boid, ns: Seq<Boid>) -> Offset {
    total(retreats(boid, crowd(boid, ns))).rescaled(SEPARATING_PUSH as int)
}

/// Adding one vector at the end of a sequence adds it to the total.
pub proof fn lemma_total_push(vs: Seq<Offset>, v: Offset)
    ensures
        total(vs.push(v)) == total(vs).plus(v),
{
    assert(vs.push(v).drop_last() =~= vs);
}

/// A component of a vector is shorter than any radius that the vector lies
/// within.
proof fn lemma_component_below(a: Vector2, b: Vector2, radius: int)
    requires
        closer_than(a, b, radius),
    ensures
        abs(a.x - b.x) < radius,
        abs(a.y - b.y) < radius,
{
    let dx = a.x - b.x;
    let dy = a.y - b.y;
    assert(a@.minus(b@).magnitude_sq() == dx * dx + dy * dy);
    assert(abs(dx) < radius) by (nonlinear_arith)
        requires
            dx * dx + dy * dy < radius * radius,
            radius > 0,
    ;
    assert(abs(dy) < radius) by (nonlinear_arith)
        requires
            dx * dx + dy * dy < radius * radius,
            radius > 0,
    ;
}

/// `a / n` rounded toward zero.
fn quotient(a: i128, n: usize) -> (r: i128)
    requires
        0 < n,
        abs(a as int) <= n * 0x8000_0000_0000_0000,
    ensures
        r == quot(a as int, n as int),
        abs(r as int) <= 0x8000_0000_0000_0000,
{
    let d: i128 = n as i128;
    proof {
        lemma_div_is_ordered(abs(a as int), d * 0x8000_0000_0000_0000, d as int);
        lemma_div_multiples_vanish(0x8000_0000_0000_0000, d as int);
        lemma_div_pos_is_pos(abs(a as int), d as int);
    }
    if a >= 0 {
        a / d
    } else {
        -((-a) / d)
    }
}

/// The mean position of `ns`, or their mean velocity where `heading` is
/// set, each component rounded toward zero.
fn mean_of(ns: &Vec<Boid>, heading: bool) -> (r: (i128, i128))
    requires
        ns@.len() > 0,
    ensures
        (Offset { x: r.0 as int, y: r.1 as int }) == average(
            if heading {
                velocities(ns@)
            } else {
                positions(ns@)
            },
        ),
        abs(r.0 as int) <= 0x8000_0000_0000_0000,
        abs(r.1 as int) <= 0x8000_0000_0000_0000,
{
    let ghost column = |s: Seq<Boid>|
        if heading {
            velocities(s)
        } else {
            positions(s)
        };
    let mut sx: i128 = 0;
    let mut sy: i128 = 0;
    let mut i: usize = 0;
    proof {
        assert(ns@.take(0) =~= Seq::<Boid>::empty());
        assert(column(ns@.take(0)) =~= Seq::<Offset>::empty());
    }
    while i < ns.len()
        invariant
            0 <= i <= ns@.len(),
            column == |s: Seq<Boid>|
                if heading {
                    velocities(s)
                } else {
                    positions(s)
                },
            (Offset { x: sx as int, y: sy as int }) == total(column(ns@.take(i as int))),
            abs(sx as int) <= i * 0x8000_0000_0000_0000,
            abs(sy as int) <= i * 0x8000_0000_0000_0000,
        decreases ns@.len() - i,
    {
        let v: Vector2 = if heading {
            ns[i].velocity
        } else {
            ns[i].position
        };
        proof {
            assert(column(ns@.take(i + 1)) =~= column(ns@.take(i as int)).push(v@));
            lemma_total_push(column(ns@.take(i as int)), v@);
        }
        sx = sx + v.x as i128;
        sy = sy + v.y as i128;
        i = i + 1;
    }
    proof {
        assert(ns@.take(i as int) =~= ns@);
    }
    (quotient(sx, ns.len()), quotient(sy, ns.len()))
}

/// A pull that is a rescaled vector is no longer than its target, and less
/// than two grid steps shorter where the vector is not zero.
proof fn lemma_pull_length(v: Offset, m: int)
    requires
        2 <= m,
    ensures
        v.rescaled(m).magnitude_sq() <= m * m,
        v != Offset::zero() ==> (m - 2) * (m - 2) < v.rescaled(m).magnitude_sq(),
{
    lemma_rescaled_norm(v, m);
    if v != Offset::zero() {
        law_rescaled_length(v, m);
    }
}

impl Boid {
    /// The pull toward the centre of the neighbours: the vector from the
    /// boid's position to their mean position, rescaled to
    /// [`CENTERING_PULL`]. It is zero where the boid stands at that centre,
    /// and else less than two grid steps short of one world unit.
    pub fn centering(boid: &Boid, neighbours: &Vec<Boid>) -> (pull: Vector2)
        requires
            neighbours@.len() > 0,
        ensures
            pull@ == centering_of(*boid, neighbours@),
            pull@.magnitude_sq() <= CENTERING_PULL * CENTERING_PULL,
            average(positions(neighbours@)).minus(boid.position@) != Offset::zero()
                ==> (CENTERING_PULL - 2) * (CENTERING_PULL - 2) < pull@.magnitude_sq(),
    {
        let (mx, my) = mean_of(neighbours, false);
        let cx: i128 = mx - boid.position.x as i128;
        let cy: i128 = my - boid.position.y as i128;
        proof {
            lemma_pull_length(Offset { x: cx as int, y: cy as int }, CENTERING_PULL as int);
            lemma_fits(cx as int, CENTERING_PULL as int);
            lemma_fits(cy as int, CENTERING_PULL as int);
        }
        rescale(cx, cy, CENTERING_PULL)
    }

    /// The pull toward the heading of the neighbours: the vector from the
    /// boid's velocity to their mean velocity, rescaled to
    /// [`ALIGNING_PULL`]. It is zero where the boid already moves as they do
    /// on average, and else less than two grid steps short of one world
    /// unit.
    pub fn aligning(boid: &Boid, neighbours: &Vec<Boid>) -> (pull: Vector2)
        requires
            neighbours@.len() > 0,
        ensures
            pull@ == aligning_of(*boid, neighbours@),
            pull@.magnitude_sq() <= ALIGNING_PULL * ALIGNING_PULL,
            average(velocities(neighbours@)).minus(boid.velocity@) != Offset::zero()
                ==> (ALIGNING_PULL - 2) * (ALIGNING_PULL - 2) < pull@.magnitude_sq(),
    {
        let (mx, my) = mean_of(neighbours, true);
        let cx: i128 = mx - boid.velocity.x as i128;
        let cy: i128 = my - boid.velocity.y as i128;
        proof {
            lemma_pull_length(Offset { x: cx as int, y: cy as int }, ALIGNING_PULL as int);
            lemma_fits(cx as int, ALIGNING_PULL as int);
            lemma_fits(cy as int, ALIGNING_PULL as int);
        }
        rescale(cx, cy, ALIGNING_PULL)
    }

    /// The push away from the neighbours that crowd the boid: the sum of the
    /// vectors from each neighbour closer than [`SEPARATION_RADIUS`] to the
    /// boid, rescaled to [`SEPARATING_PUSH`]. It is zero where no neighbour
    /// is that close, however many neighbours there are, or where the
    /// vectors cancel, and else less than two grid steps short of four
    /// world units.
    pub fn separating(boid: &Boid, neighbours: &Vec<Boid>) -> (push: Vector2)
        requires
            crowd(*boid, neighbours@).len() <= MAX_NEIGHBOURS,
        ensures
            push@ == separating_of(*boid, neighbours@),
            push@.magnitude_sq() <= SEPARATING_PUSH * SEPARATING_PUSH,
            total(retreats(*boid, crowd(*boid, neighbours@))) != Offset::zero()
                ==> (SEPARATING_PUSH - 2) * (SEPARATING_PUSH - 2) < push@.magnitude_sq(),
            (forall|k: int|
                0 <= k < neighbours@.len() ==> !closer_than(
                    boid.position,
                    (#[trigger] neighbours@[k]).position,
                    SEPARATION_RADIUS as int,
                )) ==> push@ == Offset::zero(),
    {
        let ghost pred = |n: Boid| closer_than(boid.position, n.position, SEPARATION_RADIUS as int);
        let mut vx: i128 = 0;
        let mut vy: i128 = 0;
        let mut i: usize = 0;
        proof {
            reveal(Seq::filter);
            assert(neighbours@.take(0) =~= Seq::<Boid>::empty());
            assert(retreats(*boid, neighbours@.take(0).filter(pred)) =~= Seq::<Offset>::empty());
        }
        while i < neighbours.len()
            invariant
                0 <= i <= neighbours@.len(),
                pred == |n: Boid|
                    closer_than(boid.position, n.position, SEPARATION_RADIUS as int),
                (Offset { x: vx as int, y: vy as int }) == total(
                    retreats(*boid, neighbours@.take(i as int).filter(pred)),
                ),
                neighbours@.take(i as int).filter(pred).len() <= i,
                abs(vx as int) <= neighbours@.take(i as int).filter(pred).len()
                    * SEPARATION_RADIUS,
                abs(vy as int) <= neighbours@.take(i as int).filter(pred).len()
                    * SEPARATION_RADIUS,
            decreases neighbours@.len() - i,
        {
            let n: Boid = neighbours[i];
            let ghost seen = neighbours@.take(i as int);
            proof {
                assert(neighbours@.take(i + 1) =~= seen.push(n));
                seen.lemma_filter_push(n, pred);
                assert(seen.filter(pred).len() * SEPARATION_RADIUS <= i * SEPARATION_RADIUS)
                    by (nonlinear_arith)
                    requires
                        seen.filter(pred).len() <= i,
                ;
            }
            if boid.position.within(n.position, SEPARATION_RADIUS) {
                proof {
                    lemma_component_below(boid.position, n.position, SEPARATION_RADIUS as int);
                    let away = boid.position@.minus(n.position@);
                    assert(retreats(*boid, seen.filter(pred).push(n)) =~= retreats(
                        *boid,
                        seen.filter(pred),
                    ).push(away));
                    lemma_total_push(retreats(*boid, seen.filter(pred)), away);
                }
                vx = vx + (boid.position.x as i128 - n.position.x as i128);
                vy = vy + (boid.position.y as i128 - n.position.y as i128);
            }
            i = i + 1;
        }
        proof {
            assert(neighbours@.take(i as int) =~= neighbours@);
            if forall|k: int|
                0 <= k < neighbours@.len() ==> !closer_than(
                    boid.position,
                    (#[trigger] neighbours@[k]).position,
                    SEPARATION_RADIUS as int,
                ) {
                law_no_crowd_no_push(*boid, neighbours@);
            }
            lemma_pull_length(Offset { x: vx as int, y: vy as int }, SEPARATING_PUSH as int);
            let crowded = crowd(*boid, neighbours@).len();
            assert(abs(vx as int) * (2 * SEPARATING_PUSH) <= u128::MAX && abs(vy as int) * (2
                * SEPARATING_PUSH) <= u128::MAX && abs(vx as int) <= i128::MAX && abs(vy as int)
                <= i128::MAX) by (nonlinear_arith)
                requires
                    abs(vx as int) <= crowded * 35_000_000_000,
                    abs(vy as int) <= crowded * 35_000_000_000,
                    crowded <= 0xffff_ffff,
                    SEPARATING_PUSH == 4_000_000_000,
            ;
        }
        rescale(vx, vy, SEPARATING_PUSH)
    }
}

/// A difference of two grid coordinates, doubled and multiplied by a pull,
/// still fits 128 bits.
proof fn lemma_fits(c: int, m: int)
    requires
        abs(c) <= 0x1_0000_0000_0000_0000,
        0 <= m <= 4_000_000_000,
    ensures
        abs(c) * (2 * m) <= u128::MAX,
{
    assert(abs(c) * (2 * m) <= u128::MAX) by (nonlinear_arith)
        requires
            0 <= abs(c) <= 0x1_0000_0000_0000_0000,
            0 <= m <= 4_000_000_000,
    ;
}

/// Without a crowd there is no push: where no boid of `ns` is closer to
/// `boid` than [`SEPARATION_RADIUS`], the crowd is empty and the
/// separating vector is zero, however many boids `ns` holds.
pub proof fn law_no_crowd_no_push(boid: Boid, ns: Seq<Boid>)
    requires
        forall|k: int|
            0 <= k < ns.len() ==> !closer_than(
                boid.position,
                (#[trigger] ns[k]).position,
                SEPARATION_RADIUS as int,
            ),
    ensures
        crowd(boid, ns).len() == 0,
        separating_of(boid, ns) == Offset::zero(),
{
    let pred = |n: Boid| closer_than(boid.position, n.position, SEPARATION_RADIUS as int);
    assert forall|k: int| 0 <= k < ns.len() implies !pred(#[trigger] ns[k]) by {
        assert(!closer_than(boid.position, ns[k].position, SEPARATION_RADIUS as int));
    }
    assert(ns.all(|n: Boid| !pred(n)));
    ns.lemma_all_neg_filter_empty(pred);
    assert(retreats(boid, crowd(boid, ns)) =~= Seq::<Offset>::empty());
    law_zero_rescaled(SEPARATING_PUSH as int);
}

/// The total of two sequences laid end to end is the sum of their totals.
pub proof fn lemma_total_concat(u: Seq<Offset>, v: Seq<Offset>)
    ensures
        total(u + v) == total(u).plus(total(v)),
    decreases v.len(),
{
    if v.len() == 0 {
        assert(u + v =~= u);
    } else {
        assert((u + v).drop_last() =~= u + v.drop_last());
        lemma_total_concat(u, v.drop_last());
    }
}

/// The total of four runs does not change when the two in the middle
/// change places.
proof fn lemma_total_exchange(a: Seq<Offset>, u: Seq<Offset>, v: Seq<Offset>, b: Seq<Offset>)
    ensures
        total(a + u + v + b) == total(a + v + u + b),
{
    lemma_total_concat(a, u);
    lemma_total_concat(a + u, v);
    lemma_total_concat(a + u + v, b);
    lemma_total_concat(a, v);
    lemma_total_concat(a + v, u);
    lemma_total_concat(a + v + u, b);
}

/// The steering rules ask who the neighbours are, not in which order they
/// come: where two runs of neighbours that follow one another change
/// places, each of the three steering vectors stays what it was.
pub proof fn law_steering_ignores_order(
    boid: Boid,
    a: Seq<Boid>,
    u: Seq<Boid>,
    v: Seq<Boid>,
    b: Seq<Boid>,
)
    ensures
        centering_of(boid, a + u + v + b) == centering_of(boid, a + v + u + b),
        aligning_of(boid, a + u + v + b) == aligning_of(boid, a + v + u + b),
        separating_of(boid, a + u + v + b) == separating_of(boid, a + v + u + b),
{
    let one = a + u + v + b;
    let two = a + v + u + b;
    assert(one.len() == two.len());
    assert(positions(one) =~= positions(a) + positions(u) + positions(v) + positions(b));
    assert(positions(two) =~= positions(a) + positions(v) + positions(u) + positions(b));
    lemma_total_exchange(positions(a), positions(u), positions(v), positions(b));
    assert(positions(one).len() == positions(two).len());
    assert(velocities(one) =~= velocities(a) + velocities(u) + velocities(v) + velocities(b));
    assert(velocities(two) =~= velocities(a) + velocities(v) + velocities(u) + velocities(b));
    lemma_total_exchange(velocities(a), velocities(u), velocities(v), velocities(b));
    assert(velocities(one).len() == velocities(two).len());
    let pred = |n: Boid| closer_than(boid.position, n.position, SEPARATION_RADIUS as int);
    Seq::filter_distributes_over_add(a, u, pred);
    Seq::filter_distributes_over_add(a + u, v, pred);
    Seq::filter_distributes_over_add(a + u + v, b, pred);
    Seq::filter_distributes_over_add(a, v, pred);
    Seq::filter_distributes_over_add(a + v, u, pred);
    Seq::filter_distributes_over_add(a + v + u, b, pred);
    let ca = a.filter(pred);
    let cu = u.filter(pred);
    let cv = v.filter(pred);
    let cb = b.filter(pred);
    assert(crowd(boid, one) == ca + cu + cv + cb);
    assert(crowd(boid, two) == ca + cv + cu + cb);
    assert(retreats(boid, ca + cu + cv + cb) =~= retreats(boid, ca) + retreats(boid, cu)
        + retreats(boid, cv) + retreats(boid, cb));
    assert(retreats(boid, ca + cv + cu + cb) =~= retreats(boid, ca) + retreats(boid, cv)
        + retreats(boid, cu) + retreats(boid, cb));
    lemma_total_exchange(
        retreats(boid, ca),
        retreats(boid, cu),
        retreats(boid, cv),
        retreats(boid, cb),
    );
}

} // verus!
