//! The bodies of the lanterns: a flying moth that has entered one is set
//! back onto its surface and flies on straight away from it.

use crate::components::{lemma_speed_in_range, Lantern, Moth, Velocity};
use crate::config::{LanternConfig, COORD_MAX};
use crate::fixed::{is_sqrt_floor, lemma_sqrt_floor_exists, ONE};
use crate::resources::{cell_of, filings, neighborhood, SpatialIndex, Vec2, CELL_SIZE};
use crate::setup::{filings_of, lemma_filed_lantern_is_nearby};
use crate::systems::moth::{lanterns_wf, moths_wf};
use crate::vector::{
    least_norm2, lemma_least_norm2_below, lemma_norm2_within, lemma_with_length_norm,
    lemma_within_by_norm, Vec3, Vector,
};
use vstd::prelude::*;

verus! {

/// Position and velocity of a moth that the body of a lantern at `lantern`
/// has turned away.
///
/// A moth nearer to the lantern than `radius` is set at that distance from
/// it, on the line from the lantern through the moth, and flies on along
/// that line at its former speed, rounded down. A moth at the very place of
/// the lantern is on no such line: it stays there and comes to rest.
pub open spec fn pushed_out(position: Vector, velocity: Vector, lantern: Vector, radius: int) -> (
    Vector,
    Vector,
) {
    let away = position.minus(lantern);
    if away.norm2() < radius * radius {
        (lantern.plus(away.with_length(radius)), away.with_length(velocity.length()))
    } else {
        (position, velocity)
    }
}

/// Position and velocity of a moth turned away by the lanterns that
/// `candidates` names, one after the other. A name without a lantern is
/// passed over.
pub open spec fn pushed_out_of_all(
    position: Vector,
    velocity: Vector,
    lanterns: Seq<Lantern>,
    candidates: Seq<u64>,
    radius: int,
) -> (Vector, Vector)
    decreases candidates.len(),
{
    if candidates.len() == 0 {
        (position, velocity)
    } else {
        let (p, v) = pushed_out_of_all(position, velocity, lanterns, candidates.drop_last(), radius);
        let id = candidates.last();
        if id < lanterns.len() {
            pushed_out(p, v, lanterns[id as int].position@, radius)
        } else {
            (p, v)
        }
    }
}

/// The speed lies within the coordinate range.
pub open spec fn speed_in_range(velocity: Vector) -> bool {
    velocity.within(COORD_MAX as int) && velocity.norm2() <= COORD_MAX * COORD_MAX
}

/// Turns a moth away from the body of one lantern: see [`pushed_out`].
/// Unless the moth stood at the lantern's very place, it is afterwards no
/// nearer to the lantern than the radius, and as fast as it was, each but
/// for the rounding.
pub fn resolve_collision(position: &Vec3, velocity: &Vec3, lantern: &Vec3, radius: i64) -> (out: (
    Vec3,
    Vec3,
))
    requires
        position@.within(2 * COORD_MAX),
        speed_in_range(velocity@),
        lantern@.within(COORD_MAX as int),
        0 <= radius <= COORD_MAX,
    ensures
        (out.0@, out.1@) == pushed_out(position@, velocity@, lantern@, radius as int),
        out.0@.within(2 * COORD_MAX),
        speed_in_range(out.1@),
        out.1@.norm2() <= velocity@.norm2(),
        position@ != lantern@ ==> ONE * out.1@.norm2() >= least_norm2(velocity@.length()),
        velocity@ == Vector::zero() ==> out.1@ == Vector::zero(),
        position@ != lantern@ ==> ONE * out.0@.dist2(lantern@) >= least_norm2(radius as int),
        out.0@ != position@ ==> out.0@.dist2(lantern@) <= radius * radius,
{
    let away = position.minus(lantern);
    let d2 = away.norm2();
    proof {
        lemma_norm2_within(velocity@, COORD_MAX as int);
        lemma_sqrt_floor_exists(velocity@.norm2());
        lemma_least_norm2_below(velocity@.length());
        assert(radius * radius <= COORD_MAX * COORD_MAX) by (nonlinear_arith)
            requires
                0 <= radius <= COORD_MAX,
        ;
        lemma_with_length_norm(away@, radius as int);
        lemma_least_norm2_below(radius as int);
    }
    if d2 < (radius as u128) * (radius as u128) {
        let speed = velocity.length();
        proof {
            let n = velocity@.norm2();
            lemma_norm2_within(velocity@, COORD_MAX as int);
            lemma_sqrt_floor_exists(n);
            assert(is_sqrt_floor(n, speed as int));
            assert(speed <= COORD_MAX) by (nonlinear_arith)
                requires
                    speed * speed <= n,
                    n <= COORD_MAX * COORD_MAX,
                    speed >= 0,
            ;
            assert(n == 0 ==> speed == 0) by (nonlinear_arith)
                requires
                    speed * speed <= n,
                    speed >= 0,
            ;
            lemma_with_length_norm(away@, speed as int);
            lemma_speed_in_range(away@.with_length(speed as int), speed as int);
            if n == 0 {
                lemma_within_by_norm(away@.with_length(speed as int), 0);
            }
        }
        let offset = away.with_length(radius);
        let out = lantern.plus(&offset);
        proof {
            assert(out@.minus(lantern@) == offset@);
        }
        (out, away.with_length(speed))
    } else {
        (*position, *velocity)
    }
}

/// What one tick of the collision system makes of a moth: a settled moth
/// is left alone, a flying one is turned away by the lanterns that the
/// index files near it, in the order in which the index hands them out.
pub open spec fn collision_outcome(
    before: Moth,
    after: Moth,
    lanterns: Seq<Lantern>,
    index: Set<((i32, i32), u64)>,
    radius: i64,
) -> bool {
    if before.is_flying() {
        &&& after.facing == before.facing
        &&& after.landed == before.landed
        &&& exists|candidates: Seq<u64>|
            {
                &&& candidates.to_set() == neighborhood(index, cell_of(footprint(before)))
                &&& forall|id: u64|
                    candidates.to_multiset().count(id) == filings(
                        index,
                        cell_of(footprint(before)),
                        id,
                        9,
                    )
                &&& (after.position@, after.velocity.0@) == #[trigger] pushed_out_of_all(
                    before.position@,
                    before.velocity.0@,
                    lanterns,
                    candidates,
                    radius as int,
                )
            }
    } else {
        after == before
    }
}

/// The moth's place in the plane over which the grid is laid: its `x`
/// and its `y`.
pub open spec fn footprint(moth: Moth) -> Vec2 {
    Vec2 { x: moth.position.x, y: moth.position.y }
}

/// Turns a flying moth away from the lanterns that `candidates` names, one
/// after the other: see [`pushed_out_of_all`].
pub fn resolve_collisions(moth: &mut Moth, lanterns: &[Lantern], candidates: &Vec<u64>, radius: i64)
    requires
        old(moth).wf(),
        old(moth).is_flying(),
        lanterns_wf(lanterns@),
        0 <= radius <= COORD_MAX,
    ensures
        (final(moth).position@, final(moth).velocity.0@) == pushed_out_of_all(
            old(moth).position@,
            old(moth).velocity.0@,
            lanterns@,
            candidates@,
            radius as int,
        ),
        final(moth).facing == old(moth).facing,
        final(moth).landed == old(moth).landed,
        final(moth).wf_within(2 * COORD_MAX),
        final(moth).velocity.0@.norm2() <= old(moth).velocity.0@.norm2(),
{
    let mut position = moth.position;
    let mut velocity = moth.velocity.0;
    let mut k: usize = 0;
    while k < candidates.len()
        invariant
            0 <= k <= candidates.len(),
            lanterns_wf(lanterns@),
            0 <= radius <= COORD_MAX,
            position@.within(2 * COORD_MAX),
            speed_in_range(velocity@),
            velocity@.norm2() <= moth.velocity.0@.norm2(),
            (position@, velocity@) == pushed_out_of_all(
                moth.position@,
                moth.velocity.0@,
                lanterns@,
                candidates@.take(k as int),
                radius as int,
            ),
        decreases candidates.len() - k,
    {
        let id = candidates[k];
        proof {
            assert(candidates@.take(k + 1).drop_last() =~= candidates@.take(k as int));
            assert(candidates@.take(k + 1).last() == id);
        }
        if id < lanterns.len() as u64 {
            let lantern = &lanterns[id as usize];
            assert(lantern.wf());
            let out = resolve_collision(&position, &velocity, &lantern.position, radius);
            position = out.0;
            velocity = out.1;
        }
        k = k + 1;
    }
    proof {
        assert(candidates@.take(candidates.len() as int) =~= candidates@);
    }
    moth.position = position;
    moth.velocity = Velocity(velocity);
}

/// One tick of the collision system: every flying moth is turned away by
/// the lanterns whose body it has entered, among those that the index
/// files under the cell of the moth and its eight neighbours.
pub fn moth_collision_system(
    moths: &mut Vec<Moth>,
    lanterns: &[Lantern],
    index: &SpatialIndex,
    config: &LanternConfig,
)
    requires
        moths_wf(old(moths)@),
        lanterns_wf(lanterns@),
        config.wf(),
    ensures
        final(moths)@.len() == old(moths)@.len(),
        forall|i: int|
            0 <= i < old(moths)@.len() ==> collision_outcome(
                old(moths)@[i],
                #[trigger] final(moths)@[i],
                lanterns@,
                index@,
                config.physical_radius,
            ),
        forall|i: int|
            0 <= i < old(moths)@.len() ==> (#[trigger] final(moths)@[i]).wf_within(2 * COORD_MAX)
                && final(moths)@[i].velocity.0@.norm2() <= old(moths)@[i].velocity.0@.norm2(),
{
    let ghost before = moths@;
    let mut i: usize = 0;
    while i < moths.len()
        invariant
            0 <= i <= moths.len(),
            moths@.len() == before.len(),
            config.wf(),
            lanterns_wf(lanterns@),
            moths_wf(before),
            forall|j: int| i <= j < before.len() ==> moths@[j] == before[j],
            forall|j: int|
                0 <= j < i ==> collision_outcome(
                    before[j],
                    #[trigger] moths@[j],
                    lanterns@,
                    index@,
                    config.physical_radius,
                ),
            forall|j: int|
                0 <= j < i ==> (#[trigger] moths@[j]).wf_within(2 * COORD_MAX)
                    && moths@[j].velocity.0@.norm2() <= before[j].velocity.0@.norm2(),
        decreases moths.len() - i,
    {
        let mut moth = moths[i];
        let ghost old_moth = moth;
        assert(old_moth == before[i as int]);
        assert(old_moth.wf());
        if moth.landed.is_none() {
            let candidates = index.get_nearby(Vec2::new(moth.position.x, moth.position.y));
            resolve_collisions(&mut moth, lanterns, &candidates, config.physical_radius);
            proof {
                assert((moth.position@, moth.velocity.0@) == pushed_out_of_all(
                    old_moth.position@,
                    old_moth.velocity.0@,
                    lanterns@,
                    candidates@,
                    config.physical_radius as int,
                ));
            }
            moths.set(i, moth);
        }
        i = i + 1;
    }
}

/// The bodies of no two lanterns touch: the lanterns stand at least two
/// radii apart.
pub open spec fn apart(lanterns: Seq<Lantern>, radius: int) -> bool {
    forall|i: int, j: int|
        0 <= i < lanterns.len() && 0 <= j < lanterns.len() && i != j ==> (
        #[trigger] lanterns[i]).position@.dist2((#[trigger] lanterns[j]).position@) >= 4 * (radius
            * radius)
}

/// The point is the place of no lantern.
pub open spec fn at_no_lantern(position: Vector, lanterns: Seq<Lantern>) -> bool {
    forall|j: int| 0 <= j < lanterns.len() ==> (#[trigger] lanterns[j]).position@ != position
}

/// The body of the lantern at `lantern` has been left: the point is as far
/// from it as the radius, less what the rounding of a push may take.
pub open spec fn clear_of(position: Vector, lantern: Vector, radius: int) -> bool {
    ONE * position.dist2(lantern) >= least_norm2(radius)
}

/// Every lantern whose body holds `position` is named by `candidates`.
pub open spec fn names_all_hit(
    candidates: Seq<u64>,
    position: Vector,
    lanterns: Seq<Lantern>,
    radius: int,
) -> bool {
    forall|j: int|
        0 <= j < lanterns.len() && position.dist2((#[trigger] lanterns[j]).position@) < radius
            * radius ==> candidates.contains(j as u64)
}

/// The squared distance of two points is at most twice the sum of their
/// squared distances from a third.
pub proof fn lemma_parallelogram(a: Vector, b: Vector, c: Vector)
    ensures
        a.dist2(b) <= 2 * c.dist2(a) + 2 * c.dist2(b),
{
    let (ux, uy, uz) = (c.x - a.x, c.y - a.y, c.z - a.z);
    let (wx, wy, wz) = (c.x - b.x, c.y - b.y, c.z - b.z);
    assert((ux - wx) * (ux - wx) <= 2 * (ux * ux) + 2 * (wx * wx)) by (nonlinear_arith);
    assert((uy - wy) * (uy - wy) <= 2 * (uy * uy) + 2 * (wy * wy)) by (nonlinear_arith);
    assert((uz - wz) * (uz - wz) <= 2 * (uz * uz) + 2 * (wz * wz)) by (nonlinear_arith);
    assert(a.x - b.x == wx - ux && a.y - b.y == wy - uy && a.z - b.z == wz - uz);
    assert((a.x - b.x) * (a.x - b.x) == (ux - wx) * (ux - wx)) by (nonlinear_arith)
        requires
            a.x - b.x == wx - ux,
    ;
    assert((a.y - b.y) * (a.y - b.y) == (uy - wy) * (uy - wy)) by (nonlinear_arith)
        requires
            a.y - b.y == wy - uy,
    ;
    assert((a.z - b.z) * (a.z - b.z) == (uz - wz) * (uz - wz)) by (nonlinear_arith)
        requires
            a.z - b.z == wz - uz,
    ;
}

/// None of the lanterns that `candidates` names holds `position`.
pub open spec fn held_by_none(
    position: Vector,
    lanterns: Seq<Lantern>,
    candidates: Seq<u64>,
    radius: int,
) -> bool {
    forall|k: int|
        0 <= k < candidates.len() && candidates[k] < lanterns.len() ==> position.dist2(
            lanterns[(#[trigger] candidates[k]) as int].position@,
        ) >= radius * radius
}

/// The point lies on the surface of a lantern, or as near to it inside as
/// the rounding of a push may leave it.
pub open spec fn on_a_surface(position: Vector, lanterns: Seq<Lantern>, radius: int) -> bool {
    exists|a: int|
        0 <= a < lanterns.len() && position.dist2((#[trigger] lanterns[a]).position@) <= radius
            * radius && clear_of(position, lanterns[a].position@, radius)
}

/// Where a moth turned away by a run of lanterns ends up: where it was,
/// with none of the lanterns named holding it, or on the surface of one of
/// them.
pub proof fn lemma_pushed_onto_a_surface(
    position: Vector,
    velocity: Vector,
    lanterns: Seq<Lantern>,
    candidates: Seq<u64>,
    radius: int,
)
    requires
        position.within(COORD_MAX as int),
        lanterns_wf(lanterns),
        0 <= radius <= COORD_MAX,
        apart(lanterns, radius),
        at_no_lantern(position, lanterns),
    ensures
        ({
            let end = pushed_out_of_all(position, velocity, lanterns, candidates, radius).0;
            &&& end.within(2 * COORD_MAX)
            &&& (end == position && held_by_none(position, lanterns, candidates, radius))
                || on_a_surface(end, lanterns, radius)
        }),
    decreases candidates.len(),
{
    if candidates.len() > 0 {
        let rest = candidates.drop_last();
        lemma_pushed_onto_a_surface(position, velocity, lanterns, rest, radius);
        let (p, v) = pushed_out_of_all(position, velocity, lanterns, rest, radius);
        let id = candidates.last();
        let end = pushed_out_of_all(position, velocity, lanterns, candidates, radius).0;
        let pushed = id < lanterns.len() && p.dist2(lanterns[id as int].position@) < radius
            * radius;
        if pushed {
            let center = lanterns[id as int].position@;
            assert(lanterns[id as int].wf());
            let away = p.minus(center);
            let offset = away.with_length(radius);
            assert(end == center.plus(offset));
            assert(end.minus(center) == offset);
            lemma_with_length_norm(away, radius);
            lemma_within_by_norm(offset, radius);
            if away == Vector::zero() {
                assert(p == center);
                assert(p != position);
                let a = choose|a: int|
                    0 <= a < lanterns.len() && p.dist2((#[trigger] lanterns[a]).position@) <= radius
                        * radius && clear_of(p, lanterns[a].position@, radius);
                if a != id as int {
                    assert(lanterns[a].position@.dist2(lanterns[id as int].position@) >= 4 * (radius
                        * radius));
                    lemma_dist2_symmetric(p, lanterns[a].position@);
                    assert(radius * radius >= 0) by (nonlinear_arith);
                }
            }
            assert(end.dist2(lanterns[id as int].position@) <= radius * radius);
            assert(clear_of(end, lanterns[id as int].position@, radius));
        } else {
            assert(end == p);
            if p == position && held_by_none(position, lanterns, rest, radius) {
                assert forall|k: int|
                    0 <= k < candidates.len() && candidates[k] < lanterns.len() implies position.dist2(
                    lanterns[(#[trigger] candidates[k]) as int].position@,
                ) >= radius * radius by {
                    if k < rest.len() {
                        assert(rest[k] == candidates[k]);
                    }
                }
            }
        }
    }
}

/// The squared distance does not depend on the order of the two points.
pub proof fn lemma_dist2_symmetric(a: Vector, b: Vector)
    ensures
        a.dist2(b) == b.dist2(a),
{
    assert((a.x - b.x) * (a.x - b.x) == (b.x - a.x) * (b.x - a.x)) by (nonlinear_arith);
    assert((a.y - b.y) * (a.y - b.y) == (b.y - a.y) * (b.y - a.y)) by (nonlinear_arith);
    assert((a.z - b.z) * (a.z - b.z) == (b.z - a.z) * (b.z - a.z)) by (nonlinear_arith);
}

/// Collision exclusion. Where the bodies of the lanterns do not touch, a
/// moth that stood at the place of no lantern is, once the lanterns named
/// have turned it away, clear of every lantern, if every lantern that held
/// it was named.
pub proof fn lemma_pushed_clear_of_all(
    position: Vector,
    velocity: Vector,
    lanterns: Seq<Lantern>,
    candidates: Seq<u64>,
    radius: int,
    j: int,
)
    requires
        position.within(COORD_MAX as int),
        lanterns_wf(lanterns),
        lanterns.len() <= u64::MAX,
        0 <= radius <= COORD_MAX,
        apart(lanterns, radius),
        at_no_lantern(position, lanterns),
        names_all_hit(candidates, position, lanterns, radius),
        0 <= j < lanterns.len(),
    ensures
        clear_of(
            pushed_out_of_all(position, velocity, lanterns, candidates, radius).0,
            lanterns[j].position@,
            radius,
        ),
{
    lemma_pushed_onto_a_surface(position, velocity, lanterns, candidates, radius);
    lemma_least_norm2_below(radius);
    let end = pushed_out_of_all(position, velocity, lanterns, candidates, radius).0;
    let target = lanterns[j].position@;
    if on_a_surface(end, lanterns, radius) {
        let a = choose|a: int|
            0 <= a < lanterns.len() && end.dist2((#[trigger] lanterns[a]).position@) <= radius
                * radius && clear_of(end, lanterns[a].position@, radius);
        if a != j {
            lemma_parallelogram(lanterns[a].position@, target, end);
            assert(lanterns[a].position@.dist2(target) >= 4 * (radius * radius));
            assert(end.dist2(target) >= radius * radius);
        }
    } else {
        if position.dist2(target) < radius * radius {
            assert(candidates.contains(j as u64));
            let k = choose|k: int| 0 <= k < candidates.len() && candidates[k] == j as u64;
            assert(position.dist2(lanterns[candidates[k] as int].position@) >= radius * radius);
        }
    }
}

/// Collision exclusion for the system. Where the bodies of the lanterns
/// do not touch and are no wider than a grid cell, and every lantern is
/// filed in the index, a flying moth that stood at the place of no lantern
/// is clear of every lantern after a tick of the collision system.
pub proof fn lemma_collision_exclusion(
    before: Moth,
    after: Moth,
    lanterns: Seq<Lantern>,
    index: Set<((i32, i32), u64)>,
    radius: i64,
    j: int,
)
    requires
        before.wf(),
        before.is_flying(),
        lanterns_wf(lanterns),
        0 <= radius <= CELL_SIZE,
        lanterns.len() <= u64::MAX,
        filings_of(lanterns).subset_of(index),
        apart(lanterns, radius as int),
        at_no_lantern(before.position@, lanterns),
        collision_outcome(before, after, lanterns, index, radius),
        0 <= j < lanterns.len(),
    ensures
        clear_of(after.position@, lanterns[j].position@, radius as int),
{
    let spot = footprint(before);
    let candidates = choose|candidates: Seq<u64>|
        {
            &&& candidates.to_set() == neighborhood(index, cell_of(spot))
            &&& forall|id: u64|
                candidates.to_multiset().count(id) == filings(index, cell_of(spot), id, 9)
            &&& (after.position@, after.velocity.0@) == #[trigger] pushed_out_of_all(
                before.position@,
                before.velocity.0@,
                lanterns,
                candidates,
                radius as int,
            )
        };
    assert forall|n: int|
        0 <= n < lanterns.len() && before.position@.dist2((#[trigger] lanterns[n]).position@)
            < radius * radius implies candidates.contains(n as u64) by {
        let lantern = lanterns[n];
        assert(lantern.wf());
        let dx = before.position.x - lantern.position.x;
        let dy = before.position.y - lantern.position.y;
        let dz = before.position.z - lantern.position.z;
        assert(dx * dx + dy * dy <= CELL_SIZE * CELL_SIZE) by (nonlinear_arith)
            requires
                dx * dx + dy * dy + dz * dz < radius * radius,
                0 <= radius <= CELL_SIZE,
        ;
        assert((lantern.position.x - before.position.x) * (lantern.position.x - before.position.x)
            == dx * dx) by (nonlinear_arith)
            requires
                dx == before.position.x - lantern.position.x,
        ;
        assert((lantern.position.y - before.position.y) * (lantern.position.y - before.position.y)
            == dy * dy) by (nonlinear_arith)
            requires
                dy == before.position.y - lantern.position.y,
        ;
        lemma_filed_lantern_is_nearby(index, lanterns, n, spot);
        assert(candidates.to_set().contains(n as u64));
    }
    lemma_pushed_clear_of_all(
        before.position@,
        before.velocity.0@,
        lanterns,
        candidates,
        radius as int,
        j,
    );
}

} // verus!
