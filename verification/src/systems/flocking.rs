//! Flocking: every flying moth keeps apart from its flockmates, flies the
//! way they fly and stays near them.

use crate::components::{lemma_speed_in_range, Lantern, Moth, Velocity};
use crate::config::{LanternConfig, MothConfig, COORD_MAX, MAX_FLOCK, WEIGHT_MAX};
use crate::fixed::{abs, lemma_mul_div_bound, ONE, ONE_SQUARED, SCALAR_MAX};
use crate::systems::moth::{
    calculate_attraction_force, in_cube, is_direction, is_pull, lanterns_wf, moths_wf,
    random_direction,
};
use crate::vector::{lemma_mul_div_within, lemma_with_length_norm, Vec3, Vector};
use rand::rngs::StdRng;
use vstd::prelude::*;

verus! {

/// What a moth knows of another: its identifier, position and velocity.
pub type FlockEntry = (u64, Vec3, Velocity);

/// The sums over the flockmates of a moth.
pub struct FlockSums {
    /// Sum of the pushes away from each flockmate.
    pub separation: Vector,
    /// Sum of the flockmates' velocities.
    pub alignment: Vector,
    /// Sum of the flockmates' positions.
    pub cohesion: Vector,
    /// Number of flockmates.
    pub count: nat,
}

/// Whether `other` is a flockmate of the moth `me` at `at`: another moth,
/// elsewhere, and nearer than `radius`.
pub open spec fn is_flockmate(me: u64, at: Vector, other: FlockEntry, radius: i64) -> bool {
    other.0 != me && 0 < at.dist2(other.1@) < radius * radius
}

/// The push on a moth at `at` away from one at `other`: their difference
/// divided by the square of their distance.
pub open spec fn push_apart(at: Vector, other: Vector) -> Vector {
    at.minus(other).scaled(ONE_SQUARED as int, at.dist2(other))
}

/// The sums over those of `flock` that are flockmates of the moth `me` at `at`.
pub open spec fn flock_sums(me: u64, at: Vector, flock: Seq<FlockEntry>, radius: i64) -> FlockSums
    decreases flock.len(),
{
    if flock.len() == 0 {
        FlockSums {
            separation: Vector::zero(),
            alignment: Vector::zero(),
            cohesion: Vector::zero(),
            count: 0,
        }
    } else {
        let rest = flock_sums(me, at, flock.drop_last(), radius);
        let other = flock.last();
        if is_flockmate(me, at, other, radius) {
            FlockSums {
                separation: rest.separation.plus(push_apart(at, other.1@)),
                alignment: rest.alignment.plus(other.2.0@),
                cohesion: rest.cohesion.plus(other.1@),
                count: rest.count + 1,
            }
        } else {
            rest
        }
    }
}

/// Every entry lies within the coordinate range, in position and velocity.
pub open spec fn flock_wf(flock: Seq<FlockEntry>) -> bool {
    &&& flock.len() <= MAX_FLOCK
    &&& forall|j: int|
        0 <= j < flock.len() ==> (#[trigger] flock[j]).1@.within(COORD_MAX as int) && flock[j].2.0@.within(
            COORD_MAX as int,
        )
}

/// A push apart is never stronger than `ONE * ONE` along any axis.
pub proof fn lemma_push_apart_within(at: Vector, other: Vector)
    requires
        at.dist2(other) > 0,
    ensures
        push_apart(at, other).within(ONE_SQUARED as int),
{
    let diff = at.minus(other);
    let d2 = diff.norm2();
    assert(diff.x * diff.x >= abs(diff.x) && diff.x * diff.x >= 0) by (nonlinear_arith);
    assert(diff.y * diff.y >= abs(diff.y) && diff.y * diff.y >= 0) by (nonlinear_arith);
    assert(diff.z * diff.z >= abs(diff.z) && diff.z * diff.z >= 0) by (nonlinear_arith);
    lemma_mul_div_within(diff.x, ONE_SQUARED as int, d2);
    lemma_mul_div_within(diff.y, ONE_SQUARED as int, d2);
    lemma_mul_div_within(diff.z, ONE_SQUARED as int, d2);
}

/// The sums grow by at most one flockmate's share with every entry.
pub proof fn lemma_flock_sums_within(me: u64, at: Vector, flock: Seq<FlockEntry>, radius: i64)
    requires
        forall|j: int|
            0 <= j < flock.len() ==> (#[trigger] flock[j]).1@.within(COORD_MAX as int) && flock[j].2.0@.within(
                COORD_MAX as int,
            ),
    ensures
        ({
            let sums = flock_sums(me, at, flock, radius);
            &&& sums.count <= flock.len()
            &&& sums.separation.within(flock.len() * ONE_SQUARED)
            &&& sums.alignment.within(flock.len() * COORD_MAX)
            &&& sums.cohesion.within(flock.len() * COORD_MAX)
        }),
    decreases flock.len(),
{
    if flock.len() > 0 {
        let rest = flock.drop_last();
        assert forall|j: int| 0 <= j < rest.len() implies (#[trigger] rest[j]).1@.within(
            COORD_MAX as int,
        ) && rest[j].2.0@.within(COORD_MAX as int) by {
            assert(rest[j] == flock[j]);
        }
        lemma_flock_sums_within(me, at, rest, radius);
        let other = flock.last();
        if is_flockmate(me, at, other, radius) {
            lemma_push_apart_within(at, other.1@);
        }
    }
}

/// The forces of the flock on one moth: the sum of the pushes away from
/// its flockmates, the sum of their velocities, the sum of their positions,
/// and their number. A flockmate is another moth of the snapshot, elsewhere
/// and nearer than the perception radius.
pub fn calculate_flocking_forces(
    current_moth_entity: u64,
    current_moth_position: &Vec3,
    flock_snapshot: &[FlockEntry],
    config: &MothConfig,
) -> (forces: (Vec3, Vec3, Vec3, u32))
    requires
        current_moth_position@.within(COORD_MAX as int),
        flock_wf(flock_snapshot@),
        config.wf(),
    ensures
        ({
            let sums = flock_sums(
                current_moth_entity,
                current_moth_position@,
                flock_snapshot@,
                config.perception_radius,
            );
            &&& forces.0@ == sums.separation
            &&& forces.1@ == sums.alignment
            &&& forces.2@ == sums.cohesion
            &&& forces.3 == sums.count
        }),
{
    let mut separation = Vec3::zero();
    let mut alignment = Vec3::zero();
    let mut cohesion = Vec3::zero();
    let mut local_flockmates: u32 = 0;
    let radius = config.perception_radius;
    proof {
        assert(radius * radius <= COORD_MAX * COORD_MAX) by (nonlinear_arith)
            requires
                0 <= radius <= COORD_MAX,
        ;
    }
    let reach: u128 = (radius as u128) * (radius as u128);
    let ghost me = current_moth_entity;
    let ghost at = current_moth_position@;
    let mut i: usize = 0;
    while i < flock_snapshot.len()
        invariant
            0 <= i <= flock_snapshot.len(),
            at == current_moth_position@,
            at.within(COORD_MAX as int),
            me == current_moth_entity,
            flock_wf(flock_snapshot@),
            reach == radius * radius,
            ({
                let sums = flock_sums(me, at, flock_snapshot@.take(i as int), radius);
                &&& separation@ == sums.separation
                &&& alignment@ == sums.alignment
                &&& cohesion@ == sums.cohesion
                &&& local_flockmates == sums.count
            }),
        decreases flock_snapshot.len() - i,
    {
        let other = &flock_snapshot[i];
        proof {
            let before = flock_snapshot@.take(i as int);
            let after = flock_snapshot@.take(i + 1);
            assert(after.drop_last() =~= before);
            assert(after.last() == flock_snapshot@[i as int]);
            assert forall|j: int| 0 <= j < after.len() implies (#[trigger] after[j]).1@.within(
                COORD_MAX as int,
            ) && after[j].2.0@.within(COORD_MAX as int) by {
                assert(after[j] == flock_snapshot@[j]);
            }
            lemma_flock_sums_within(me, at, after, radius);
            lemma_flock_sums_within(me, at, before, radius);
            assert(after.len() * ONE_SQUARED <= MAX_FLOCK * ONE_SQUARED) by (nonlinear_arith)
                requires
                    after.len() <= MAX_FLOCK,
            ;
            assert(after.len() * COORD_MAX <= MAX_FLOCK * COORD_MAX) by (nonlinear_arith)
                requires
                    after.len() <= MAX_FLOCK,
            ;
        }
        if other.0 != current_moth_entity {
            let diff = current_moth_position.minus(&other.1);
            let d2 = diff.norm2();
            if d2 > 0 && d2 < reach {
                proof {
                    lemma_push_apart_within(at, other.1@);
                }
                let push = diff.scaled(ONE_SQUARED, d2);
                separation = separation.plus(&push);
                alignment = alignment.plus(&other.2.0);
                cohesion = cohesion.plus(&other.1);
                local_flockmates = local_flockmates + 1;
            }
        }
        i = i + 1;
    }
    proof {
        assert(flock_snapshot@.take(flock_snapshot.len() as int) =~= flock_snapshot@);
    }
    (separation, alignment, cohesion, local_flockmates)
}

/// The flying moths of `moths` as a flock sees them, each under its index.
pub open spec fn snapshot(moths: Seq<Moth>) -> Seq<FlockEntry>
    decreases moths.len(),
{
    if moths.len() == 0 {
        Seq::empty()
    } else {
        let rest = snapshot(moths.drop_last());
        let moth = moths.last();
        if moth.is_flying() {
            rest.push(((moths.len() - 1) as u64, moth.position, moth.velocity))
        } else {
            rest
        }
    }
}

/// A snapshot has no more entries than there are moths, and each lies
/// within the coordinate range.
pub proof fn lemma_snapshot_wf(moths: Seq<Moth>)
    requires
        moths_wf(moths),
    ensures
        snapshot(moths).len() <= moths.len(),
        forall|j: int|
            0 <= j < snapshot(moths).len() ==> (#[trigger] snapshot(moths)[j]).1@.within(
                COORD_MAX as int,
            ) && snapshot(moths)[j].2.0@.within(COORD_MAX as int),
    decreases moths.len(),
{
    if moths.len() > 0 {
        let rest = moths.drop_last();
        assert forall|i: int| 0 <= i < rest.len() implies (#[trigger] rest[i]).wf() by {
            assert(rest[i] == moths[i]);
        }
        lemma_snapshot_wf(rest);
        assert(moths.last() == moths[moths.len() - 1]);
    }
}

/// Takes the snapshot of the flying moths.
pub fn take_snapshot(moths: &Vec<Moth>) -> (flock: Vec<FlockEntry>)
    requires
        moths_wf(moths@),
        moths@.len() <= MAX_FLOCK,
    ensures
        flock@ == snapshot(moths@),
        flock_wf(flock@),
{
    let mut flock: Vec<FlockEntry> = Vec::new();
    let mut i: usize = 0;
    while i < moths.len()
        invariant
            0 <= i <= moths.len(),
            moths@.len() <= MAX_FLOCK,
            flock@ == snapshot(moths@.take(i as int)),
        decreases moths.len() - i,
    {
        proof {
            assert(moths@.take(i + 1).drop_last() =~= moths@.take(i as int));
            assert(moths@.take(i + 1).last() == moths@[i as int]);
        }
        if moths[i].landed.is_none() {
            flock.push((i as u64, moths[i].position, moths[i].velocity));
        }
        i = i + 1;
    }
    proof {
        assert(moths@.take(moths.len() as int) =~= moths@);
        lemma_snapshot_wf(moths@);
    }
    flock
}

/// The sums that the four results of [`calculate_flocking_forces`] stand for.
pub open spec fn sums_of(forces: (Vec3, Vec3, Vec3, u32)) -> FlockSums {
    FlockSums {
        separation: forces.0@,
        alignment: forces.1@,
        cohesion: forces.2@,
        count: forces.3 as nat,
    }
}

/// The sums are those of a flock of at most `MAX_FLOCK` moths within the
/// coordinate range.
pub open spec fn sums_wf(sums: FlockSums) -> bool {
    &&& sums.count <= MAX_FLOCK
    &&& sums.separation.within(MAX_FLOCK * ONE_SQUARED)
    &&& sums.alignment.within(MAX_FLOCK * COORD_MAX)
    &&& sums.cohesion.within(MAX_FLOCK * COORD_MAX)
}

/// The velocity of a moth with its flock's forces added.
///
/// With flockmates, the moth adds to its velocity the weighted push apart,
/// the weighted steering toward the flock's mean heading and the weighted
/// steering toward its mean position; each steering is the wanted velocity
/// at the configured speed less the present one. Without flockmates none of
/// the three is defined, and none is added.
pub open spec fn flocked(velocity: Vector, at: Vector, sums: FlockSums, config: MothConfig) -> Vector {
    let speed = config.moth_speed as int;
    if sums.count > 0 {
        let mean_heading = sums.alignment.scaled(1, sums.count as int);
        let mean_position = sums.cohesion.scaled(1, sums.count as int);
        let alignment_steering = mean_heading.with_length(speed).minus(velocity);
        let cohesion_steering = mean_position.minus(at).with_length(speed).minus(velocity);
        velocity.plus(sums.separation.scaled(config.separation_weight as int, ONE as int)).plus(
            alignment_steering.scaled(config.alignment_weight as int, ONE as int),
        ).plus(cohesion_steering.scaled(config.cohesion_weight as int, ONE as int))
    } else {
        velocity
    }
}

/// The velocity of a flocking moth after a tick: its velocity with the
/// flock's forces, the weighted pull of the lanterns and a push of the
/// wander factor's length along `push` added, brought to the configured
/// speed. A sum of zero stays zero: a moth at rest on which nothing acts
/// stays at rest.
pub open spec fn steered(
    velocity: Vector,
    at: Vector,
    sums: FlockSums,
    pull: Vector,
    push: Vector,
    config: MothConfig,
) -> Vector {
    flocked(velocity, at, sums, config).plus(
        pull.scaled(config.attraction_weight as int, ONE as int),
    ).plus(push.with_length(config.wander_factor as int)).with_length(config.moth_speed as int)
}

/// However strong the forces, a moth is steered to no more than the
/// configured speed, as long as their sum can be written down at all.
pub proof fn lemma_steered_keeps_speed(
    velocity: Vector,
    at: Vector,
    sums: FlockSums,
    pull: Vector,
    push: Vector,
    config: MothConfig,
)
    requires
        config.moth_speed >= 0,
        flocked(velocity, at, sums, config).plus(
            pull.scaled(config.attraction_weight as int, ONE as int),
        ).plus(push.with_length(config.wander_factor as int)).within(SCALAR_MAX as int),
    ensures
        steered(velocity, at, sums, pull, push, config).norm2() <= config.moth_speed
            * config.moth_speed,
{
    lemma_with_length_norm(
        flocked(velocity, at, sums, config).plus(
            pull.scaled(config.attraction_weight as int, ONE as int),
        ).plus(push.with_length(config.wander_factor as int)),
        config.moth_speed as int,
    );
}

/// Largest component of a weighted force (2^60).
pub const FORCE_MAX: i64 = 1_152_921_504_606_846_976;

/// `force` multiplied by `weight`.
fn weighted(force: &Vec3, weight: i64) -> (v: Vec3)
    requires
        0 <= weight <= WEIGHT_MAX,
        force@.within(MAX_FLOCK * ONE_SQUARED),
    ensures
        v@ == force@.scaled(weight as int, ONE as int),
        abs(v.x as int) <= 16 * abs(force.x as int),
        abs(v.y as int) <= 16 * abs(force.y as int),
        abs(v.z as int) <= 16 * abs(force.z as int),
{
    proof {
        lemma_mul_div_bound(
            force.x as int,
            weight as int,
            ONE as int,
            abs(force.x as int),
            WEIGHT_MAX as int,
        );
        lemma_mul_div_bound(
            force.y as int,
            weight as int,
            ONE as int,
            abs(force.y as int),
            WEIGHT_MAX as int,
        );
        lemma_mul_div_bound(
            force.z as int,
            weight as int,
            ONE as int,
            abs(force.z as int),
            WEIGHT_MAX as int,
        );
    }
    force.scaled(weight, ONE as u128)
}

/// The mean of `count` vectors whose sum is `sum`.
fn mean(sum: &Vec3, count: u32) -> (v: Vec3)
    requires
        count > 0,
        sum@.within(MAX_FLOCK * COORD_MAX),
    ensures
        v@ == sum@.scaled(1, count as int),
        abs(v.x as int) <= abs(sum.x as int),
        abs(v.y as int) <= abs(sum.y as int),
        abs(v.z as int) <= abs(sum.z as int),
{
    proof {
        lemma_mul_div_bound(sum.x as int, 1, count as int, abs(sum.x as int), 1);
        lemma_mul_div_bound(sum.y as int, 1, count as int, abs(sum.y as int), 1);
        lemma_mul_div_bound(sum.z as int, 1, count as int, abs(sum.z as int), 1);
    }
    sum.scaled(1, count as u128)
}

/// The steering toward the velocity of `speed` along `wanted`: that
/// velocity less the present one.
fn steering(wanted: &Vec3, speed: i64, velocity: &Vec3) -> (v: Vec3)
    requires
        wanted@.within(SCALAR_MAX as int),
        0 <= speed <= COORD_MAX,
        velocity@.within(COORD_MAX as int),
    ensures
        v@ == wanted@.with_length(speed as int).minus(velocity@),
        v@.within(2 * COORD_MAX),
{
    wanted.with_length(speed).minus(velocity)
}

/// The velocity of a moth with its flock's forces added: see [`flocked`].
pub fn add_flock_forces(
    velocity: &Vec3,
    position: &Vec3,
    forces: (Vec3, Vec3, Vec3, u32),
    config: &MothConfig,
) -> (v: Vec3)
    requires
        velocity@.within(COORD_MAX as int),
        position@.within(COORD_MAX as int),
        config.wf(),
        sums_wf(sums_of(forces)),
    ensures
        v@ == flocked(velocity@, position@, sums_of(forces), *config),
        v@.within(FORCE_MAX as int),
{
    let (separation, alignment, cohesion, local_flockmates) = forces;
    if local_flockmates > 0 {
        let mean_heading = mean(&alignment, local_flockmates);
        let mean_position = mean(&cohesion, local_flockmates);
        let alignment_steering = steering(&mean_heading, config.moth_speed, velocity);
        let toward_flock = mean_position.minus(position);
        let cohesion_steering = steering(&toward_flock, config.moth_speed, velocity);
        let apart = weighted(&separation, config.separation_weight);
        let along = weighted(&alignment_steering, config.alignment_weight);
        let together = weighted(&cohesion_steering, config.cohesion_weight);
        velocity.plus(&apart).plus(&along).plus(&together)
    } else {
        *velocity
    }
}

/// Steers one flying moth by the forces of its flock, the pull of the
/// lanterns and a random push: see [`steered`].
pub fn steer(
    moth: &mut Moth,
    forces: (Vec3, Vec3, Vec3, u32),
    pull: &Vec3,
    push: &Vec3,
    config: &MothConfig,
)
    requires
        old(moth).wf(),
        old(moth).is_flying(),
        config.wf(),
        pull@.within(COORD_MAX as int),
        in_cube(*push),
        sums_wf(sums_of(forces)),
    ensures
        final(moth).velocity.0@ == steered(
            old(moth).velocity.0@,
            old(moth).position@,
            sums_of(forces),
            pull@,
            push@,
            *config,
        ),
        final(moth).position == old(moth).position,
        final(moth).facing == old(moth).facing,
        final(moth).landed == old(moth).landed,
        final(moth).wf(),
        final(moth).keeps_to(config.moth_speed as int),
{
    let flocked = add_flock_forces(&moth.velocity.0, &moth.position, forces, config);
    let drawn = weighted(pull, config.attraction_weight);
    let nudge = push.with_length(config.wander_factor);
    let heading = flocked.plus(&drawn).plus(&nudge);
    proof {
        lemma_with_length_norm(heading@, config.moth_speed as int);
        lemma_speed_in_range(
            heading@.with_length(config.moth_speed as int),
            config.moth_speed as int,
        );
    }
    moth.velocity = Velocity(heading.with_length(config.moth_speed));
}

/// What one tick of flocking may make of moth `i`: a settled moth is left
/// alone, a flying one is steered by the sums over the snapshot taken
/// before the tick, by the pull of the lanterns, and by a push drawn at
/// random.
pub open spec fn flocking_outcome(
    before: Seq<Moth>,
    i: int,
    after: Moth,
    lanterns: Seq<Lantern>,
    config: MothConfig,
    lantern_config: LanternConfig,
) -> bool {
    let moth = before[i];
    if moth.is_flying() {
        &&& after.position == moth.position
        &&& after.facing == moth.facing
        &&& after.landed == moth.landed
        &&& exists|pull: Vec3, push: Vec3|
            is_pull(moth.position@, lanterns, config, lantern_config, pull@) && is_direction(push)
                && after.velocity.0@ == #[trigger] steered(
                moth.velocity.0@,
                moth.position@,
                flock_sums(i as u64, moth.position@, snapshot(before), config.perception_radius),
                pull@,
                push@,
                config,
            )
    } else {
        after == moth
    }
}

/// One tick of flocking. The forces on every moth are computed from a
/// snapshot of the flying moths taken before any of them is changed. A
/// flying moth at rest on which no force acts is left at rest: it is
/// roused by the idle check of the next tick.
pub fn flocking_system(
    config: &MothConfig,
    lantern_config: &LanternConfig,
    moths: &mut Vec<Moth>,
    lanterns: &[Lantern],
    rng: &mut StdRng,
)
    requires
        config.wf(),
        lantern_config.wf(),
        lanterns_wf(lanterns@),
        moths_wf(old(moths)@),
        old(moths)@.len() <= MAX_FLOCK,
    ensures
        final(moths)@.len() == old(moths)@.len(),
        forall|i: int|
            0 <= i < old(moths)@.len() ==> flocking_outcome(
                old(moths)@,
                i,
                #[trigger] final(moths)@[i],
                lanterns@,
                *config,
                *lantern_config,
            ),
        moths_wf(final(moths)@),
        forall|i: int|
            0 <= i < old(moths)@.len() && old(moths)@[i].is_flying() ==> (
            #[trigger] final(moths)@[i]).keeps_to(config.moth_speed as int),
{
    let ghost before = moths@;
    let flock_snapshot = take_snapshot(moths);
    let mut i: usize = 0;
    while i < moths.len()
        invariant
            0 <= i <= moths.len(),
            moths@.len() == before.len(),
            before.len() <= MAX_FLOCK,
            config.wf(),
            lantern_config.wf(),
            lanterns_wf(lanterns@),
            moths_wf(before),
            flock_snapshot@ == snapshot(before),
            flock_wf(flock_snapshot@),
            forall|j: int| i <= j < before.len() ==> moths@[j] == before[j],
            forall|j: int|
                0 <= j < i ==> flocking_outcome(
                    before,
                    j,
                    #[trigger] moths@[j],
                    lanterns@,
                    *config,
                    *lantern_config,
                ),
            forall|j: int| 0 <= j < i ==> (#[trigger] moths@[j]).wf(),
            forall|j: int|
                0 <= j < i && before[j].is_flying() ==> (#[trigger] moths@[j]).keeps_to(
                    config.moth_speed as int,
                ),
        decreases moths.len() - i,
    {
        let mut moth = moths[i];
        let ghost old_moth = moth;
        assert(old_moth == before[i as int]);
        assert(old_moth.wf());
        if moth.landed.is_none() {
            let push = random_direction(rng);
            let forces = calculate_flocking_forces(
                i as u64,
                &moth.position,
                flock_snapshot.as_slice(),
                config,
            );
            let pull = calculate_attraction_force(&moth.position, lanterns, config, lantern_config);
            let ghost sums = flock_sums(
                i as u64,
                moth.position@,
                flock_snapshot@,
                config.perception_radius,
            );
            proof {
                lemma_flock_sums_within(
                    i as u64,
                    moth.position@,
                    flock_snapshot@,
                    config.perception_radius,
                );
                let n = flock_snapshot@.len();
                assert(n * ONE_SQUARED <= MAX_FLOCK * ONE_SQUARED) by (nonlinear_arith)
                    requires
                        n <= MAX_FLOCK,
                ;
                assert(n * COORD_MAX <= MAX_FLOCK * COORD_MAX) by (nonlinear_arith)
                    requires
                        n <= MAX_FLOCK,
                ;
            }
            assert(sums_of(forces) == sums);
            steer(&mut moth, forces, &pull, &push, config);
            proof {
                assert(is_pull(old_moth.position@, lanterns@, *config, *lantern_config, pull@));
                assert(moth.velocity.0@ == steered(
                    old_moth.velocity.0@,
                    old_moth.position@,
                    sums,
                    pull@,
                    push@,
                    *config,
                ));
            }
            moths.set(i, moth);
        }
        i = i + 1;
    }
}

} // verus!
