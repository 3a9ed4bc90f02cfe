//! The moth on its own: landing and take-off, the pull of the lanterns,
//! wandering and movement.

use crate::components::{lemma_speed_in_range, LandedTimer, Lantern, Moth, Velocity};
use crate::config::{LanternConfig, MothConfig, COORD_MAX, TICK_MAX, WEIGHT_MAX};
use crate::fixed::{lemma_mul_div_bound, lemma_sqrt_floor_exists, sqrt_floor, ONE, SCALAR_MAX};
use crate::rng::{random_range, random_ratio};
use crate::timer::{lemma_total_non_negative, total, Timer, NANOS_PER_SECOND};
use crate::vector::{
    least_norm2, lemma_mul_div_within, lemma_norm2_within, lemma_scaled_within, lemma_unit_norm,
    lemma_unit_within, lemma_with_length_norm, lemma_within_by_norm, Vec3, Vector, REACH,
};
use rand::rngs::StdRng;
use vstd::prelude::*;

verus! {

/// What a moth does on a tick of the landing system.
#[derive(Clone, Copy, Debug, PartialEq, Eq, Structural)]
pub enum MothAction {
    TakeOff,
    Land,
    DoNothing,
}

/// A moth lands when it is close enough to a lantern and the dice agree.
pub fn should_land(is_close_enough: bool, random_roll_succeeded: bool) -> (action: MothAction)
    ensures
        action == if is_close_enough && random_roll_succeeded {
            MothAction::Land
        } else {
            MothAction::DoNothing
        },
{
    if is_close_enough && random_roll_succeeded {
        MothAction::Land
    } else {
        MothAction::DoNothing
    }
}

/// What a settled moth does once its timer reads `timer`.
pub open spec fn takeoff_action(timer: Timer) -> MothAction {
    if timer.is_finished() {
        MothAction::TakeOff
    } else {
        MothAction::DoNothing
    }
}

/// Ticks the timer of a settled moth by `delta` nanoseconds: the moth takes
/// off when the timer has run out.
pub fn determine_takeoff_action(landed_timer: &mut LandedTimer, delta: u64) -> (action: MothAction)
    ensures
        final(landed_timer).0 == old(landed_timer).0.ticked(delta),
        action == takeoff_action(final(landed_timer).0),
{
    landed_timer.0.tick(delta);
    if landed_timer.0.finished() {
        MothAction::TakeOff
    } else {
        MothAction::DoNothing
    }
}

/// Whether a moth at `from` may choose `lantern`. Without a `sight` every
/// lantern may be chosen; with one, only a lit lantern no farther than it.
pub open spec fn in_sight(from: Vector, lantern: Lantern, sight: Option<i64>) -> bool {
    match sight {
        None => true,
        Some(radius) => lantern.is_on && from.dist2(lantern.position@) <= radius * radius,
    }
}

/// No lantern may be chosen.
pub open spec fn none_in_sight(from: Vector, lanterns: Seq<Lantern>, sight: Option<i64>) -> bool {
    forall|j: int| 0 <= j < lanterns.len() ==> !in_sight(from, #[trigger] lanterns[j], sight)
}

/// Lantern `i` is the nearest that may be chosen, and the first of those
/// that are equally near.
pub open spec fn is_nearest(from: Vector, lanterns: Seq<Lantern>, sight: Option<i64>, i: int) -> bool {
    &&& 0 <= i < lanterns.len()
    &&& in_sight(from, lanterns[i], sight)
    &&& forall|j: int|
        0 <= j < lanterns.len() && in_sight(from, #[trigger] lanterns[j], sight) ==> from.dist2(
            lanterns[i].position@,
        ) <= from.dist2(lanterns[j].position@)
    &&& forall|j: int|
        0 <= j < i && in_sight(from, #[trigger] lanterns[j], sight) ==> from.dist2(
            lanterns[i].position@,
        ) < from.dist2(lanterns[j].position@)
}

/// Every lantern stands within the coordinate range.
pub open spec fn lanterns_in_range(lanterns: Seq<Lantern>) -> bool {
    forall|j: int| 0 <= j < lanterns.len() ==> (#[trigger] lanterns[j]).position@.within(COORD_MAX as int)
}

/// The nearest lantern that a moth at `from` may choose, by squared
/// distance; of several equally near, the first.
pub fn nearest_lantern(from: &Vec3, lanterns: &[Lantern], sight: Option<i64>) -> (found: Option<
    usize,
>)
    requires
        from@.within(COORD_MAX as int),
        lanterns_in_range(lanterns@),
        sight matches Some(radius) ==> 0 <= radius <= COORD_MAX,
    ensures
        match found {
            None => none_in_sight(from@, lanterns@, sight),
            Some(i) => is_nearest(from@, lanterns@, sight, i as int),
        },
{
    let mut best: Option<usize> = None;
    let mut best_d2: u128 = 0;
    let mut i: usize = 0;
    while i < lanterns.len()
        invariant
            0 <= i <= lanterns.len(),
            from@.within(COORD_MAX as int),
            lanterns_in_range(lanterns@),
            sight matches Some(radius) ==> 0 <= radius <= COORD_MAX,
            match best {
                None => none_in_sight(from@, lanterns@.take(i as int), sight),
                Some(b) => is_nearest(from@, lanterns@.take(i as int), sight, b as int) && best_d2
                    == from@.dist2(lanterns@[b as int].position@),
            },
        decreases lanterns.len() - i,
    {
        let lantern = &lanterns[i];
        let d2 = from.dist2(&lantern.position);
        let visible = match sight {
            None => true,
            Some(radius) => {
                assert(radius * radius <= COORD_MAX * COORD_MAX) by (nonlinear_arith)
                    requires
                        0 <= radius <= COORD_MAX,
                ;
                lantern.is_on && d2 <= (radius as u128) * (radius as u128)
            },
        };
        proof {
            let before = lanterns@.take(i as int);
            let after = lanterns@.take(i + 1);
            assert(forall|j: int| 0 <= j < i ==> after[j] == before[j]);
            assert(after[i as int] == lanterns@[i as int]);
            assert(visible == in_sight(from@, lanterns@[i as int], sight));
        }
        if visible && (best.is_none() || d2 < best_d2) {
            best = Some(i);
            best_d2 = d2;
        }
        i = i + 1;
    }
    proof {
        assert(lanterns@.take(lanterns.len() as int) =~= lanterns@);
    }
    best
}

/// Some lantern is nearer to `from` than `distance`.
pub open spec fn close_enough(from: Vector, lanterns: Seq<Lantern>, distance: i64) -> bool {
    exists|j: int|
        0 <= j < lanterns.len() && from.dist2((#[trigger] lanterns[j]).position@) < distance
            * distance
}

/// Whether the nearest lantern is nearer to `from` than `distance`.
pub fn is_close_enough(from: &Vec3, lanterns: &[Lantern], distance: i64) -> (close: bool)
    requires
        from@.within(COORD_MAX as int),
        lanterns_in_range(lanterns@),
        0 <= distance <= COORD_MAX,
    ensures
        close == close_enough(from@, lanterns@, distance),
{
    match nearest_lantern(from, lanterns, None) {
        None => false,
        Some(i) => {
            assert(distance * distance <= COORD_MAX * COORD_MAX) by (nonlinear_arith)
                requires
                    0 <= distance <= COORD_MAX,
            ;
            let d2 = from.dist2(&lanterns[i].position);
            d2 < (distance as u128) * (distance as u128)
        },
    }
}

/// Decides whether a flying moth at `moth_position` settles on this tick: it
/// does when a lantern is nearer than the landing distance and a trial with
/// the landing chance succeeds. Where there are no lanterns, nothing is
/// drawn.
pub fn determine_landing_action(
    moth_position: &Vec3,
    lanterns: &[Lantern],
    config: &MothConfig,
    rng: &mut StdRng,
) -> (action: MothAction)
    requires
        moth_position@.within(COORD_MAX as int),
        lanterns_in_range(lanterns@),
        config.wf(),
    ensures
        action == MothAction::Land || action == MothAction::DoNothing,
        action == MothAction::Land ==> close_enough(
            moth_position@,
            lanterns@,
            config.landing_distance,
        ),
        config.landing_chance == ONE && close_enough(
            moth_position@,
            lanterns@,
            config.landing_distance,
        ) ==> action == MothAction::Land,
        config.landing_chance == 0 ==> action == MothAction::DoNothing,
{
    if lanterns.len() == 0 {
        return MothAction::DoNothing;
    }
    let close = is_close_enough(moth_position, lanterns, config.landing_distance);
    let random_roll_succeeded = random_ratio(rng, config.landing_chance as u32, ONE as u32);
    should_land(close, random_roll_succeeded)
}

/// Every component of `v` lies in `[-ONE, ONE)`: the cube that random
/// directions are drawn from.
pub open spec fn in_cube(v: Vec3) -> bool {
    &&& -ONE <= v.x < ONE
    &&& -ONE <= v.y < ONE
    &&& -ONE <= v.z < ONE
}

/// `direction` is a vector of the cube other than zero: it points
/// somewhere.
pub open spec fn is_direction(direction: Vec3) -> bool {
    in_cube(direction) && direction@ != Vector::zero()
}

/// How often a direction is drawn anew when the draw gave the zero vector.
pub const DIRECTION_TRIES: u8 = 8;

/// Draws a direction: three components, each from `[-ONE, ONE)`. The zero
/// vector points nowhere, so a draw that gives it is made again; should
/// that not help, the direction is straight up.
pub fn random_direction(rng: &mut StdRng) -> (direction: Vec3)
    ensures
        is_direction(direction),
{
    let mut tries: u8 = 0;
    while tries < DIRECTION_TRIES
        invariant
            tries <= DIRECTION_TRIES,
        decreases DIRECTION_TRIES - tries,
    {
        let x = random_range(rng, -ONE, ONE);
        let y = random_range(rng, -ONE, ONE);
        let z = random_range(rng, -ONE, ONE);
        let direction = Vec3::new(x, y, z);
        if !direction.is_zero() {
            return direction;
        }
        tries = tries + 1;
    }
    Vec3::new(0, 1, 0)
}

/// `after` is `before` settled: at rest, with a fresh timer of `duration`.
pub open spec fn settled(before: Moth, after: Moth, duration: u64) -> bool {
    &&& after.position == before.position
    &&& after.facing == before.facing
    &&& after.velocity.0@ == Vector::zero()
    &&& after.landed == Some(LandedTimer(Timer { duration, elapsed: 0 }))
}

/// `after` is `before` in the air again, at `speed` along `direction`.
pub open spec fn taken_off(before: Moth, after: Moth, direction: Vec3, speed: i64) -> bool {
    &&& after.position == before.position
    &&& after.facing == before.facing
    &&& after.velocity.0@ == direction@.with_length(speed as int)
    &&& after.landed is None
}

/// Carries out `action` on `moth`. A moth that takes off leaves along
/// `direction` at the configured speed; one that lands comes to rest and
/// starts its timer.
pub fn apply_action(moth: &mut Moth, action: MothAction, direction: &Vec3, config: &MothConfig)
    requires
        config.wf(),
        direction@.within(SCALAR_MAX as int),
    ensures
        action == MothAction::DoNothing ==> *final(moth) == *old(moth),
        action == MothAction::Land ==> settled(*old(moth), *final(moth), config.landed_duration),
        action == MothAction::TakeOff ==> taken_off(
            *old(moth),
            *final(moth),
            *direction,
            config.moth_speed,
        ),
        old(moth).wf() ==> final(moth).wf(),
{
    match action {
        MothAction::TakeOff => {
            proof {
                lemma_with_length_norm(direction@, config.moth_speed as int);
                lemma_speed_in_range(
                    direction@.with_length(config.moth_speed as int),
                    config.moth_speed as int,
                );
            }
            moth.landed = None;
            moth.velocity = Velocity(direction.with_length(config.moth_speed));
        },
        MothAction::Land => {
            moth.velocity = Velocity(Vec3::zero());
            moth.landed = Some(LandedTimer(Timer::new(config.landed_duration)));
        },
        MothAction::DoNothing => {},
    }
}

/// What one tick of the landing system may make of a moth.
///
/// A settled moth has its timer ticked; when the timer runs out it takes
/// off in a direction drawn at random, at the configured speed but for the
/// rounding. A flying
/// moth either stays as it is or, if a lantern is nearer than the landing
/// distance, settles; with a landing chance of one it settles whenever it
/// can, with a chance of zero never.
pub open spec fn landing_outcome(
    before: Moth,
    after: Moth,
    lanterns: Seq<Lantern>,
    config: MothConfig,
    delta: u64,
) -> bool {
    match before.landed {
        Some(timer) => {
            let ticked = timer.0.ticked(delta);
            if ticked.is_finished() {
                &&& exists|direction: Vec3|
                    is_direction(direction) && #[trigger] taken_off(
                        before,
                        after,
                        direction,
                        config.moth_speed,
                    )
                &&& after.keeps_to(config.moth_speed as int)
                &&& ONE * after.velocity.0@.norm2() >= least_norm2(config.moth_speed as int)
            } else {
                after == (Moth { landed: Some(LandedTimer(ticked)), ..before })
            }
        },
        None => {
            let close = close_enough(before.position@, lanterns, config.landing_distance);
            &&& after == before || (close && settled(before, after, config.landed_duration))
            &&& config.landing_chance == ONE && close ==> settled(
                before,
                after,
                config.landed_duration,
            )
            &&& config.landing_chance == 0 ==> after == before
        },
    }
}

/// Every moth is well formed.
pub open spec fn moths_wf(moths: Seq<Moth>) -> bool {
    forall|i: int| 0 <= i < moths.len() ==> (#[trigger] moths[i]).wf()
}

/// One tick of landing and take-off for every moth. Where there are no
/// lanterns no moth can settle, but the timers of the settled moths run and
/// they take off all the same.
pub fn moth_landing_system(
    delta: u64,
    config: &MothConfig,
    lanterns: &[Lantern],
    moths: &mut Vec<Moth>,
    rng: &mut StdRng,
)
    requires
        config.wf(),
        lanterns_in_range(lanterns@),
        moths_wf(old(moths)@),
    ensures
        final(moths)@.len() == old(moths)@.len(),
        forall|i: int|
            0 <= i < old(moths)@.len() ==> landing_outcome(
                old(moths)@[i],
                #[trigger] final(moths)@[i],
                lanterns@,
                *config,
                delta,
            ),
        moths_wf(final(moths)@),
        forall|i: int|
            0 <= i < old(moths)@.len() ==> old(moths)@[i].keeps_to(config.moth_speed as int)
                ==> (#[trigger] final(moths)@[i]).keeps_to(config.moth_speed as int),
{
    let ghost before = moths@;
    let mut i: usize = 0;
    while i < moths.len()
        invariant
            0 <= i <= moths.len(),
            moths@.len() == before.len(),
            config.wf(),
            lanterns_in_range(lanterns@),
            moths_wf(before),
            forall|j: int| i <= j < before.len() ==> moths@[j] == before[j],
            forall|j: int|
                0 <= j < i ==> landing_outcome(
                    before[j],
                    #[trigger] moths@[j],
                    lanterns@,
                    *config,
                    delta,
                ),
            forall|j: int| 0 <= j < i ==> (#[trigger] moths@[j]).wf(),
            forall|j: int|
                0 <= j < i ==> before[j].keeps_to(config.moth_speed as int) ==> (
                #[trigger] moths@[j]).keeps_to(config.moth_speed as int),
        decreases moths.len() - i,
    {
        let mut moth = moths[i];
        let ghost old_moth = moth;
        assert(old_moth == before[i as int]);
        assert(old_moth.wf());
        let mut direction = Vec3::zero();
        let action = match moth.landed {
            Some(mut landed_timer) => {
                let action = determine_takeoff_action(&mut landed_timer, delta);
                moth.landed = Some(landed_timer);
                action
            },
            None => determine_landing_action(&moth.position, lanterns, config, rng),
        };
        if action == MothAction::TakeOff {
            direction = random_direction(rng);
        }
        apply_action(&mut moth, action, &direction, config);
        proof {
            lemma_with_length_norm(direction@, config.moth_speed as int);
            if action == MothAction::TakeOff {
                assert(taken_off(old_moth, moth, direction, config.moth_speed));
            }
            assert(landing_outcome(old_moth, moth, lanterns@, *config, delta));
        }
        moths.set(i, moth);
        i = i + 1;
    }
}

/// A run of the landing system seen from one moth: `moths[k + 1]` is what
/// the tick of `deltas[k]` nanoseconds made of `moths[k]`.
pub open spec fn landing_run(
    moths: Seq<Moth>,
    lanterns: Seq<Lantern>,
    config: MothConfig,
    deltas: Seq<u64>,
) -> bool {
    &&& moths.len() == deltas.len() + 1
    &&& forall|k: int|
        0 <= k < deltas.len() ==> landing_outcome(
            moths[k],
            moths[k + 1],
            lanterns,
            config,
            #[trigger] deltas[k],
        )
}

/// A moth that settled for `duration` is still settled, where it was and
/// at rest, after every run of ticks that add up to less than `duration`,
/// and its timer has counted their sum.
pub proof fn lemma_settled_until(
    moths: Seq<Moth>,
    lanterns: Seq<Lantern>,
    config: MothConfig,
    deltas: Seq<u64>,
    duration: u64,
    k: int,
)
    requires
        landing_run(moths, lanterns, config, deltas),
        moths[0].landed == Some(LandedTimer(Timer { duration, elapsed: 0 })),
        0 <= k <= deltas.len(),
        total(deltas.take(k)) < duration,
    ensures
        moths[k] == (Moth {
            landed: Some(LandedTimer(Timer { duration, elapsed: total(deltas.take(k)) as u64 })),
            ..moths[0]
        }),
    decreases k,
{
    if k > 0 {
        let shorter = deltas.take(k - 1);
        assert(deltas.take(k).drop_last() =~= shorter);
        assert(deltas.take(k).last() == deltas[k - 1]);
        lemma_total_non_negative(shorter);
        lemma_settled_until(moths, lanterns, config, deltas, duration, k - 1);
        assert(landing_outcome(moths[k - 1], moths[k - 1 + 1], lanterns, config, deltas[k - 1]));
    } else {
        assert(deltas.take(0) =~= Seq::<u64>::empty());
    }
}

/// The landing round trip. A moth that settled for `duration` takes off
/// on the tick on which the ticks since it settled first add up to
/// `duration`, and on no earlier one. It leaves from where it sat, no
/// faster than the configured speed and slower by a rounding error only:
/// with a squared speed of at least
/// `speed * speed * (1 - 5 / ONE) - 4 * speed`.
pub proof fn lemma_landing_round_trip(
    moths: Seq<Moth>,
    lanterns: Seq<Lantern>,
    config: MothConfig,
    deltas: Seq<u64>,
    duration: u64,
    n: int,
)
    requires
        config.wf(),
        landing_run(moths, lanterns, config, deltas),
        moths[0].landed == Some(LandedTimer(Timer { duration, elapsed: 0 })),
        1 <= n <= deltas.len(),
        total(deltas.take(n - 1)) < duration,
    ensures
        total(deltas.take(n)) < duration ==> !moths[n].is_flying(),
        total(deltas.take(n)) >= duration ==> {
            &&& moths[n].is_flying()
            &&& moths[n].position == moths[0].position
            &&& moths[n].keeps_to(config.moth_speed as int)
            &&& ONE * moths[n].velocity.0@.norm2() >= least_norm2(config.moth_speed as int)
            &&& exists|direction: Vec3|
                is_direction(direction) && #[trigger] taken_off(
                    moths[n - 1],
                    moths[n],
                    direction,
                    config.moth_speed,
                )
        },
{
    let shorter = deltas.take(n - 1);
    assert(deltas.take(n).drop_last() =~= shorter);
    assert(deltas.take(n).last() == deltas[n - 1]);
    lemma_settled_until(moths, lanterns, config, deltas, duration, n - 1);
    assert(landing_outcome(moths[n - 1], moths[n - 1 + 1], lanterns, config, deltas[n - 1]));
    if total(deltas.take(n)) >= duration {
        let direction = choose|direction: Vec3|
            is_direction(direction) && #[trigger] taken_off(
                moths[n - 1],
                moths[n],
                direction,
                config.moth_speed,
            );
        lemma_with_length_norm(direction@, config.moth_speed as int);
    } else {
        lemma_settled_until(moths, lanterns, config, deltas, duration, n);
    }
}

/// Every lantern is well formed.
pub open spec fn lanterns_wf(lanterns: Seq<Lantern>) -> bool {
    forall|j: int| 0 <= j < lanterns.len() ==> (#[trigger] lanterns[j]).wf()
}

/// The force that `lantern` exerts on a moth at `from`.
///
/// Outside the lantern's personal space the moth is drawn toward it with
/// the lantern's radiance. Inside, it is pushed straight away with a
/// strength of one over the distance, the distance rounded down to a whole
/// raw unit. A moth at the very place of the lantern has no direction to be
/// pushed in and feels nothing.
pub open spec fn attraction(from: Vector, lantern: Lantern, personal_space: i64) -> Vector {
    let d2 = from.dist2(lantern.position@);
    if d2 == 0 {
        Vector::zero()
    } else if d2 < personal_space * personal_space {
        from.minus(lantern.position@).unit().scaled(ONE as int, sqrt_floor(d2))
    } else {
        lantern.position@.minus(from).with_length(lantern.radiance as int)
    }
}

/// The force of a single lantern lies within the coordinate range.
pub proof fn lemma_attraction_within(from: Vector, lantern: Lantern, personal_space: i64)
    requires
        from.within(COORD_MAX as int),
        lantern.wf(),
    ensures
        attraction(from, lantern, personal_space).within(COORD_MAX as int),
{
    let away = from.minus(lantern.position@);
    let toward = lantern.position@.minus(from);
    let d2 = from.dist2(lantern.position@);
    lemma_norm2_within(away, 2 * COORD_MAX);
    if d2 == 0 {
    } else if d2 < personal_space * personal_space {
        lemma_sqrt_floor_exists(d2);
        let dist = sqrt_floor(d2);
        assert(dist >= 1) by (nonlinear_arith)
            requires
                d2 >= 1,
                d2 < (dist + 1) * (dist + 1),
                dist >= 0,
        ;
        lemma_unit_within(away);
        lemma_scaled_within(away.unit(), ONE as int, dist, ONE as int, ONE as int);
        assert((ONE * ONE) / dist <= ONE * ONE) by (nonlinear_arith)
            requires
                dist >= 1,
        ;
    } else {
        lemma_unit_within(toward);
        lemma_mul_div_within(toward.unit().x, lantern.radiance as int, ONE as int);
        lemma_mul_div_within(toward.unit().y, lantern.radiance as int, ONE as int);
        lemma_mul_div_within(toward.unit().z, lantern.radiance as int, ONE as int);
    }
}

/// The force of `lantern` on a moth at `from`.
pub fn lantern_force(from: &Vec3, lantern: &Lantern, personal_space: i64) -> (force: Vec3)
    requires
        from@.within(COORD_MAX as int),
        lantern.wf(),
        0 <= personal_space <= COORD_MAX,
    ensures
        force@ == attraction(from@, *lantern, personal_space),
        force@.within(COORD_MAX as int),
{
    proof {
        lemma_attraction_within(from@, *lantern, personal_space);
        assert(personal_space * personal_space <= COORD_MAX * COORD_MAX) by (nonlinear_arith)
            requires
                0 <= personal_space <= COORD_MAX,
        ;
    }
    let away = from.minus(&lantern.position);
    let d2 = away.norm2();
    if d2 == 0 {
        Vec3::zero()
    } else if d2 < (personal_space as u128) * (personal_space as u128) {
        let distance = away.length();
        away.normalize_or_zero().scaled(ONE, distance as u128)
    } else {
        lantern.position.minus(from).with_length(lantern.radiance)
    }
}

/// The pull of the lanterns on a moth at `moth_position`: the force of the
/// nearest lit lantern within the view radius, and no force where there is
/// none.
pub fn calculate_attraction_force(
    moth_position: &Vec3,
    lanterns: &[Lantern],
    moth_config: &MothConfig,
    lantern_config: &LanternConfig,
) -> (force: Vec3)
    requires
        moth_position@.within(COORD_MAX as int),
        lanterns_wf(lanterns@),
        moth_config.wf(),
        lantern_config.wf(),
    ensures
        none_in_sight(moth_position@, lanterns@, Some(moth_config.view_radius)) ==> force@
            == Vector::zero(),
        forall|i: int|
            is_nearest(moth_position@, lanterns@, Some(moth_config.view_radius), i) ==> force@
                == attraction(moth_position@, #[trigger] lanterns@[i], lantern_config.personal_space),
        force@.within(COORD_MAX as int),
{
    let sight = Some(moth_config.view_radius);
    match nearest_lantern(moth_position, lanterns, sight) {
        None => {
            proof {
                assert forall|i: int| !is_nearest(moth_position@, lanterns@, sight, i) by {}
            }
            Vec3::zero()
        },
        Some(nearest) => {
            proof {
                assert forall|i: int|
                    is_nearest(moth_position@, lanterns@, sight, i) implies i == nearest by {
                    lemma_nearest_unique(moth_position@, lanterns@, sight, i, nearest as int);
                }
            }
            lantern_force(moth_position, &lanterns[nearest], lantern_config.personal_space)
        },
    }
}

/// There is only one nearest lantern.
pub proof fn lemma_nearest_unique(
    from: Vector,
    lanterns: Seq<Lantern>,
    sight: Option<i64>,
    i: int,
    j: int,
)
    requires
        is_nearest(from, lanterns, sight, i),
        is_nearest(from, lanterns, sight, j),
    ensures
        i == j,
{
}

/// The velocity of a flying moth once it is roused: the one it has, or
/// `seed` at unit length if it has none.
pub open spec fn roused(velocity: Vector, seed: Vector) -> Vector {
    if velocity == Vector::zero() {
        seed.unit()
    } else {
        velocity
    }
}

/// Rouses a flying moth: see [`roused`].
pub fn rouse(velocity: &Vec3, seed: &Vec3) -> (start: Vec3)
    requires
        velocity@.within(COORD_MAX as int),
        in_cube(*seed),
    ensures
        start@ == roused(velocity@, seed@),
        start@.within(COORD_MAX as int),
{
    if velocity.is_zero() {
        seed.normalize_or_zero()
    } else {
        *velocity
    }
}

/// What the idle check may make of a moth: a flying moth at rest is given
/// a heading drawn at random, of length `ONE` but for the rounding; every
/// other moth is left as it is.
pub open spec fn idle_outcome(before: Moth, after: Moth) -> bool {
    if before.is_flying() && before.velocity.0@ == Vector::zero() {
        &&& after.position == before.position
        &&& after.facing == before.facing
        &&& after.landed == before.landed
        &&& exists|seed: Vec3|
            is_direction(seed) && after.velocity.0@ == #[trigger] roused(
                before.velocity.0@,
                seed@,
            )
        &&& ONE * ONE - 5 * ONE <= after.velocity.0@.norm2() <= ONE * ONE
    } else {
        after == before
    }
}

/// The idle check: every flying moth that the last tick left at rest is
/// given a heading drawn at random.
pub fn moth_idle_system(moths: &mut Vec<Moth>, rng: &mut StdRng)
    requires
        moths_wf(old(moths)@),
    ensures
        final(moths)@.len() == old(moths)@.len(),
        forall|i: int|
            0 <= i < old(moths)@.len() ==> idle_outcome(old(moths)@[i], #[trigger] final(moths)@[i]),
        moths_wf(final(moths)@),
{
    let ghost before = moths@;
    let mut i: usize = 0;
    while i < moths.len()
        invariant
            0 <= i <= moths.len(),
            moths@.len() == before.len(),
            moths_wf(before),
            forall|j: int| i <= j < before.len() ==> moths@[j] == before[j],
            forall|j: int| 0 <= j < i ==> idle_outcome(before[j], #[trigger] moths@[j]),
            forall|j: int| 0 <= j < i ==> (#[trigger] moths@[j]).wf(),
        decreases moths.len() - i,
    {
        let mut moth = moths[i];
        let ghost old_moth = moth;
        assert(old_moth == before[i as int]);
        assert(old_moth.wf());
        if moth.landed.is_none() && moth.velocity.0.is_zero() {
            let seed = random_direction(rng);
            proof {
                lemma_unit_norm(seed@);
                lemma_speed_in_range(seed@.unit(), ONE as int);
            }
            moth.velocity = Velocity(rouse(&moth.velocity.0, &seed));
            assert(moth.velocity.0@ == roused(old_moth.velocity.0@, seed@));
            moths.set(i, moth);
        }
        i = i + 1;
    }
}

/// The velocity of a wandering moth after a tick: its velocity once it is
/// roused, plus the weighted pull of the lanterns and a push of the
/// wander factor's length along `push`, brought to the configured speed.
pub open spec fn wandered(
    velocity: Vector,
    seed: Vector,
    push: Vector,
    force: Vector,
    config: MothConfig,
) -> Vector {
    roused(velocity, seed).plus(force.scaled(config.attraction_factor as int, ONE as int)).plus(
        push.with_length(config.wander_factor as int),
    ).with_length(config.moth_speed as int)
}

/// One tick of wandering for a flying moth: see [`wandered`]. `seed` is
/// used only by a moth without velocity.
pub fn wander_step(moth: &mut Moth, seed: &Vec3, push: &Vec3, force: &Vec3, config: &MothConfig)
    requires
        old(moth).wf(),
        old(moth).is_flying(),
        config.wf(),
        in_cube(*seed),
        in_cube(*push),
        force@.within(COORD_MAX as int),
    ensures
        final(moth).velocity.0@ == wandered(old(moth).velocity.0@, seed@, push@, force@, *config),
        final(moth).position == old(moth).position,
        final(moth).facing == old(moth).facing,
        final(moth).landed == old(moth).landed,
        final(moth).wf(),
        final(moth).keeps_to(config.moth_speed as int),
{
    let start = rouse(&moth.velocity.0, seed);
    proof {
        lemma_scaled_within(
            force@,
            config.attraction_factor as int,
            ONE as int,
            COORD_MAX as int,
            WEIGHT_MAX as int,
        );
    }
    let pull = force.scaled(config.attraction_factor, ONE as u128);
    let nudge = push.with_length(config.wander_factor);
    let heading = start.plus(&pull).plus(&nudge);
    proof {
        lemma_with_length_norm(heading@, config.moth_speed as int);
        lemma_speed_in_range(
            heading@.with_length(config.moth_speed as int),
            config.moth_speed as int,
        );
    }
    moth.velocity = Velocity(heading.with_length(config.moth_speed));
}

/// What one tick of wandering may make of a moth: a settled moth is left
/// alone, a flying one is steered by [`wandered`] with a seed and a push
/// drawn at random.
pub open spec fn wander_outcome(
    before: Moth,
    after: Moth,
    lanterns: Seq<Lantern>,
    moth_config: MothConfig,
    lantern_config: LanternConfig,
) -> bool {
    if before.is_flying() {
        &&& after.position == before.position
        &&& after.facing == before.facing
        &&& after.landed == before.landed
        &&& exists|seed: Vec3, push: Vec3, force: Vec3|
            is_direction(seed) && is_direction(push) && is_pull(
                before.position@,
                lanterns,
                moth_config,
                lantern_config,
                force@,
            ) && after.velocity.0@ == #[trigger] wandered(
                before.velocity.0@,
                seed@,
                push@,
                force@,
                moth_config,
            )
    } else {
        after == before
    }
}

/// Two vectors of different lengths do not cancel.
pub proof fn lemma_sum_not_zero(a: Vector, b: Vector)
    requires
        a.norm2() != b.norm2(),
    ensures
        a.plus(b) != Vector::zero(),
{
    if a.plus(b) == Vector::zero() {
        assert(a.x * a.x == b.x * b.x && a.y * a.y == b.y * b.y && a.z * a.z == b.z * b.z)
            by (nonlinear_arith)
            requires
                a.x == -b.x,
                a.y == -b.y,
                a.z == -b.z,
        ;
    }
}

/// A moth at rest that feels no lantern wanders off at the configured
/// speed, but for the rounding, as long as the wander factor is below one.
pub proof fn lemma_wandered_from_rest(seed: Vec3, push: Vec3, config: MothConfig)
    requires
        config.wf(),
        config.wander_factor <= ONE - 3,
        is_direction(seed),
        in_cube(push),
    ensures
        ({
            let velocity = wandered(Vector::zero(), seed@, push@, Vector::zero(), config);
            &&& velocity.norm2() <= config.moth_speed * config.moth_speed
            &&& ONE * velocity.norm2() >= least_norm2(config.moth_speed as int)
        }),
{
    let start = seed@.unit();
    let pull = Vector::zero().scaled(config.attraction_factor as int, ONE as int);
    let nudge = push@.with_length(config.wander_factor as int);
    let factor = config.wander_factor as int;
    lemma_unit_norm(seed@);
    lemma_unit_within(seed@);
    lemma_mul_div_bound(0, config.attraction_factor as int, ONE as int, 0, WEIGHT_MAX as int);
    assert(pull == Vector::zero());
    lemma_with_length_norm(push@, factor);
    assert(factor * factor < ONE * ONE - 5 * ONE) by (nonlinear_arith)
        requires
            0 <= factor <= ONE - 3,
    ;
    lemma_sum_not_zero(start, nudge);
    assert(start.plus(pull).plus(nudge) == start.plus(nudge));
    lemma_within_by_norm(nudge, factor);
    lemma_with_length_norm(start.plus(pull).plus(nudge), config.moth_speed as int);
}

/// The wander system rouses a moth at rest: where no lantern is in sight
/// and the wander factor is below one, a flying moth that was at rest
/// flies at the configured speed, but for the rounding, after one tick of
/// wandering.
pub proof fn lemma_wander_rouses(
    before: Moth,
    after: Moth,
    lanterns: Seq<Lantern>,
    moth_config: MothConfig,
    lantern_config: LanternConfig,
)
    requires
        moth_config.wf(),
        moth_config.wander_factor <= ONE - 3,
        before.is_flying(),
        before.velocity.0@ == Vector::zero(),
        none_in_sight(before.position@, lanterns, Some(moth_config.view_radius)),
        wander_outcome(before, after, lanterns, moth_config, lantern_config),
    ensures
        after.keeps_to(moth_config.moth_speed as int),
        ONE * after.velocity.0@.norm2() >= least_norm2(moth_config.moth_speed as int),
{
    let (seed, push, force) = choose|seed: Vec3, push: Vec3, force: Vec3|
        is_direction(seed) && is_direction(push) && is_pull(
            before.position@,
            lanterns,
            moth_config,
            lantern_config,
            force@,
        ) && after.velocity.0@ == #[trigger] wandered(
            before.velocity.0@,
            seed@,
            push@,
            force@,
            moth_config,
        );
    assert(force@ == Vector::zero());
    lemma_wandered_from_rest(seed, push, moth_config);
}

/// `force` is the pull of the lanterns on a moth at `from`: the force of the
/// nearest lit lantern within the view radius, or none.
pub open spec fn is_pull(
    from: Vector,
    lanterns: Seq<Lantern>,
    moth_config: MothConfig,
    lantern_config: LanternConfig,
    force: Vector,
) -> bool {
    &&& none_in_sight(from, lanterns, Some(moth_config.view_radius)) ==> force == Vector::zero()
    &&& forall|i: int|
        is_nearest(from, lanterns, Some(moth_config.view_radius), i) ==> force == attraction(
            from,
            #[trigger] lanterns[i],
            lantern_config.personal_space,
        )
}

/// One tick of wandering: every flying moth is given a small random push,
/// is drawn to the nearest lit lantern in view or pushed out of its
/// personal space, and flies on at the configured speed. A flying moth
/// without velocity is first given a random heading.
pub fn moth_wander_system(
    moth_config: &MothConfig,
    lantern_config: &LanternConfig,
    moths: &mut Vec<Moth>,
    lanterns: &[Lantern],
    rng: &mut StdRng,
)
    requires
        moth_config.wf(),
        lantern_config.wf(),
        lanterns_wf(lanterns@),
        moths_wf(old(moths)@),
    ensures
        final(moths)@.len() == old(moths)@.len(),
        forall|i: int|
            0 <= i < old(moths)@.len() ==> wander_outcome(
                old(moths)@[i],
                #[trigger] final(moths)@[i],
                lanterns@,
                *moth_config,
                *lantern_config,
            ),
        moths_wf(final(moths)@),
        forall|i: int|
            0 <= i < old(moths)@.len() && old(moths)@[i].is_flying() ==> (
            #[trigger] final(moths)@[i]).keeps_to(moth_config.moth_speed as int),
{
    let ghost before = moths@;
    let mut i: usize = 0;
    while i < moths.len()
        invariant
            0 <= i <= moths.len(),
            moths@.len() == before.len(),
            moth_config.wf(),
            lantern_config.wf(),
            lanterns_wf(lanterns@),
            moths_wf(before),
            forall|j: int| i <= j < before.len() ==> moths@[j] == before[j],
            forall|j: int|
                0 <= j < i ==> wander_outcome(
                    before[j],
                    #[trigger] moths@[j],
                    lanterns@,
                    *moth_config,
                    *lantern_config,
                ),
            forall|j: int| 0 <= j < i ==> (#[trigger] moths@[j]).wf(),
            forall|j: int|
                0 <= j < i && before[j].is_flying() ==> (#[trigger] moths@[j]).keeps_to(
                    moth_config.moth_speed as int,
                ),
        decreases moths.len() - i,
    {
        let mut moth = moths[i];
        let ghost old_moth = moth;
        assert(old_moth == before[i as int]);
        assert(old_moth.wf());
        if moth.landed.is_none() {
            let seed = if moth.velocity.0.is_zero() {
                random_direction(rng)
            } else {
                Vec3::zero()
            };
            let push = random_direction(rng);
            let force = calculate_attraction_force(
                &moth.position,
                lanterns,
                moth_config,
                lantern_config,
            );
            wander_step(&mut moth, &seed, &push, &force, moth_config);
            proof {
                assert(is_pull(
                    old_moth.position@,
                    lanterns@,
                    *moth_config,
                    *lantern_config,
                    force@,
                ));
                // a moth that flies is not roused, whatever the seed
                let drawn = if old_moth.velocity.0@ == Vector::zero() {
                    seed
                } else {
                    Vec3 { x: 0, y: 1, z: 0 }
                };
                assert(is_direction(drawn));
                assert(moth.velocity.0@ == wandered(
                    old_moth.velocity.0@,
                    drawn@,
                    push@,
                    force@,
                    *moth_config,
                ));
            }
            moths.set(i, moth);
        }
        i = i + 1;
    }
}

/// A moth after `delta` nanoseconds of flight: moved by its velocity, and
/// facing the way it flies if it flies at all.
pub open spec fn moved(before: Moth, after: Moth, delta: u64) -> bool {
    &&& after.position@ == before.position@.plus(
        before.velocity.0@.scaled(delta as int, NANOS_PER_SECOND as int),
    )
    &&& after.facing@ == if before.velocity.0@ == Vector::zero() {
        before.facing@
    } else {
        before.velocity.0@.unit()
    }
    &&& after.velocity == before.velocity
    &&& after.landed == before.landed
}

/// Movement changes no velocity and no state, whatever the length of the
/// tick: a moth that kept to a speed still keeps to it, and a moth at
/// rest, as every settled moth is, stays where it is.
pub proof fn lemma_movement_keeps_velocity(before: Moth, after: Moth, delta: u64, speed: int)
    requires
        moved(before, after, delta),
    ensures
        after.velocity == before.velocity,
        after.landed == before.landed,
        before.keeps_to(speed) ==> after.keeps_to(speed),
        before.velocity.0@ == Vector::zero() ==> after.position == before.position,
{
    if before.velocity.0@ == Vector::zero() {
        lemma_mul_div_bound(0, delta as int, NANOS_PER_SECOND as int, 0, delta as int);
    }
}

/// Moves every moth by its velocity over `delta` nanoseconds and turns it
/// to face the way it flies.
pub fn moth_movement_system(moths: &mut Vec<Moth>, delta: u64)
    requires
        moths_wf(old(moths)@),
        delta <= TICK_MAX,
    ensures
        final(moths)@.len() == old(moths)@.len(),
        forall|i: int|
            0 <= i < old(moths)@.len() ==> moved(old(moths)@[i], #[trigger] final(moths)@[i], delta),
        forall|i: int|
            0 <= i < old(moths)@.len() ==> (#[trigger] final(moths)@[i]).wf_within(REACH as int),
{
    let ghost before = moths@;
    let mut i: usize = 0;
    while i < moths.len()
        invariant
            0 <= i <= moths.len(),
            moths@.len() == before.len(),
            delta <= TICK_MAX,
            moths_wf(before),
            forall|j: int| i <= j < before.len() ==> moths@[j] == before[j],
            forall|j: int| 0 <= j < i ==> moved(before[j], #[trigger] moths@[j], delta),
            forall|j: int| 0 <= j < i ==> (#[trigger] moths@[j]).wf_within(REACH as int),
        decreases moths.len() - i,
    {
        let mut moth = moths[i];
        assert(moth == before[i as int]);
        assert(moth.wf());
        proof {
            lemma_scaled_within(
                moth.velocity.0@,
                delta as int,
                NANOS_PER_SECOND as int,
                COORD_MAX as int,
                TICK_MAX as int,
            );
        }
        let step = moth.velocity.0.scaled(delta as i64, NANOS_PER_SECOND as u128);
        moth.position = moth.position.plus(&step);
        if !moth.velocity.0.is_zero() {
            moth.facing = moth.velocity.0.normalize_or_zero();
        }
        moths.set(i, moth);
        i = i + 1;
    }
}

} // verus!
