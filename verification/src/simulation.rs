//! The simulation as a whole: its moths, its lanterns and the index of the
//! lanterns, and the tick that runs the systems in their order.

use crate::components::{Lantern, Moth};
use crate::config::{LanternConfig, MothConfig, RoomConfig, COORD_MAX, MAX_FLOCK, TICK_MAX};
use crate::fixed::{abs, lemma_mul_div_bound};
use crate::resources::SpatialIndex;
use crate::setup::{
    filings_of, grid_rows, hung, let_loose, setup_lantern_index, setup_lanterns, setup_moths,
    LANTERN_DROP_MAX,
};
use crate::systems::collision::{collision_outcome, moth_collision_system};
use crate::systems::flocking::{flocking_outcome, flocking_system};
use crate::systems::lantern::{lantern_power_system, power_outcome};
use crate::systems::moth::{
    idle_outcome, landing_outcome, lanterns_wf, moth_idle_system, moth_landing_system,
    moth_movement_system, moths_wf, moved,
};
use crate::systems::scene::{contained, enforce_boundary_system, horizontal, kept_in};
use crate::timer::NANOS_PER_SECOND;
use crate::vector::{lemma_within_by_norm, Vector};
use rand::rngs::StdRng;
use vstd::prelude::*;

verus! {

/// The state of the simulation.
pub struct Simulation {
    pub moth_config: MothConfig,
    pub lantern_config: LanternConfig,
    pub room: RoomConfig,
    pub moths: Vec<Moth>,
    pub lanterns: Vec<Lantern>,
    /// The lanterns by the grid cell in which they stand.
    pub index: SpatialIndex,
}

/// The farthest that a moth no faster than `speed` moves along an axis in
/// `delta` nanoseconds.
pub open spec fn stride(speed: i64, delta: u64) -> int {
    (speed * delta) / (NANOS_PER_SECOND as int)
}

/// The point is no farther than `stride` out of the room along any axis.
pub open spec fn within_a_stride(position: Vector, room: RoomConfig, stride: int) -> bool {
    &&& abs(position.x) <= room.room_radius + stride
    &&& abs(position.z) <= room.room_radius + stride
    &&& room.floor_height - stride <= position.y <= room.ceiling_height + stride
}

/// What the landing system may make of the moths.
pub open spec fn landing_stage(
    before: Seq<Moth>,
    after: Seq<Moth>,
    lanterns: Seq<Lantern>,
    config: MothConfig,
    delta: u64,
) -> bool {
    &&& after.len() == before.len()
    &&& forall|i: int|
        0 <= i < before.len() ==> landing_outcome(before[i], #[trigger] after[i], lanterns, config, delta)
}

/// What the idle check may make of the moths.
pub open spec fn idle_stage(before: Seq<Moth>, after: Seq<Moth>) -> bool {
    &&& after.len() == before.len()
    &&& forall|i: int| 0 <= i < before.len() ==> idle_outcome(before[i], #[trigger] after[i])
}

/// What the flocking system may make of the moths.
pub open spec fn flocking_stage(
    before: Seq<Moth>,
    after: Seq<Moth>,
    lanterns: Seq<Lantern>,
    config: MothConfig,
    lantern_config: LanternConfig,
) -> bool {
    &&& after.len() == before.len()
    &&& forall|i: int|
        0 <= i < before.len() ==> flocking_outcome(
            before,
            i,
            #[trigger] after[i],
            lanterns,
            config,
            lantern_config,
        )
}

/// What the collision system may make of the moths.
pub open spec fn collision_stage(
    before: Seq<Moth>,
    after: Seq<Moth>,
    lanterns: Seq<Lantern>,
    index: Set<((i32, i32), u64)>,
    radius: i64,
) -> bool {
    &&& after.len() == before.len()
    &&& forall|i: int|
        0 <= i < before.len() ==> collision_outcome(
            before[i],
            #[trigger] after[i],
            lanterns,
            index,
            radius,
        )
}

/// What the boundary system makes of the moths.
pub open spec fn boundary_stage(before: Seq<Moth>, after: Seq<Moth>, room: RoomConfig) -> bool {
    &&& after.len() == before.len()
    &&& forall|i: int|
        0 <= i < before.len() ==> {
            &&& ((#[trigger] after[i]).position@, after[i].velocity.0@) == kept_in(
                before[i].position@,
                before[i].velocity.0@,
                room,
            )
            &&& after[i].facing == before[i].facing
            &&& after[i].landed == before[i].landed
        }
}

/// What the movement system makes of the moths.
pub open spec fn movement_stage(before: Seq<Moth>, after: Seq<Moth>, delta: u64) -> bool {
    &&& after.len() == before.len()
    &&& forall|i: int| 0 <= i < before.len() ==> moved(before[i], #[trigger] after[i], delta)
}

/// What a tick may make of the moths `entered`, by way of the moths as
/// the landing system, the idle check and the flocking, collision and
/// boundary systems leave them.
pub open spec fn moths_ticked(
    entered: Seq<Moth>,
    landed: Seq<Moth>,
    roused: Seq<Moth>,
    steered: Seq<Moth>,
    cleared: Seq<Moth>,
    kept: Seq<Moth>,
    left: Seq<Moth>,
    lanterns: Seq<Lantern>,
    index: Set<((i32, i32), u64)>,
    moth_config: MothConfig,
    lantern_config: LanternConfig,
    room: RoomConfig,
    delta: u64,
) -> bool {
    &&& landing_stage(entered, landed, lanterns, moth_config, delta)
    &&& idle_stage(landed, roused)
    &&& flocking_stage(roused, steered, lanterns, moth_config, lantern_config)
    &&& collision_stage(steered, cleared, lanterns, index, lantern_config.physical_radius)
    &&& boundary_stage(cleared, kept, room)
    &&& movement_stage(kept, left, delta)
}

impl Simulation {
    /// The configurations are usable, and moths and lanterns are well
    /// formed and not too many.
    pub open spec fn wf(self) -> bool {
        &&& self.moth_config.wf()
        &&& self.lantern_config.wf()
        &&& self.room.wf()
        &&& moths_wf(self.moths@)
        &&& self.moths@.len() <= MAX_FLOCK
        &&& lanterns_wf(self.lanterns@)
    }

    /// A tick of `delta` nanoseconds cannot carry a moth from inside the
    /// room out of the coordinate range.
    pub open spec fn has_leeway(self, delta: u64) -> bool {
        let stride = stride(self.moth_config.moth_speed, delta);
        &&& delta <= TICK_MAX
        &&& self.room.room_radius + stride <= COORD_MAX
        &&& self.room.ceiling_height + stride <= COORD_MAX
        &&& self.room.floor_height - stride >= -COORD_MAX
    }

    /// No flying moth is faster than the configured speed.
    pub open spec fn keeps_speed(self) -> bool {
        forall|i: int|
            0 <= i < self.moths@.len() ==> (#[trigger] self.moths@[i]).keeps_to(
                self.moth_config.moth_speed as int,
            )
    }

    /// Every moth is inside the room, or outside by no more than it can
    /// have moved in `delta` nanoseconds.
    pub open spec fn near_room(self, delta: u64) -> bool {
        forall|i: int|
            0 <= i < self.moths@.len() ==> within_a_stride(
                (#[trigger] self.moths@[i]).position@,
                self.room,
                stride(self.moth_config.moth_speed, delta),
            )
    }

    /// Whether the simulation is well formed: to be asked of a simulation
    /// whose moths or lanterns were changed from outside.
    pub fn is_valid(&self) -> (ok: bool)
        ensures
            ok == self.wf(),
    {
        if !self.moth_config.is_valid() || !self.lantern_config.is_valid() || !self.room.is_valid()
            || self.moths.len() > MAX_FLOCK {
            return false;
        }
        let mut i: usize = 0;
        while i < self.moths.len()
            invariant
                0 <= i <= self.moths.len(),
                forall|j: int| 0 <= j < i ==> (#[trigger] self.moths@[j]).wf(),
            decreases self.moths.len() - i,
        {
            if !self.moths[i].is_valid() {
                return false;
            }
            i = i + 1;
        }
        let mut k: usize = 0;
        while k < self.lanterns.len()
            invariant
                0 <= k <= self.lanterns.len(),
                forall|j: int| 0 <= j < k ==> (#[trigger] self.lanterns@[j]).wf(),
            decreases self.lanterns.len() - k,
        {
            if !self.lanterns[k].is_valid() {
                return false;
            }
            k = k + 1;
        }
        true
    }

    /// Whether a tick of `delta` nanoseconds may be run: see [`Self::has_leeway`].
    pub fn can_tick(&self, delta: u64) -> (ok: bool)
        requires
            self.moth_config.wf(),
            self.room.wf(),
        ensures
            ok == self.has_leeway(delta),
    {
        if delta > TICK_MAX {
            return false;
        }
        assert(self.moth_config.moth_speed * delta <= COORD_MAX * TICK_MAX) by (nonlinear_arith)
            requires
                0 <= self.moth_config.moth_speed <= COORD_MAX,
                0 <= delta <= TICK_MAX,
        ;
        let stride: i128 = ((self.moth_config.moth_speed as i128) * (delta as i128)) / (
        NANOS_PER_SECOND as i128);
        (self.room.room_radius as i128) + stride <= COORD_MAX as i128 && (
        self.room.ceiling_height as i128) + stride <= COORD_MAX as i128 && (
        self.room.floor_height as i128) - stride >= -(COORD_MAX as i128)
    }

    /// Sets the simulation up: hangs the lanterns, lets the moths loose and
    /// files the lanterns in the index.
    pub fn new(
        moth_config: MothConfig,
        lantern_config: LanternConfig,
        room: RoomConfig,
        rng: &mut StdRng,
    ) -> (simulation: Simulation)
        requires
            moth_config.wf(),
            lantern_config.wf(),
            room.wf(),
            room.ceiling_height - LANTERN_DROP_MAX >= -COORD_MAX,
        ensures
            simulation.wf(),
            simulation.keeps_speed(),
            simulation.moth_config == moth_config,
            simulation.lantern_config == lantern_config,
            simulation.room == room,
            simulation.lanterns@.len() == grid_rows(room) * grid_rows(room),
            forall|k: int|
                0 <= k < simulation.lanterns@.len() ==> hung(
                    #[trigger] simulation.lanterns@[k],
                    k,
                    grid_rows(room),
                    room,
                    lantern_config,
                ),
            simulation.moths@.len() == moth_config.moth_count,
            forall|i: int|
                0 <= i < simulation.moths@.len() ==> let_loose(
                    #[trigger] simulation.moths@[i],
                    moth_config,
                ),
            simulation.index@ == filings_of(simulation.lanterns@),
    {
        let lanterns = setup_lanterns(&room, &lantern_config, rng);
        let moths = setup_moths(&moth_config, rng);
        let mut index = SpatialIndex::new();
        setup_lantern_index(&mut index, lanterns.as_slice());
        assert(index@ =~= filings_of(lanterns@));
        Simulation { moth_config, lantern_config, room, moths, lanterns, index }
    }

    /// One tick of `delta` nanoseconds. The lanterns switch; then the moths
    /// land or take off, the flying ones that the last tick left at rest are
    /// given a heading, all flying ones are steered, turned away from the
    /// lanterns and kept in the room, and every moth moves.
    ///
    /// After the tick no moth is faster than the configured speed, a
    /// settled moth is at rest, no moth is farther out of the room than the
    /// tick can have carried it, and a dark lantern emits nothing.
    pub fn tick(&mut self, delta: u64, rng: &mut StdRng)
        requires
            old(self).wf(),
            old(self).has_leeway(delta),
        ensures
            final(self).wf(),
            final(self).keeps_speed(),
            final(self).near_room(delta),
            final(self).moth_config == old(self).moth_config,
            final(self).lantern_config == old(self).lantern_config,
            final(self).room == old(self).room,
            final(self).index@ == old(self).index@,
            final(self).lanterns@.len() == old(self).lanterns@.len(),
            forall|i: int|
                0 <= i < old(self).lanterns@.len() ==> power_outcome(
                    old(self).lanterns@[i],
                    #[trigger] final(self).lanterns@[i],
                    delta,
                    old(self).lantern_config,
                ),
            exists|
                landed: Seq<Moth>,
                roused: Seq<Moth>,
                steered: Seq<Moth>,
                cleared: Seq<Moth>,
                kept: Seq<Moth>,
            |
                #[trigger] moths_ticked(
                    old(self).moths@,
                    landed,
                    roused,
                    steered,
                    cleared,
                    kept,
                    final(self).moths@,
                    final(self).lanterns@,
                    old(self).index@,
                    old(self).moth_config,
                    old(self).lantern_config,
                    old(self).room,
                    delta,
                ),
    {
        lantern_power_system(&mut self.lanterns, delta, rng, &self.lantern_config);
        let ghost entered = self.moths@;
        moth_landing_system(delta, &self.moth_config, self.lanterns.as_slice(), &mut self.moths, rng);
        let ghost landed = self.moths@;
        moth_idle_system(&mut self.moths, rng);
        let ghost roused = self.moths@;
        flocking_system(
            &self.moth_config,
            &self.lantern_config,
            &mut self.moths,
            self.lanterns.as_slice(),
            rng,
        );
        let ghost steered = self.moths@;
        proof {
            let speed = self.moth_config.moth_speed as int;
            assert(speed * speed >= 0) by (nonlinear_arith);
            assert forall|i: int| 0 <= i < steered.len() implies (#[trigger] steered[i]).keeps_to(
                speed,
            ) by {
                assert(flocking_outcome(
                    roused,
                    i,
                    steered[i],
                    self.lanterns@,
                    self.moth_config,
                    self.lantern_config,
                ));
                assert(steered[i].wf());
                if !roused[i].is_flying() {
                    assert(steered[i] == roused[i]);
                    assert(steered[i].velocity.0@ == Vector::zero());
                    let v = steered[i].velocity.0@;
                    assert(v.norm2() == 0) by (nonlinear_arith)
                        requires
                            v.x == 0,
                            v.y == 0,
                            v.z == 0,
                            v.norm2() == v.x * v.x + v.y * v.y + v.z * v.z,
                    ;
                }
            }
        }
        moth_collision_system(
            &mut self.moths,
            self.lanterns.as_slice(),
            &self.index,
            &self.lantern_config,
        );
        let ghost cleared = self.moths@;
        enforce_boundary_system(&mut self.moths, &self.room);
        let ghost kept = self.moths@;
        moth_movement_system(&mut self.moths, delta);
        proof {
            let speed = self.moth_config.moth_speed;
            assert forall|i: int| 0 <= i < kept.len() implies (#[trigger] self.moths@[i]).wf()
                && self.moths@[i].keeps_to(speed as int) && within_a_stride(
                self.moths@[i].position@,
                self.room,
                stride(speed, delta),
            ) by {
                assert(steered[i].keeps_to(speed as int));
                assert(cleared[i].velocity.0@.norm2() <= steered[i].velocity.0@.norm2());
                assert(kept[i].velocity.0@.norm2() <= cleared[i].velocity.0@.norm2());
                assert(moved(kept[i], self.moths@[i], delta));
                lemma_stays_in_range(kept[i], self.moths@[i], self.room, speed, delta);
            }
            assert(landing_stage(entered, landed, self.lanterns@, self.moth_config, delta));
            assert(idle_stage(landed, roused));
            assert(flocking_stage(
                roused,
                steered,
                self.lanterns@,
                self.moth_config,
                self.lantern_config,
            ));
            assert(collision_stage(
                steered,
                cleared,
                self.lanterns@,
                self.index@,
                self.lantern_config.physical_radius,
            ));
            assert(boundary_stage(cleared, kept, self.room));
            assert(movement_stage(kept, self.moths@, delta));
            assert(moths_ticked(
                entered,
                landed,
                roused,
                steered,
                cleared,
                kept,
                self.moths@,
                self.lanterns@,
                self.index@,
                self.moth_config,
                self.lantern_config,
                self.room,
                delta,
            ));
        }
    }
}

/// A moth inside the room and no faster than `speed` is still within the
/// coordinate range after it has moved for `delta` nanoseconds, if the
/// room leaves a stride of leeway.
pub proof fn lemma_stays_in_range(before: Moth, after: Moth, room: RoomConfig, speed: i64, delta: u64)
    requires
        before.wf(),
        room.wf(),
        contained(before.position@, room),
        before.keeps_to(speed as int),
        0 <= speed <= COORD_MAX,
        moved(before, after, delta),
        room.room_radius + stride(speed, delta) <= COORD_MAX,
        room.ceiling_height + stride(speed, delta) <= COORD_MAX,
        room.floor_height - stride(speed, delta) >= -COORD_MAX,
    ensures
        after.wf(),
        after.keeps_to(speed as int),
        within_a_stride(after.position@, room, stride(speed, delta)),
{
    let v = before.velocity.0@;
    let p = before.position@;
    lemma_within_by_norm(v, speed as int);
    lemma_within_by_norm(horizontal(p), room.room_radius as int);
    let nanos = NANOS_PER_SECOND as int;
    lemma_mul_div_bound(v.x, delta as int, nanos, speed as int, delta as int);
    lemma_mul_div_bound(v.y, delta as int, nanos, speed as int, delta as int);
    lemma_mul_div_bound(v.z, delta as int, nanos, speed as int, delta as int);
}

} // verus!
