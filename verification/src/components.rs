//! The records of the simulation: moths and lanterns.

use crate::config::COORD_MAX;
use crate::resources::{cell_of, Vec2};
use crate::timer::Timer;
use crate::vector::{lemma_norm2_within, lemma_within_by_norm, Vec3, Vector};
use vstd::prelude::*;

verus! {

/// The velocity of a moth, in units per second.
#[derive(Clone, Copy, Debug, PartialEq, Eq, Structural)]
pub struct Velocity(pub Vec3);

/// The countdown of a settled moth to its next take-off.
#[derive(Clone, Copy, Debug, PartialEq, Eq, Structural)]
pub struct LandedTimer(pub Timer);

/// A moth: flying, or settled while `landed` holds a timer.
#[derive(Clone, Copy, Debug, PartialEq, Eq)]
pub struct Moth {
    pub position: Vec3,
    /// The direction in which the moth last moved, at length `ONE`; zero
    /// until it has moved.
    pub facing: Vec3,
    pub velocity: Velocity,
    pub landed: Option<LandedTimer>,
}

impl Moth {
    pub open spec fn is_flying(self) -> bool {
        self.landed is None
    }

    /// The position lies within `reach` of the origin along every axis,
    /// the speed within the coordinate range, and a settled moth does not
    /// move.
    pub open spec fn wf_within(self, reach: int) -> bool {
        &&& self.position@.within(reach)
        &&& self.velocity.0@.within(COORD_MAX as int)
        &&& self.velocity.0@.norm2() <= COORD_MAX * COORD_MAX
        &&& self.landed is Some ==> self.velocity.0@ == Vector::zero()
    }

    /// Position and speed lie within the coordinate range, and a settled
    /// moth does not move.
    pub open spec fn wf(self) -> bool {
        self.wf_within(COORD_MAX as int)
    }

    /// The moth is no faster than `speed`.
    pub open spec fn keeps_to(self, speed: int) -> bool {
        self.velocity.0@.norm2() <= speed * speed
    }

    /// Whether the moth is well formed: to be asked of a moth that was not
    /// made by this crate.
    pub fn is_valid(&self) -> (ok: bool)
        ensures
            ok == self.wf(),
    {
        if !self.position.is_within(COORD_MAX) || !self.velocity.0.is_within(COORD_MAX) {
            return false;
        }
        if self.landed.is_some() && !self.velocity.0.is_zero() {
            return false;
        }
        proof {
            lemma_norm2_within(self.velocity.0@, COORD_MAX as int);
        }
        self.velocity.0.norm2() <= (COORD_MAX as u128) * (COORD_MAX as u128)
    }

    /// A flying moth at `position` with the given velocity.
    pub fn new(position: Vec3, velocity: Velocity) -> (moth: Moth)
        ensures
            moth == (Moth { position, facing: Vec3 { x: 0, y: 0, z: 0 }, velocity, landed: None }),
    {
        Moth { position, facing: Vec3::zero(), velocity, landed: None }
    }
}

/// A velocity no faster than a speed within the coordinate range lies
/// within that range.
pub proof fn lemma_speed_in_range(velocity: Vector, speed: int)
    requires
        0 <= speed <= COORD_MAX,
        velocity.norm2() <= speed * speed,
    ensures
        velocity.norm2() <= COORD_MAX * COORD_MAX,
        velocity.within(COORD_MAX as int),
{
    assert(speed * speed <= COORD_MAX * COORD_MAX) by (nonlinear_arith)
        requires
            0 <= speed <= COORD_MAX,
    ;
    lemma_within_by_norm(velocity, COORD_MAX as int);
}

/// A lantern: a fixed light that switches itself on and off.
#[derive(Clone, Copy, Debug, PartialEq, Eq)]
pub struct Lantern {
    pub position: Vec3,
    /// The grid cell that holds the lantern.
    pub grid_pos: (i32, i32),
    pub is_on: bool,
    /// Counts down while the lantern is lit.
    pub on_timer: Timer,
    /// Counts down while the lantern is dark.
    pub cooldown: Timer,
    /// The strength with which the lantern draws moths.
    pub radiance: i64,
    /// The intensity of the light when it does not flicker.
    pub base_intensity: i64,
    /// The intensity of the light as it is seen now.
    pub intensity: i64,
    /// The factor by which the lantern's material glows.
    pub emissive_factor: i64,
}

impl Lantern {
    /// The lantern's place in the plane over which the grid is laid: its
    /// `x` and its `y`.
    pub open spec fn footprint(self) -> Vec2 {
        Vec2 { x: self.position.x, y: self.position.y }
    }

    /// A dark lantern emits nothing.
    pub open spec fn dark_when_off(self) -> bool {
        !self.is_on ==> self.radiance == 0 && self.base_intensity == 0 && self.intensity == 0
            && self.emissive_factor == 0
    }

    /// The lantern stands within the coordinate range, in the grid cell it
    /// names; its light is not negative, and none when it is off.
    pub open spec fn wf(self) -> bool {
        &&& self.position@.within(COORD_MAX as int)
        &&& (self.grid_pos.0 as int, self.grid_pos.1 as int) == cell_of(self.footprint())
        &&& self.dark_when_off()
        &&& 0 <= self.radiance <= COORD_MAX
        &&& 0 <= self.base_intensity <= COORD_MAX
        &&& 0 <= self.intensity <= 2 * COORD_MAX
        &&& 0 <= self.emissive_factor <= 2 * COORD_MAX
    }

    /// Whether the lantern is well formed: to be asked of a lantern that
    /// was not made by this crate.
    pub fn is_valid(&self) -> (ok: bool)
        ensures
            ok == self.wf(),
    {
        if !self.position.is_within(COORD_MAX) {
            return false;
        }
        let cell = Vec2::new(self.position.x, self.position.y).cell();
        let dark = self.radiance == 0 && self.base_intensity == 0 && self.intensity == 0
            && self.emissive_factor == 0;
        cell.0 == self.grid_pos.0 && cell.1 == self.grid_pos.1 && (self.is_on || dark) && 0
            <= self.radiance && self.radiance <= COORD_MAX && 0 <= self.base_intensity
            && self.base_intensity <= COORD_MAX && 0 <= self.intensity && self.intensity <= 2
            * COORD_MAX && 0 <= self.emissive_factor && self.emissive_factor <= 2 * COORD_MAX
    }

    /// A dark lantern at `position` whose rest of `cooldown` nanoseconds is
    /// over, so that it may light at once.
    pub fn new(position: Vec3, cooldown: u64) -> (lantern: Lantern)
        requires
            position@.within(COORD_MAX as int),
        ensures
            lantern.wf(),
            lantern.position == position,
            !lantern.is_on,
            lantern.on_timer == (Timer { duration: 0, elapsed: 0 }),
            lantern.cooldown == (Timer { duration: cooldown, elapsed: cooldown }),
    {
        let grid_pos = Vec2::new(position.x, position.y).cell();
        Lantern {
            position,
            grid_pos,
            is_on: false,
            on_timer: Timer::new(0),
            cooldown: Timer { duration: cooldown, elapsed: cooldown },
            radiance: 0,
            base_intensity: 0,
            intensity: 0,
            emissive_factor: 0,
        }
    }
}

impl Default for Lantern {
    /// A dark lantern at the origin with ten seconds of rest ahead and one
    /// second to burn.
    fn default() -> (lantern: Lantern)
        ensures
            lantern.wf(),
            lantern == (Lantern {
                position: Vec3 { x: 0, y: 0, z: 0 },
                grid_pos: (0, 0),
                is_on: false,
                on_timer: Timer { duration: 1_000_000_000, elapsed: 0 },
                cooldown: Timer { duration: 10_000_000_000, elapsed: 0 },
                radiance: 0,
                base_intensity: 0,
                intensity: 0,
                emissive_factor: 0,
            }),
    {
        Lantern {
            position: Vec3::zero(),
            grid_pos: (0, 0),
            is_on: false,
            on_timer: Timer::from_seconds(1),
            cooldown: Timer::from_seconds(10),
            radiance: 0,
            base_intensity: 0,
            intensity: 0,
            emissive_factor: 0,
        }
    }
}

} // verus!
