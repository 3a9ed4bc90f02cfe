//! Tunable parameters of the simulation, and the ranges in which the
//! fixed-point arithmetic is exact.

use crate::fixed::ONE;
use vstd::prelude::*;

verus! {

/// Largest magnitude of a coordinate, a radius or a speed: a million units.
pub const COORD_MAX: i64 = 1_000_000_000_000;

/// Largest steering weight: sixteen.
pub const WEIGHT_MAX: i64 = 16_000_000;

/// Largest number of moths whose forces are summed for one moth.
pub const MAX_FLOCK: usize = 65_536;

/// Longest tick that the systems accept: a thousand seconds, in nanoseconds.
pub const TICK_MAX: u64 = 1_000_000_000_000;

/// `0 <= value <= max`.
pub open spec fn in_range(value: i64, max: i64) -> bool {
    0 <= value <= max
}

/// How moths fly, flock and land.
#[derive(Clone, Copy, Debug, PartialEq, Eq, Structural)]
pub struct MothConfig {
    pub moth_count: usize,
    /// The speed of every flying moth.
    pub moth_speed: i64,
    /// Distance below which another moth is a flockmate.
    pub perception_radius: i64,
    pub separation_weight: i64,
    pub alignment_weight: i64,
    pub cohesion_weight: i64,
    /// Weight of the lantern's pull while flocking.
    pub attraction_weight: i64,
    /// Distance up to which a lit lantern is seen.
    pub view_radius: i64,
    /// Weight of the lantern's pull while wandering.
    pub attraction_factor: i64,
    /// Length of the random push added on every tick of wandering.
    pub wander_factor: i64,
    /// Distance below which a moth may settle on a lantern.
    pub landing_distance: i64,
    /// Probability, per tick and in millionths, that a moth within landing
    /// distance settles.
    pub landing_chance: i64,
    /// Nanoseconds that a moth stays settled.
    pub landed_duration: u64,
}

impl MothConfig {
    /// Nothing is negative, the chance is a probability, and every value lies
    /// in the range in which the arithmetic cannot overflow.
    pub open spec fn wf(self) -> bool {
        &&& self.moth_count <= MAX_FLOCK
        &&& in_range(self.moth_speed, COORD_MAX)
        &&& in_range(self.perception_radius, COORD_MAX)
        &&& in_range(self.separation_weight, WEIGHT_MAX)
        &&& in_range(self.alignment_weight, WEIGHT_MAX)
        &&& in_range(self.cohesion_weight, WEIGHT_MAX)
        &&& in_range(self.attraction_weight, WEIGHT_MAX)
        &&& in_range(self.view_radius, COORD_MAX)
        &&& in_range(self.attraction_factor, WEIGHT_MAX)
        &&& in_range(self.wander_factor, WEIGHT_MAX)
        &&& in_range(self.landing_distance, COORD_MAX)
        &&& in_range(self.landing_chance, ONE)
    }

    /// Whether the configuration can be used: to be asked once, when it is built.
    pub fn is_valid(&self) -> (ok: bool)
        ensures
            ok == self.wf(),
    {
        self.moth_count <= MAX_FLOCK && within(self.moth_speed, COORD_MAX) && within(
            self.perception_radius,
            COORD_MAX,
        ) && within(self.separation_weight, WEIGHT_MAX) && within(self.alignment_weight, WEIGHT_MAX)
            && within(self.cohesion_weight, WEIGHT_MAX) && within(
            self.attraction_weight,
            WEIGHT_MAX,
        ) && within(self.view_radius, COORD_MAX) && within(self.attraction_factor, WEIGHT_MAX)
            && within(self.wander_factor, WEIGHT_MAX) && within(self.landing_distance, COORD_MAX)
            && within(self.landing_chance, ONE)
    }
}

impl Default for MothConfig {
    fn default() -> (config: MothConfig)
        ensures
            config.wf(),
            config == (MothConfig {
                moth_count: 150,
                moth_speed: 1_000_000,
                perception_radius: 1_000_000,
                separation_weight: 300_000,
                alignment_weight: 150_000,
                cohesion_weight: 100_000,
                attraction_weight: 50_000,
                view_radius: 15_000_000,
                attraction_factor: 800_000,
                wander_factor: 100_000,
                landing_distance: 600_000,
                landing_chance: 50_000,
                landed_duration: 2_500_000_000,
            }),
    {
        MothConfig {
            moth_count: 150,
            moth_speed: 1_000_000,
            perception_radius: 1_000_000,
            separation_weight: 300_000,
            alignment_weight: 150_000,
            cohesion_weight: 100_000,
            attraction_weight: 50_000,
            view_radius: 15_000_000,
            attraction_factor: 800_000,
            wander_factor: 100_000,
            landing_distance: 600_000,
            landing_chance: 50_000,
            landed_duration: 2_500_000_000,
        }
    }
}

/// How lanterns switch, flicker and keep moths away.
#[derive(Clone, Copy, Debug, PartialEq, Eq, Structural)]
pub struct LanternConfig {
    /// Radius of the solid body that no moth may enter.
    pub physical_radius: i64,
    /// Distance below which a moth is pushed away instead of drawn in.
    pub personal_space: i64,
    /// Probability, per tick and in millionths, that a rested lantern lights.
    pub on_chance: i64,
    /// Probability, per tick and in millionths, that a lit lantern flickers.
    pub flicker_chance: i64,
    /// Emissive factor of the lantern's material at its base intensity.
    pub emissive_multiplier: i64,
    /// Nanoseconds of rest after a lantern went out.
    pub cooldown: u64,
    /// Shortest and longest burning time, in nanoseconds.
    pub on_time_min: u64,
    pub on_time_max: u64,
    /// Least and greatest radiance of a lit lantern.
    pub radiance_min: i64,
    pub radiance_max: i64,
    /// Least base intensity of a lit lantern, and the bound below which
    /// every base intensity lies.
    pub intensity_min: i64,
    pub intensity_max: i64,
}

impl LanternConfig {
    /// Nothing is negative, the chances are probabilities, the ranges to draw
    /// from are not empty, and every value lies in the range in which the
    /// arithmetic cannot overflow.
    pub open spec fn wf(self) -> bool {
        &&& in_range(self.physical_radius, COORD_MAX)
        &&& in_range(self.personal_space, COORD_MAX)
        &&& in_range(self.on_chance, ONE)
        &&& in_range(self.flicker_chance, ONE)
        &&& in_range(self.emissive_multiplier, COORD_MAX)
        &&& self.on_time_min <= self.on_time_max <= i64::MAX
        &&& 0 <= self.radiance_min <= self.radiance_max <= COORD_MAX
        &&& 0 <= self.intensity_min < self.intensity_max <= COORD_MAX
    }

    /// Whether the configuration can be used: to be asked once, when it is built.
    pub fn is_valid(&self) -> (ok: bool)
        ensures
            ok == self.wf(),
    {
        within(self.physical_radius, COORD_MAX) && within(self.personal_space, COORD_MAX) && within(
            self.on_chance,
            ONE,
        ) && within(self.flicker_chance, ONE) && within(self.emissive_multiplier, COORD_MAX)
            && self.on_time_min <= self.on_time_max && self.on_time_max <= 9_223_372_036_854_775_807
            && 0 <= self.radiance_min && self.radiance_min <= self.radiance_max
            && self.radiance_max <= COORD_MAX && 0 <= self.intensity_min && self.intensity_min
            < self.intensity_max && self.intensity_max <= COORD_MAX
    }
}

impl Default for LanternConfig {
    fn default() -> (config: LanternConfig)
        ensures
            config.wf(),
            config == (LanternConfig {
                physical_radius: 1_000_000,
                personal_space: 1_000_000,
                on_chance: 10_000,
                flicker_chance: 10_000,
                emissive_multiplier: 100_000_000,
                cooldown: 10_000_000_000,
                on_time_min: 5_000_000_000,
                on_time_max: 20_000_000_000,
                radiance_min: 5_000_000,
                radiance_max: 15_000_000,
                intensity_min: 2_000_000_000,
                intensity_max: 8_000_000_000,
            }),
    {
        LanternConfig {
            physical_radius: 1_000_000,
            personal_space: 1_000_000,
            on_chance: 10_000,
            flicker_chance: 10_000,
            emissive_multiplier: 100_000_000,
            cooldown: 10_000_000_000,
            on_time_min: 5_000_000_000,
            on_time_max: 20_000_000_000,
            radiance_min: 5_000_000,
            radiance_max: 15_000_000,
            intensity_min: 2_000_000_000,
            intensity_max: 8_000_000_000,
        }
    }
}

/// The volume in which moths fly: an upright cylinder around the vertical
/// axis through the origin.
#[derive(Clone, Copy, Debug, PartialEq, Eq, Structural)]
pub struct RoomConfig {
    pub room_radius: i64,
    pub floor_height: i64,
    pub ceiling_height: i64,
}

impl RoomConfig {
    /// The radius is not negative, the floor lies below the ceiling, and
    /// both lie within the coordinate range.
    pub open spec fn wf(self) -> bool {
        &&& in_range(self.room_radius, COORD_MAX)
        &&& -COORD_MAX <= self.floor_height <= self.ceiling_height <= COORD_MAX
    }

    /// Whether the configuration can be used: to be asked once, when it is built.
    pub fn is_valid(&self) -> (ok: bool)
        ensures
            ok == self.wf(),
    {
        within(self.room_radius, COORD_MAX) && -COORD_MAX <= self.floor_height && self.floor_height
            <= self.ceiling_height && self.ceiling_height <= COORD_MAX
    }
}

impl Default for RoomConfig {
    fn default() -> (config: RoomConfig)
        ensures
            config.wf(),
            config == (RoomConfig {
                room_radius: 10_000_000,
                floor_height: 0,
                ceiling_height: 10_000_000,
            }),
    {
        RoomConfig { room_radius: 10_000_000, floor_height: 0, ceiling_height: 10_000_000 }
    }
}

/// `0 <= value <= max`.
fn within(value: i64, max: i64) -> (ok: bool)
    ensures
        ok == in_range(value, max),
{
    0 <= value && value <= max
}

} // verus!
