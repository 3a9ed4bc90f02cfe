//! The power automaton of a lantern: dark until its rest is over and the
//! dice light it, lit and flickering until its burning time is over.

use crate::components::Lantern;
use crate::config::LanternConfig;
use crate::fixed::{lemma_mul_div_by_magnitude, mul_div, scale, ONE};
use crate::rng::{random_range, random_range_inclusive, random_ratio};
use crate::systems::moth::lanterns_wf;
use crate::timer::Timer;
use rand::rngs::StdRng;
use vstd::prelude::*;

verus! {

/// The most by which a flicker moves the intensity of a lantern off its
/// base: half of the base.
pub open spec fn flicker_amount(lantern: Lantern) -> int {
    lantern.base_intensity / 2
}

/// Whether `flicker` is a flicker that `lantern` can show: none, or an
/// offset within the flicker amount.
pub open spec fn is_flicker(lantern: Lantern, flicker: Option<i64>) -> bool {
    flicker matches Some(offset) ==> -flicker_amount(lantern) <= offset < flicker_amount(lantern)
}

/// The intensity at which a lantern is seen: its base, moved by the
/// flicker if there is one, and never below zero.
pub open spec fn seen_intensity(lantern: Lantern, flicker: Option<i64>) -> int {
    match flicker {
        Some(offset) => if lantern.base_intensity + offset < 0 {
            0
        } else {
            lantern.base_intensity + offset
        },
        None => lantern.base_intensity as int,
    }
}

/// The glow of the lantern's material at `intensity`: the configured
/// multiplier in proportion to the base intensity.
pub open spec fn glow(lantern: Lantern, intensity: int, config: LanternConfig) -> int {
    if lantern.base_intensity > 0 {
        mul_div(config.emissive_multiplier as int, intensity, lantern.base_intensity as int)
    } else {
        0
    }
}

/// A lit lantern after `delta` nanoseconds in which it showed `flicker`.
/// When its burning time is over it goes dark: its rest begins anew and
/// it emits nothing.
pub open spec fn burned(
    before: Lantern,
    delta: u64,
    flicker: Option<i64>,
    config: LanternConfig,
) -> Lantern {
    let on_timer = before.on_timer.ticked(delta);
    let intensity = seen_intensity(before, flicker);
    if on_timer.is_finished() {
        Lantern {
            is_on: false,
            on_timer,
            cooldown: Timer { duration: before.cooldown.duration, elapsed: 0 },
            radiance: 0,
            base_intensity: 0,
            intensity: 0,
            emissive_factor: 0,
            ..before
        }
    } else {
        Lantern {
            on_timer,
            intensity: intensity as i64,
            emissive_factor: glow(before, intensity, config) as i64,
            ..before
        }
    }
}

/// What lights a lantern: how long it will burn, how strongly it draws
/// moths, and how bright it is.
#[derive(Clone, Copy, Debug, PartialEq, Eq, Structural)]
pub struct Ignition {
    pub on_time: u64,
    pub radiance: i64,
    pub intensity: i64,
}

/// Whether `ignition` lies in the ranges that `config` draws from.
pub open spec fn is_ignition(ignition: Ignition, config: LanternConfig) -> bool {
    &&& config.on_time_min <= ignition.on_time <= config.on_time_max
    &&& config.radiance_min <= ignition.radiance <= config.radiance_max
    &&& config.intensity_min <= ignition.intensity < config.intensity_max
}

/// A dark lantern after `delta` nanoseconds. If its rest is over by then
/// and there is an `ignition`, it is lit by it; otherwise it stays dark.
pub open spec fn rested(
    before: Lantern,
    delta: u64,
    ignition: Option<Ignition>,
    config: LanternConfig,
) -> Lantern {
    let cooldown = before.cooldown.ticked(delta);
    match ignition {
        Some(ignition) if cooldown.is_finished() => Lantern {
            is_on: true,
            on_timer: Timer { duration: ignition.on_time, elapsed: 0 },
            cooldown,
            radiance: ignition.radiance,
            base_intensity: ignition.intensity,
            intensity: ignition.intensity,
            emissive_factor: config.emissive_multiplier,
            ..before
        },
        _ => Lantern { cooldown, ..before },
    }
}

/// The glow of a lantern is at most twice the multiplier as long as the
/// intensity is at most twice the base.
pub proof fn lemma_glow_within(multiplier: int, intensity: int, base: int)
    requires
        0 <= multiplier,
        0 < base,
        0 <= intensity <= 2 * base,
    ensures
        0 <= mul_div(multiplier, intensity, base) <= 2 * multiplier,
{
    lemma_mul_div_by_magnitude(multiplier, intensity, base);
    let p = multiplier * intensity;
    assert(0 <= p / base <= 2 * multiplier) by (nonlinear_arith)
        requires
            p == multiplier * intensity,
            0 <= multiplier,
            0 < base,
            0 <= intensity <= 2 * base,
    ;
}

/// One tick of a lit lantern that shows `flicker`: see [`burned`].
pub fn burn(lantern: &mut Lantern, delta: u64, flicker: Option<i64>, config: &LanternConfig)
    requires
        old(lantern).wf(),
        old(lantern).is_on,
        config.wf(),
        is_flicker(*old(lantern), flicker),
    ensures
        *final(lantern) == burned(*old(lantern), delta, flicker, *config),
        final(lantern).wf(),
{
    lantern.on_timer.tick(delta);
    let base = lantern.base_intensity;
    let intensity = match flicker {
        Some(offset) => if base + offset < 0 {
            0
        } else {
            base + offset
        },
        None => base,
    };
    lantern.intensity = intensity;
    lantern.emissive_factor = if base > 0 {
        proof {
            lemma_glow_within(config.emissive_multiplier as int, intensity as int, base as int);
        }
        scale(config.emissive_multiplier, intensity, base as u128)
    } else {
        0
    };
    if lantern.on_timer.finished() {
        lantern.is_on = false;
        lantern.cooldown.reset();
        lantern.radiance = 0;
        lantern.base_intensity = 0;
        lantern.intensity = 0;
        lantern.emissive_factor = 0;
    }
}

/// One tick of a lit lantern. With the flicker chance it flickers, its
/// intensity moved off the base by an offset drawn from the flicker
/// amount; a lantern too dim to have a flicker amount burns steadily. With
/// a flicker chance of one it flickers whenever it can, with a chance of
/// zero never.
pub fn handle_active_lantern(
    lantern: &mut Lantern,
    rng: &mut StdRng,
    delta: u64,
    config: &LanternConfig,
)
    requires
        old(lantern).wf(),
        old(lantern).is_on,
        config.wf(),
    ensures
        exists|flicker: Option<i64>|
            is_flicker(*old(lantern), flicker) && *final(lantern) == #[trigger] burned(
                *old(lantern),
                delta,
                flicker,
                *config,
            ),
        config.flicker_chance == 0 ==> *final(lantern) == burned(*old(lantern), delta, None, *config),
        config.flicker_chance == ONE && flicker_amount(*old(lantern)) > 0 ==> exists|offset: i64|
            is_flicker(*old(lantern), Some(offset)) && *final(lantern) == #[trigger] burned(
                *old(lantern),
                delta,
                Some(offset),
                *config,
            ),
        final(lantern).wf(),
{
    let amount = lantern.base_intensity / 2;
    let flicker = if random_ratio(rng, config.flicker_chance as u32, ONE as u32) && amount > 0 {
        Some(random_range(rng, -amount, amount))
    } else {
        None
    };
    burn(lantern, delta, flicker, config);
}

/// One tick of a dark lantern that `ignition`, if there is one, lights
/// once its rest is over: see [`rested`].
pub fn rest(lantern: &mut Lantern, delta: u64, ignition: Option<Ignition>, config: &LanternConfig)
    requires
        old(lantern).wf(),
        !old(lantern).is_on,
        config.wf(),
        ignition matches Some(ignition) ==> is_ignition(ignition, *config),
    ensures
        *final(lantern) == rested(*old(lantern), delta, ignition, *config),
        final(lantern).wf(),
{
    lantern.cooldown.tick(delta);
    if lantern.cooldown.finished() {
        match ignition {
            Some(ignition) => {
                lantern.is_on = true;
                lantern.on_timer = Timer::new(ignition.on_time);
                lantern.radiance = ignition.radiance;
                lantern.base_intensity = ignition.intensity;
                lantern.intensity = ignition.intensity;
                lantern.emissive_factor = config.emissive_multiplier;
            },
            None => {},
        }
    }
}

/// Draws what lights a lantern: its burning time, its radiance and its
/// intensity, each from its configured range.
pub fn draw_ignition(rng: &mut StdRng, config: &LanternConfig) -> (ignition: Ignition)
    requires
        config.wf(),
    ensures
        is_ignition(ignition, *config),
{
    let on_time = random_range_inclusive(rng, config.on_time_min as i64, config.on_time_max as i64);
    let radiance = random_range_inclusive(rng, config.radiance_min, config.radiance_max);
    let intensity = random_range(rng, config.intensity_min, config.intensity_max);
    Ignition { on_time: on_time as u64, radiance, intensity }
}

/// One tick of a dark lantern. Once its rest is over it lights with the
/// configured chance, on every tick anew: for a time, with a radiance and at
/// an intensity drawn from their configured ranges. Whether its neighbours
/// are lit is of no account.
pub fn handle_inactive_lantern(
    lantern: &mut Lantern,
    rng: &mut StdRng,
    delta: u64,
    config: &LanternConfig,
)
    requires
        old(lantern).wf(),
        !old(lantern).is_on,
        config.wf(),
    ensures
        exists|ignition: Option<Ignition>|
            (ignition matches Some(ignition) ==> is_ignition(ignition, *config)) && *final(lantern)
                == #[trigger] rested(*old(lantern), delta, ignition, *config),
        config.on_chance == ONE && old(lantern).cooldown.ticked(delta).is_finished()
            ==> final(lantern).is_on,
        config.on_chance == 0 ==> *final(lantern) == rested(*old(lantern), delta, None, *config),
        final(lantern).wf(),
{
    let mut cooldown = lantern.cooldown;
    cooldown.tick(delta);
    let ignition = if cooldown.finished() && random_ratio(rng, config.on_chance as u32, ONE as u32) {
        Some(draw_ignition(rng, config))
    } else {
        None
    };
    rest(lantern, delta, ignition, config);
}

/// What one tick of the power automaton may make of a lantern.
pub open spec fn power_outcome(
    before: Lantern,
    after: Lantern,
    delta: u64,
    config: LanternConfig,
) -> bool {
    if before.is_on {
        &&& exists|flicker: Option<i64>|
            is_flicker(before, flicker) && after == #[trigger] burned(before, delta, flicker, config)
        &&& config.flicker_chance == 0 ==> after == burned(before, delta, None, config)
        &&& config.flicker_chance == ONE && flicker_amount(before) > 0 ==> exists|offset: i64|
            is_flicker(before, Some(offset)) && after == #[trigger] burned(
                before,
                delta,
                Some(offset),
                config,
            )
    } else {
        &&& exists|ignition: Option<Ignition>|
            (ignition matches Some(ignition) ==> is_ignition(ignition, config)) && after
                == #[trigger] rested(before, delta, ignition, config)
        &&& config.on_chance == ONE && before.cooldown.ticked(delta).is_finished() ==> after.is_on
        &&& config.on_chance == 0 ==> after == rested(before, delta, None, config)
    }
}

/// One tick of the power automaton for every lantern. No lantern looks at
/// another.
pub fn lantern_power_system(
    lanterns: &mut Vec<Lantern>,
    delta: u64,
    rng: &mut StdRng,
    config: &LanternConfig,
)
    requires
        lanterns_wf(old(lanterns)@),
        config.wf(),
    ensures
        final(lanterns)@.len() == old(lanterns)@.len(),
        forall|i: int|
            0 <= i < old(lanterns)@.len() ==> power_outcome(
                old(lanterns)@[i],
                #[trigger] final(lanterns)@[i],
                delta,
                *config,
            ),
        lanterns_wf(final(lanterns)@),
{
    let ghost before = lanterns@;
    let mut i: usize = 0;
    while i < lanterns.len()
        invariant
            0 <= i <= lanterns.len(),
            lanterns@.len() == before.len(),
            config.wf(),
            lanterns_wf(before),
            forall|j: int| i <= j < before.len() ==> lanterns@[j] == before[j],
            forall|j: int|
                0 <= j < i ==> power_outcome(before[j], #[trigger] lanterns@[j], delta, *config),
            forall|j: int| 0 <= j < i ==> (#[trigger] lanterns@[j]).wf(),
        decreases lanterns.len() - i,
    {
        let mut lantern = lanterns[i];
        assert(lantern == before[i as int]);
        assert(lantern.wf());
        if lantern.is_on {
            handle_active_lantern(&mut lantern, rng, delta, config);
        } else {
            handle_inactive_lantern(&mut lantern, rng, delta, config);
        }
        lanterns.set(i, lantern);
        i = i + 1;
    }
}

} // verus!
