use phototaxis::components::Lantern;
use phototaxis::config::LanternConfig;
use phototaxis::fixed::ONE;
use phototaxis::systems::lantern::{
    burn, draw_ignition, handle_active_lantern, handle_inactive_lantern, lantern_power_system,
    rest, Ignition,
};
use phototaxis::timer::Timer;
use phototaxis::vector::Vec3;
use rand::rngs::StdRng;
use rand::SeedableRng;

const SECOND: u64 = 1_000_000_000;

fn rested_lantern() -> Lantern {
    Lantern::new(Vec3::from_units(0, 5, 0), 10 * SECOND)
}

fn burning_lantern(on_time: u64) -> Lantern {
    let mut lantern = rested_lantern();
    lantern.is_on = true;
    lantern.on_timer = Timer::new(on_time);
    lantern.radiance = 7 * ONE;
    lantern.base_intensity = 4_000 * ONE;
    lantern.intensity = 4_000 * ONE;
    lantern.emissive_factor = 100 * ONE;
    lantern
}

#[test]
fn a_rested_lantern_with_a_certain_chance_lights_within_one_tick() {
    let config = LanternConfig { on_chance: ONE, ..LanternConfig::default() };
    let mut rng = StdRng::seed_from_u64(3);
    let mut lantern = rested_lantern();

    handle_inactive_lantern(&mut lantern, &mut rng, SECOND / 60, &config);

    assert!(lantern.is_on);
    assert!(config.radiance_min <= lantern.radiance && lantern.radiance <= config.radiance_max);
    assert!(
        config.intensity_min <= lantern.base_intensity
            && lantern.base_intensity < config.intensity_max
    );
    assert_eq!(lantern.intensity, lantern.base_intensity);
    assert_eq!(lantern.emissive_factor, config.emissive_multiplier);
    assert_eq!(lantern.on_timer.elapsed, 0);
    assert!(
        config.on_time_min <= lantern.on_timer.duration
            && lantern.on_timer.duration <= config.on_time_max
    );
}

#[test]
fn a_lantern_without_a_chance_stays_dark() {
    let config = LanternConfig { on_chance: 0, ..LanternConfig::default() };
    let mut rng = StdRng::seed_from_u64(4);
    let mut lantern = rested_lantern();
    for _ in 0..100 {
        handle_inactive_lantern(&mut lantern, &mut rng, SECOND, &config);
    }
    assert!(!lantern.is_on);
    assert_eq!(lantern.radiance, 0);
    assert_eq!(lantern.base_intensity, 0);
}

#[test]
fn a_lantern_still_resting_does_not_light() {
    let config = LanternConfig { on_chance: ONE, ..LanternConfig::default() };
    let mut rng = StdRng::seed_from_u64(5);
    let mut lantern = Lantern::default();

    handle_inactive_lantern(&mut lantern, &mut rng, 9 * SECOND, &config);
    assert!(!lantern.is_on);
    assert_eq!(lantern.cooldown, Timer { duration: 10 * SECOND, elapsed: 9 * SECOND });

    handle_inactive_lantern(&mut lantern, &mut rng, SECOND, &config);
    assert!(lantern.is_on);
}

#[test]
fn rest_lights_with_the_given_ignition() {
    let config = LanternConfig::default();
    let mut lantern = rested_lantern();
    let ignition = Ignition { on_time: 6 * SECOND, radiance: 9 * ONE, intensity: 3_000 * ONE };

    rest(&mut lantern, SECOND, Some(ignition), &config);

    assert!(lantern.is_on);
    assert_eq!(lantern.on_timer, Timer { duration: 6 * SECOND, elapsed: 0 });
    assert_eq!(lantern.radiance, 9 * ONE);
    assert_eq!(lantern.base_intensity, 3_000 * ONE);
    assert_eq!(lantern.intensity, 3_000 * ONE);
    assert_eq!(lantern.emissive_factor, 100 * ONE);
    assert_eq!(lantern.position, Vec3::from_units(0, 5, 0));
}

#[test]
fn rest_without_ignition_only_ticks_the_cooldown() {
    let config = LanternConfig::default();
    let mut lantern = Lantern::default();
    let before = lantern;

    rest(&mut lantern, 3 * SECOND, None, &config);

    assert_eq!(lantern.cooldown, Timer { duration: 10 * SECOND, elapsed: 3 * SECOND });
    assert_eq!(Lantern { cooldown: before.cooldown, ..lantern }, before);
}

#[test]
fn a_steady_lantern_shines_at_its_base_intensity() {
    let config = LanternConfig::default();
    let mut lantern = burning_lantern(5 * SECOND);

    burn(&mut lantern, SECOND, None, &config);

    assert!(lantern.is_on);
    assert_eq!(lantern.on_timer, Timer { duration: 5 * SECOND, elapsed: SECOND });
    assert_eq!(lantern.intensity, 4_000 * ONE);
    assert_eq!(lantern.emissive_factor, 100 * ONE);
    assert_eq!(lantern.radiance, 7 * ONE);
}

#[test]
fn a_flicker_moves_intensity_and_glow_in_proportion() {
    let config = LanternConfig::default();
    let mut lantern = burning_lantern(5 * SECOND);

    burn(&mut lantern, SECOND, Some(-1_000 * ONE), &config);

    assert_eq!(lantern.intensity, 3_000 * ONE);
    assert_eq!(lantern.emissive_factor, 75 * ONE);
    assert_eq!(lantern.base_intensity, 4_000 * ONE);
}

#[test]
fn a_lantern_goes_dark_when_its_time_is_over() {
    let config = LanternConfig::default();
    let mut lantern = burning_lantern(5 * SECOND);
    lantern.cooldown = Timer { duration: 10 * SECOND, elapsed: 10 * SECOND };

    burn(&mut lantern, 5 * SECOND, Some(500 * ONE), &config);

    assert!(!lantern.is_on);
    assert_eq!(lantern.radiance, 0);
    assert_eq!(lantern.base_intensity, 0);
    assert_eq!(lantern.intensity, 0);
    assert_eq!(lantern.emissive_factor, 0);
    assert_eq!(lantern.cooldown, Timer { duration: 10 * SECOND, elapsed: 0 });
    assert_eq!(lantern.on_timer, Timer { duration: 5 * SECOND, elapsed: 5 * SECOND });
}

#[test]
fn a_lantern_that_always_flickers_stays_within_half_its_base() {
    let config = LanternConfig { flicker_chance: ONE, ..LanternConfig::default() };
    let mut rng = StdRng::seed_from_u64(6);
    let mut lantern = burning_lantern(1_000 * SECOND);
    let mut moved = false;
    for _ in 0..50 {
        handle_active_lantern(&mut lantern, &mut rng, SECOND / 60, &config);
        assert!(lantern.intensity >= 2_000 * ONE);
        assert!(lantern.intensity < 6_000 * ONE);
        assert_eq!(lantern.base_intensity, 4_000 * ONE);
        let glow = (config.emissive_multiplier as i128 * lantern.intensity as i128
            / lantern.base_intensity as i128) as i64;
        assert_eq!(lantern.emissive_factor, glow);
        moved = moved || lantern.intensity != lantern.base_intensity;
    }
    assert!(moved);
}

#[test]
fn a_lantern_that_never_flickers_is_steady() {
    let config = LanternConfig { flicker_chance: 0, ..LanternConfig::default() };
    let mut rng = StdRng::seed_from_u64(7);
    let mut lantern = burning_lantern(1_000 * SECOND);
    for _ in 0..50 {
        handle_active_lantern(&mut lantern, &mut rng, SECOND / 60, &config);
        assert_eq!(lantern.intensity, lantern.base_intensity);
        assert_eq!(lantern.emissive_factor, config.emissive_multiplier);
    }
}

#[test]
fn an_ignition_is_drawn_from_the_configured_ranges() {
    let config = LanternConfig::default();
    let mut rng = StdRng::seed_from_u64(8);
    let mut varied = false;
    let first = draw_ignition(&mut rng, &config);
    for _ in 0..200 {
        let ignition = draw_ignition(&mut rng, &config);
        assert!(config.on_time_min <= ignition.on_time && ignition.on_time <= config.on_time_max);
        assert!(config.radiance_min <= ignition.radiance);
        assert!(ignition.radiance <= config.radiance_max);
        assert!(config.intensity_min <= ignition.intensity);
        assert!(ignition.intensity < config.intensity_max);
        varied = varied || ignition != first;
    }
    assert!(varied);
}

#[test]
fn dark_lanterns_emit_nothing_however_long_the_power_system_runs() {
    let config = LanternConfig {
        on_chance: 500_000,
        flicker_chance: 500_000,
        cooldown: SECOND,
        on_time_min: SECOND,
        on_time_max: 3 * SECOND,
        ..LanternConfig::default()
    };
    let mut rng = StdRng::seed_from_u64(9);
    let mut lanterns: Vec<Lantern> =
        (0..8).map(|i| Lantern::new(Vec3::from_units(i, 5, 0), SECOND)).collect();
    let mut seen_on = false;
    let mut seen_off_again = false;
    for _ in 0..600 {
        lantern_power_system(&mut lanterns, SECOND / 10, &mut rng, &config);
        for lantern in &lanterns {
            if lantern.is_on {
                seen_on = true;
                assert!(lantern.base_intensity >= config.intensity_min);
                assert!(lantern.radiance >= config.radiance_min);
            } else {
                seen_off_again = seen_off_again || seen_on;
                assert_eq!(lantern.radiance, 0);
                assert_eq!(lantern.base_intensity, 0);
                assert_eq!(lantern.intensity, 0);
                assert_eq!(lantern.emissive_factor, 0);
            }
        }
    }
    assert!(seen_on);
    assert!(seen_off_again);
}

#[test]
fn the_default_lantern_is_dark() {
    let lantern = Lantern::default();
    assert!(!lantern.is_on);
    assert_eq!(lantern.radiance, 0);
    assert_eq!(lantern.base_intensity, 0);
    assert_eq!(lantern.grid_pos, (0, 0));
    assert_eq!(lantern.on_timer, Timer::from_seconds(1));
    assert_eq!(lantern.cooldown, Timer::from_seconds(10));
}

#[test]
fn a_lantern_names_the_cell_it_stands_in() {
    let lantern = Lantern::new(Vec3::from_units(-1, 31, 100), 0);
    assert_eq!(lantern.grid_pos, (-1, 2));
    assert!(lantern.cooldown.finished());
}
