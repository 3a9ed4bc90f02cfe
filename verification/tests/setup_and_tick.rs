use phototaxis::components::{LandedTimer, Lantern, Moth, Velocity};
use phototaxis::config::{LanternConfig, MothConfig, RoomConfig, COORD_MAX, WEIGHT_MAX};
use phototaxis::fixed::ONE;
use phototaxis::resources::Vec2;
use phototaxis::setup::{setup_lanterns, setup_moths};
use phototaxis::simulation::Simulation;
use phototaxis::timer::Timer;
use phototaxis::vector::Vec3;
use rand::rngs::StdRng;
use rand::SeedableRng;

const SECOND: u64 = 1_000_000_000;

#[test]
fn the_default_configurations_are_valid() {
    assert!(MothConfig::default().is_valid());
    assert!(LanternConfig::default().is_valid());
    assert!(RoomConfig::default().is_valid());
    let config = MothConfig::default();
    assert_eq!(config.moth_count, 150);
    assert_eq!(config.moth_speed, ONE);
    assert_eq!(config.separation_weight, 300_000);
    assert_eq!(config.landing_chance, 50_000);
    assert_eq!(config.landed_duration, 2_500_000_000);
    assert_eq!(LanternConfig::default().physical_radius, ONE);
    assert_eq!(LanternConfig::default().emissive_multiplier, 100 * ONE);
}

#[test]
fn negative_or_oversized_values_are_rejected() {
    let good = MothConfig::default();
    assert!(!MothConfig { moth_speed: -1, ..good }.is_valid());
    assert!(!MothConfig { perception_radius: COORD_MAX + 1, ..good }.is_valid());
    assert!(!MothConfig { separation_weight: -1, ..good }.is_valid());
    assert!(!MothConfig { cohesion_weight: WEIGHT_MAX + 1, ..good }.is_valid());
    assert!(!MothConfig { landing_chance: ONE + 1, ..good }.is_valid());
    assert!(!MothConfig { landing_chance: -1, ..good }.is_valid());
    assert!(!MothConfig { moth_count: 65_537, ..good }.is_valid());
    assert!(MothConfig { moth_count: 65_536, landing_chance: ONE, ..good }.is_valid());

    let good = LanternConfig::default();
    assert!(!LanternConfig { physical_radius: -1, ..good }.is_valid());
    assert!(!LanternConfig { on_chance: ONE + 1, ..good }.is_valid());
    assert!(!LanternConfig { radiance_min: 16 * ONE, ..good }.is_valid());
    assert!(!LanternConfig { intensity_min: 8_000 * ONE, ..good }.is_valid());
    assert!(!LanternConfig { on_time_min: 21 * SECOND, ..good }.is_valid());
    assert!(LanternConfig { radiance_min: 15 * ONE, ..good }.is_valid());

    let good = RoomConfig::default();
    assert!(!RoomConfig { room_radius: -1, ..good }.is_valid());
    assert!(!RoomConfig { floor_height: 11 * ONE, ..good }.is_valid());
    assert!(RoomConfig { floor_height: 10 * ONE, ..good }.is_valid());
}

#[test]
fn lanterns_hang_in_a_centred_grid_below_the_ceiling() {
    let mut rng = StdRng::seed_from_u64(30);
    let room = RoomConfig::default();
    let config = LanternConfig::default();

    let lanterns = setup_lanterns(&room, &config, &mut rng);

    assert_eq!(lanterns.len(), 16);
    let rows = [-7_500_000, -2_500_000, 2_500_000, 7_500_000];
    for (k, lantern) in lanterns.iter().enumerate() {
        assert_eq!(lantern.position.x, rows[k / 4]);
        assert_eq!(lantern.position.z, rows[k % 4]);
        assert!(5 * ONE < lantern.position.y && lantern.position.y <= 9 * ONE);
        assert!(!lantern.is_on);
        assert_eq!(lantern.radiance, 0);
        assert_eq!(lantern.base_intensity, 0);
        assert_eq!(lantern.cooldown, Timer { duration: 10 * SECOND, elapsed: 10 * SECOND });
        assert_eq!(lantern.on_timer.elapsed, 0);
        assert!(5 * SECOND <= lantern.on_timer.duration);
        assert!(lantern.on_timer.duration <= 20 * SECOND);
        assert_eq!(lantern.grid_pos, Vec2::new(lantern.position.x, lantern.position.y).cell());
    }
    assert!(lanterns.iter().any(|l| l.position.y != lanterns[0].position.y));
}

#[test]
fn a_room_narrower_than_the_spacing_has_no_lanterns() {
    let mut rng = StdRng::seed_from_u64(31);
    let room = RoomConfig { room_radius: 2 * ONE, ..RoomConfig::default() };
    assert!(setup_lanterns(&room, &LanternConfig::default(), &mut rng).is_empty());

    let room = RoomConfig { room_radius: 7_500_000, ..RoomConfig::default() };
    let lanterns = setup_lanterns(&room, &LanternConfig::default(), &mut rng);
    assert_eq!(lanterns.len(), 9);
    assert_eq!(lanterns[0].position.x, -5 * ONE);
    assert_eq!(lanterns[4].position.x, 0);
    assert_eq!(lanterns[4].position.z, 0);
    assert_eq!(lanterns[8].position.z, 5 * ONE);
}

#[test]
fn moths_are_let_loose_in_the_box_at_the_configured_speed() {
    let mut rng = StdRng::seed_from_u64(32);
    let config = MothConfig { moth_speed: 2_500_000, moth_count: 200, ..MothConfig::default() };

    let moths: Vec<Moth> = setup_moths(&config, &mut rng);

    assert_eq!(moths.len(), 200);
    let speed = config.moth_speed as u128;
    let one = ONE as u128;
    for moth in &moths {
        assert!(-5 * ONE <= moth.position.x && moth.position.x < 5 * ONE);
        assert!(ONE <= moth.position.y && moth.position.y < 4 * ONE);
        assert!(-5 * ONE <= moth.position.z && moth.position.z < 5 * ONE);
        assert_eq!(moth.landed, None);
        assert_eq!(moth.facing, Vec3::zero());
        let norm2 = moth.velocity.0.norm2();
        assert!(norm2 <= speed * speed);
        assert!(one * norm2 >= (one - 5) * speed * speed - 4 * one * speed);
    }
    assert!(moths.iter().any(|m| m.position != moths[0].position));
    assert!(moths.iter().any(|m| m.velocity != moths[0].velocity));
}

#[test]
fn the_same_seed_gives_the_same_run() {
    let run = |seed: u64| {
        let mut rng = StdRng::seed_from_u64(seed);
        let mut simulation = Simulation::new(
            MothConfig { moth_count: 30, ..MothConfig::default() },
            LanternConfig { on_chance: 200_000, ..LanternConfig::default() },
            RoomConfig::default(),
            &mut rng,
        );
        for _ in 0..50 {
            simulation.tick(16_000_000, &mut rng);
        }
        (simulation.moths, simulation.lanterns)
    };
    assert_eq!(run(40), run(40));
    assert_ne!(run(40), run(41));
}

#[test]
fn ticks_keep_the_moths_in_bounds_and_the_lanterns_coupled() {
    let mut rng = StdRng::seed_from_u64(42);
    let moth_config = MothConfig {
        moth_speed: 2_500_000,
        landing_chance: 300_000,
        landed_duration: SECOND / 2,
        ..MothConfig::default()
    };
    let lantern_config = LanternConfig {
        physical_radius: 300_000,
        personal_space: 0,
        on_chance: 100_000,
        cooldown: SECOND,
        on_time_min: SECOND,
        on_time_max: 2 * SECOND,
        ..LanternConfig::default()
    };
    let room = RoomConfig::default();
    let mut simulation = Simulation::new(moth_config, lantern_config, room, &mut rng);
    assert_eq!(simulation.moths.len(), 150);
    assert_eq!(simulation.lanterns.len(), 16);

    let delta = 16_666_667;
    assert!(simulation.can_tick(delta));
    assert!(!simulation.can_tick(1_000_000_000_001));
    let stride = (moth_config.moth_speed as i128 * delta as i128 / SECOND as i128) as i64;
    let speed = moth_config.moth_speed as u128;
    let mut landings = 0;
    let mut lit = 0;
    let places: Vec<Vec3> = simulation.lanterns.iter().map(|l| l.position).collect();
    for _ in 0..600 {
        simulation.tick(delta, &mut rng);
        for moth in &simulation.moths {
            assert!(moth.velocity.0.norm2() <= speed * speed);
            if moth.landed.is_some() {
                assert_eq!(moth.velocity.0, Vec3::zero());
                landings += 1;
            }
            let p = moth.position;
            assert!(p.x.abs() <= room.room_radius + stride);
            assert!(p.z.abs() <= room.room_radius + stride);
            assert!(room.floor_height - stride <= p.y && p.y <= room.ceiling_height + stride);
        }
        for (lantern, place) in simulation.lanterns.iter().zip(places.iter()) {
            assert_eq!(lantern.position, *place);
            if lantern.is_on {
                lit += 1;
            } else {
                assert_eq!(lantern.radiance, 0);
                assert_eq!(lantern.base_intensity, 0);
            }
        }
    }
    assert!(landings > 0);
    assert!(lit > 0);
}

#[test]
fn moths_out_of_range_or_moving_while_settled_are_not_valid() {
    let good = Moth::new(Vec3::from_units(1, 2, 3), Velocity(Vec3::from_units(0, 1, 0)));
    assert!(good.is_valid());
    assert!(!Moth { position: Vec3::new(COORD_MAX + 1, 0, 0), ..good }.is_valid());
    assert!(Moth { position: Vec3::new(-COORD_MAX, COORD_MAX, 0), ..good }.is_valid());
    assert!(!Moth { velocity: Velocity(Vec3::new(COORD_MAX, 1, 0)), ..good }.is_valid());
    assert!(Moth { velocity: Velocity(Vec3::new(0, 0, -COORD_MAX)), ..good }.is_valid());
    let settled = Some(LandedTimer(Timer::from_seconds(1)));
    assert!(!Moth { landed: settled, ..good }.is_valid());
    assert!(Moth { landed: settled, velocity: Velocity(Vec3::zero()), ..good }.is_valid());
}

#[test]
fn lanterns_that_shine_while_dark_or_misname_their_cell_are_not_valid() {
    let good = Lantern::new(Vec3::from_units(20, 5, 0), SECOND);
    assert!(good.is_valid());
    assert_eq!(good.grid_pos, (1, 0));
    assert!(!Lantern { grid_pos: (0, 0), ..good }.is_valid());
    assert!(!Lantern { radiance: ONE, ..good }.is_valid());
    assert!(!Lantern { base_intensity: 1, ..good }.is_valid());
    assert!(Lantern { is_on: true, radiance: ONE, base_intensity: 1, ..good }.is_valid());
    assert!(!Lantern { is_on: true, radiance: -1, ..good }.is_valid());
    assert!(!Lantern { position: Vec3::new(0, 0, COORD_MAX + 1), ..good }.is_valid());
    assert!(Lantern::default().is_valid());
}

#[test]
fn a_simulation_is_valid_until_it_is_tampered_with() {
    let mut rng = StdRng::seed_from_u64(50);
    let mut simulation = Simulation::new(
        MothConfig { moth_count: 5, ..MothConfig::default() },
        LanternConfig::default(),
        RoomConfig::default(),
        &mut rng,
    );
    assert!(simulation.is_valid());
    simulation.tick(16_000_000, &mut rng);
    assert!(simulation.is_valid());
    simulation.moths[3].position.x = COORD_MAX + 1;
    assert!(!simulation.is_valid());
    simulation.moths[3].position.x = 0;
    simulation.lanterns[7].radiance = 1;
    assert_eq!(simulation.is_valid(), simulation.lanterns[7].is_on);
    simulation.lanterns[7].radiance = if simulation.lanterns[7].is_on { ONE } else { 0 };
    simulation.moth_config.landing_chance = -1;
    assert!(!simulation.is_valid());
}
