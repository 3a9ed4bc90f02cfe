use phototaxis::components::{LandedTimer, Lantern, Moth, Velocity};
use phototaxis::config::{LanternConfig, MothConfig};
use phototaxis::fixed::ONE;
use phototaxis::systems::flocking::{
    add_flock_forces, calculate_flocking_forces, flocking_system, steer, take_snapshot,
};
use phototaxis::systems::moth::{
    calculate_attraction_force, lantern_force, moth_idle_system, moth_movement_system,
    moth_wander_system, rouse, wander_step,
};
use phototaxis::timer::Timer;
use phototaxis::vector::Vec3;
use rand::rngs::StdRng;
use rand::SeedableRng;

fn lit(x: i64, y: i64, z: i64, radiance: i64) -> Lantern {
    let mut lantern = Lantern::new(Vec3::new(x, y, z), 0);
    lantern.is_on = true;
    lantern.radiance = radiance;
    lantern.base_intensity = ONE;
    lantern.intensity = ONE;
    lantern
}

#[test]
fn a_lantern_draws_with_its_radiance() {
    let force = lantern_force(&Vec3::from_units(0, 0, 0), &lit(0, -8 * ONE, 6 * ONE, 5 * ONE), 0);
    assert_eq!(force, Vec3::new(0, -4 * ONE, 3 * ONE));
}

#[test]
fn inside_its_personal_space_a_lantern_pushes_with_one_over_the_distance() {
    let lantern = lit(0, 0, 0, 5 * ONE);
    let force = lantern_force(&Vec3::new(500_000, 0, 0), &lantern, ONE);
    assert_eq!(force, Vec3::from_units(2, 0, 0));

    let force = lantern_force(&Vec3::new(0, 0, -250_000), &lantern, ONE);
    assert_eq!(force, Vec3::from_units(0, 0, -4));

    let at_the_edge = lantern_force(&Vec3::from_units(1, 0, 0), &lantern, ONE);
    assert_eq!(at_the_edge, Vec3::from_units(-5, 0, 0));
}

#[test]
fn a_moth_at_the_place_of_the_lantern_feels_nothing() {
    let lantern = lit(ONE, ONE, ONE, 5 * ONE);
    assert_eq!(lantern_force(&Vec3::from_units(1, 1, 1), &lantern, ONE), Vec3::zero());
    assert_eq!(lantern_force(&Vec3::from_units(1, 1, 1), &lantern, 0), Vec3::zero());
}

#[test]
fn dark_or_distant_lanterns_do_not_draw() {
    let config = MothConfig::default();
    let lantern_config = LanternConfig::default();
    let at = Vec3::zero();

    let mut dark = lit(3 * ONE, 0, 0, 5 * ONE);
    dark.is_on = false;
    dark.radiance = 0;
    assert_eq!(calculate_attraction_force(&at, &[dark], &config, &lantern_config), Vec3::zero());

    let distant = lit(16 * ONE, 0, 0, 5 * ONE);
    assert_eq!(calculate_attraction_force(&at, &[distant], &config, &lantern_config), Vec3::zero());

    let at_the_limit = lit(15 * ONE, 0, 0, 5 * ONE);
    assert_eq!(
        calculate_attraction_force(&at, &[dark, distant, at_the_limit], &config, &lantern_config),
        Vec3::from_units(5, 0, 0)
    );
}

#[test]
fn the_push_apart_has_the_strength_of_one_over_the_distance() {
    let config = MothConfig { perception_radius: 5 * ONE, ..MothConfig::default() };
    let at = Vec3::zero();
    let flock = vec![
        (0u64, at, Velocity(Vec3::zero())),
        (1u64, Vec3::from_units(2, 0, 0), Velocity(Vec3::from_units(0, 1, 0))),
        (2u64, Vec3::from_units(0, 0, -4), Velocity(Vec3::from_units(0, 0, 1))),
        (3u64, at, Velocity(Vec3::from_units(9, 9, 9))),
        (4u64, Vec3::from_units(5, 0, 0), Velocity(Vec3::from_units(9, 9, 9))),
    ];
    let (separation, alignment, cohesion, count) =
        calculate_flocking_forces(0, &at, &flock, &config);
    assert_eq!(separation, Vec3::new(-500_000, 0, 250_000));
    assert_eq!(alignment, Vec3::from_units(0, 1, 1));
    assert_eq!(cohesion, Vec3::from_units(2, 0, -4));
    assert_eq!(count, 2);
}

#[test]
fn the_snapshot_holds_the_flying_moths_under_their_indices() {
    let mut moths = vec![
        Moth::new(Vec3::from_units(1, 0, 0), Velocity(Vec3::from_units(0, 1, 0))),
        Moth::new(Vec3::from_units(2, 0, 0), Velocity(Vec3::zero())),
        Moth::new(Vec3::from_units(3, 0, 0), Velocity(Vec3::from_units(0, 0, 1))),
    ];
    moths[1].landed = Some(LandedTimer(Timer::from_seconds(1)));
    let snapshot = take_snapshot(&moths);
    assert_eq!(
        snapshot,
        vec![
            (0u64, Vec3::from_units(1, 0, 0), Velocity(Vec3::from_units(0, 1, 0))),
            (2u64, Vec3::from_units(3, 0, 0), Velocity(Vec3::from_units(0, 0, 1))),
        ]
    );
}

#[test]
fn flock_forces_are_weighted_and_added() {
    let config = MothConfig::default();
    let velocity = Vec3::from_units(1, 0, 0);
    let position = Vec3::zero();
    // one flockmate two units above, flying along z
    let forces =
        (Vec3::new(0, -500_000, 0), Vec3::from_units(0, 0, 1), Vec3::from_units(0, 2, 0), 1u32);
    let flocked = add_flock_forces(&velocity, &position, forces, &config);
    // separation 0.3 * (0, -0.5, 0); alignment 0.15 * ((0, 0, 1) - v); cohesion 0.1 * ((0, 1, 0) - v)
    assert_eq!(flocked, Vec3::new(ONE - 150_000 - 100_000, -150_000 + 100_000, 150_000));

    let alone = (Vec3::zero(), Vec3::zero(), Vec3::zero(), 0u32);
    assert_eq!(add_flock_forces(&velocity, &position, alone, &config), velocity);
}

#[test]
fn steering_brings_the_sum_to_the_configured_speed() {
    let config = MothConfig { moth_speed: 2 * ONE, ..MothConfig::default() };
    let mut moth = Moth::new(Vec3::zero(), Velocity(Vec3::from_units(0, 0, 3)));
    let alone = (Vec3::zero(), Vec3::zero(), Vec3::zero(), 0u32);
    // pull 80 * 0.05 = 4 along x against a velocity of 3 along z
    steer(&mut moth, alone, &Vec3::from_units(80, 0, 0), &Vec3::zero(), &config);
    assert_eq!(moth.velocity.0, Vec3::new(1_600_000, 0, 1_200_000));
    assert_eq!(moth.position, Vec3::zero());
}

#[test]
fn forces_that_cancel_leave_the_moth_at_rest() {
    let config = MothConfig::default();
    let mut moth = Moth::new(Vec3::zero(), Velocity(Vec3::from_units(1, 0, 0)));
    let alone = (Vec3::zero(), Vec3::zero(), Vec3::zero(), 0u32);
    steer(&mut moth, alone, &Vec3::from_units(-20, 0, 0), &Vec3::zero(), &config);
    assert_eq!(moth.velocity.0, Vec3::zero());
}

#[test]
fn a_moth_at_rest_is_roused_by_the_seed() {
    assert_eq!(rouse(&Vec3::zero(), &Vec3::new(0, 5, 0)), Vec3::new(0, ONE, 0));
    assert_eq!(rouse(&Vec3::new(7, 0, 0), &Vec3::new(0, 5, 0)), Vec3::new(7, 0, 0));
    assert_eq!(rouse(&Vec3::zero(), &Vec3::zero()), Vec3::zero());
}

#[test]
fn wandering_adds_pull_and_push_and_keeps_the_speed() {
    let config = MothConfig::default();
    let mut moth = Moth::new(Vec3::zero(), Velocity(Vec3::from_units(1, 0, 0)));
    // pull 0.8 * (0, 1.25, 0) = (0, 1, 0); push of length 0.1 along -x
    wander_step(
        &mut moth,
        &Vec3::zero(),
        &Vec3::new(-1, 0, 0),
        &Vec3::new(0, 1_250_000, 0),
        &config,
    );
    // (0.9, 1, 0) at length one
    let norm2 = moth.velocity.0.norm2();
    let one = ONE as u128;
    assert!(norm2 <= one * one);
    assert!(norm2 >= one * one - 5 * one);
    assert_eq!(moth.velocity.0, Vec3::new(668_964, 743_294, 0));
}

#[test]
fn the_systems_leave_settled_moths_alone() {
    let mut rng = StdRng::seed_from_u64(20);
    let config = MothConfig::default();
    let lantern_config = LanternConfig::default();
    let lanterns = vec![lit(ONE, 0, 0, 5 * ONE)];
    let mut moths = vec![
        Moth::new(Vec3::zero(), Velocity(Vec3::zero())),
        Moth::new(Vec3::new(300_000, 0, 0), Velocity(Vec3::from_units(0, 1, 0))),
    ];
    moths[0].landed = Some(LandedTimer(Timer::from_seconds(1)));
    let settled = moths[0];

    moth_wander_system(&config, &lantern_config, &mut moths, &lanterns, &mut rng);
    assert_eq!(moths[0], settled);
    flocking_system(&config, &lantern_config, &mut moths, &lanterns, &mut rng);
    assert_eq!(moths[0], settled);
    assert_ne!(moths[1].velocity.0, Vec3::from_units(0, 1, 0));
}

#[test]
fn flocking_keeps_every_flying_moth_at_the_configured_speed() {
    let mut rng = StdRng::seed_from_u64(21);
    let config = MothConfig { moth_speed: 2_500_000, ..MothConfig::default() };
    let lantern_config = LanternConfig::default();
    let lanterns = vec![lit(2 * ONE, 3 * ONE, 0, 9 * ONE), lit(-4 * ONE, 3 * ONE, ONE, 6 * ONE)];
    let mut moths: Vec<Moth> = (0..40)
        .map(|i| {
            Moth::new(
                Vec3::new((i % 7) * 300_000 - ONE, (i % 5) * 200_000 + ONE, (i % 3) * 400_000),
                Velocity(Vec3::new(0, 0, 0)),
            )
        })
        .collect();
    let speed = config.moth_speed as u128;
    let one = ONE as u128;
    for _ in 0..20 {
        flocking_system(&config, &lantern_config, &mut moths, &lanterns, &mut rng);
        for moth in &moths {
            let norm2 = moth.velocity.0.norm2();
            assert!(norm2 <= speed * speed);
            assert!(one * norm2 >= (one - 5) * speed * speed - 4 * one * speed);
        }
        moth_movement_system(&mut moths, 16_000_000);
    }
}

#[test]
fn moths_move_by_their_velocity_and_face_where_they_fly() {
    let mut moths = vec![
        Moth::new(Vec3::from_units(1, 2, 3), Velocity(Vec3::new(ONE, 0, -2 * ONE))),
        Moth::new(Vec3::from_units(1, 2, 3), Velocity(Vec3::zero())),
    ];
    moths[1].facing = Vec3::new(0, ONE, 0);

    moth_movement_system(&mut moths, 16_000_000);

    assert_eq!(moths[0].position, Vec3::new(ONE + 16_000, 2 * ONE, 3 * ONE - 32_000));
    assert_eq!(moths[0].facing, Vec3::new(1, 0, -2).normalize_or_zero());
    assert_eq!(moths[0].velocity.0, Vec3::new(ONE, 0, -2 * ONE));
    assert_eq!(moths[1].position, Vec3::from_units(1, 2, 3));
    assert_eq!(moths[1].facing, Vec3::new(0, ONE, 0));
}

#[test]
fn flocking_rescales_a_lone_moth_and_leaves_a_resting_one_at_rest() {
    let mut rng = StdRng::seed_from_u64(22);
    let config = MothConfig { wander_factor: 0, ..MothConfig::default() };
    let lantern_config = LanternConfig::default();
    let mut moths = vec![Moth::new(Vec3::zero(), Velocity(Vec3::from_units(2, 0, 0)))];
    flocking_system(&config, &lantern_config, &mut moths, &[], &mut rng);
    assert_eq!(moths[0].velocity.0, Vec3::from_units(1, 0, 0));

    let mut moths = vec![Moth::new(Vec3::zero(), Velocity(Vec3::zero()))];
    for _ in 0..10 {
        flocking_system(&config, &lantern_config, &mut moths, &[], &mut rng);
        assert_eq!(moths[0].velocity.0, Vec3::zero());
    }
}

#[test]
fn the_idle_check_rouses_flying_moths_at_rest_and_no_others() {
    let mut rng = StdRng::seed_from_u64(23);
    let mut moths = vec![
        Moth::new(Vec3::from_units(1, 0, 0), Velocity(Vec3::zero())),
        Moth::new(Vec3::from_units(2, 0, 0), Velocity(Vec3::zero())),
        Moth::new(Vec3::from_units(3, 0, 0), Velocity(Vec3::new(0, 7, 0))),
    ];
    moths[1].landed = Some(LandedTimer(Timer::from_seconds(1)));
    let before = moths.clone();

    moth_idle_system(&mut moths, &mut rng);

    let one = ONE as u128;
    let norm2 = moths[0].velocity.0.norm2();
    assert!(norm2 <= one * one && norm2 >= one * one - 5 * one);
    assert_eq!(Moth { velocity: before[0].velocity, ..moths[0] }, before[0]);
    assert_eq!(moths[1], before[1]);
    assert_eq!(moths[2], before[2]);
}

#[test]
fn a_moth_left_at_rest_flies_again_after_the_next_idle_check() {
    let mut rng = StdRng::seed_from_u64(24);
    let config = MothConfig { wander_factor: 0, ..MothConfig::default() };
    let lantern_config = LanternConfig::default();
    let mut moths = vec![Moth::new(Vec3::zero(), Velocity(Vec3::zero()))];
    flocking_system(&config, &lantern_config, &mut moths, &[], &mut rng);
    assert_eq!(moths[0].velocity.0, Vec3::zero());
    moth_idle_system(&mut moths, &mut rng);
    flocking_system(&config, &lantern_config, &mut moths, &[], &mut rng);
    let speed = config.moth_speed as u128;
    let one = ONE as u128;
    let norm2 = moths[0].velocity.0.norm2();
    assert!(norm2 <= speed * speed);
    assert!(one * norm2 >= (one - 5) * speed * speed - 4 * one * speed);
}
