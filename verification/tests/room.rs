use phototaxis::components::{LandedTimer, Lantern, Moth, Velocity};
use phototaxis::config::{LanternConfig, RoomConfig};
use phototaxis::fixed::ONE;
use phototaxis::resources::SpatialIndex;
use phototaxis::setup::setup_lantern_index;
use phototaxis::systems::collision::{moth_collision_system, resolve_collision, resolve_collisions};
use phototaxis::systems::scene::{
    enforce_boundary_system, hold_at_floor_and_ceiling, hold_at_wall, keep_in,
};
use phototaxis::timer::Timer;
use phototaxis::vector::Vec3;

fn squared(v: i64) -> u128 {
    (v as i128 * v as i128) as u128
}

#[test]
fn a_moth_beyond_the_wall_is_set_back_and_mirrored() {
    let (position, velocity) =
        hold_at_wall(&Vec3::from_units(20, 5, 0), &Vec3::from_units(1, 2, 0), 10 * ONE);
    assert_eq!(position, Vec3::from_units(10, 5, 0));
    assert_eq!(velocity, Vec3::from_units(-1, 2, 0));
}

#[test]
fn a_moth_beyond_the_wall_that_flies_inward_keeps_its_velocity() {
    let (position, velocity) =
        hold_at_wall(&Vec3::from_units(0, 5, -20), &Vec3::from_units(1, 2, 3), 10 * ONE);
    assert_eq!(position, Vec3::from_units(0, 5, -10));
    assert_eq!(velocity, Vec3::from_units(1, 2, 3));
}

#[test]
fn a_moth_inside_the_wall_is_left_alone() {
    let (position, velocity) =
        hold_at_wall(&Vec3::from_units(6, 50, 8), &Vec3::from_units(1, 2, 3), 10 * ONE);
    assert_eq!(position, Vec3::from_units(6, 50, 8));
    assert_eq!(velocity, Vec3::from_units(1, 2, 3));
}

#[test]
fn a_glancing_moth_keeps_the_part_of_its_velocity_along_the_wall() {
    let (position, velocity) =
        hold_at_wall(&Vec3::from_units(0, 1, 12), &Vec3::from_units(3, 0, 4), 10 * ONE);
    assert_eq!(position, Vec3::from_units(0, 1, 10));
    assert_eq!(velocity, Vec3::from_units(3, 0, -4));
}

#[test]
fn floor_and_ceiling_turn_the_moth_back() {
    let up = Vec3::from_units(1, 3, 1);
    let down = Vec3::from_units(1, -3, 1);
    let (position, velocity) =
        hold_at_floor_and_ceiling(&Vec3::from_units(2, 12, 2), &up, 0, 10 * ONE);
    assert_eq!(position, Vec3::from_units(2, 10, 2));
    assert_eq!(velocity, down);
    let (_, velocity) = hold_at_floor_and_ceiling(&Vec3::from_units(2, 12, 2), &down, 0, 10 * ONE);
    assert_eq!(velocity, down);

    let (position, velocity) =
        hold_at_floor_and_ceiling(&Vec3::from_units(2, -1, 2), &down, 0, 10 * ONE);
    assert_eq!(position, Vec3::from_units(2, 0, 2));
    assert_eq!(velocity, up);

    let (position, velocity) =
        hold_at_floor_and_ceiling(&Vec3::from_units(2, 10, 2), &up, 0, 10 * ONE);
    assert_eq!(position, Vec3::from_units(2, 10, 2));
    assert_eq!(velocity, up);
}

#[test]
fn every_moth_ends_inside_the_room_and_no_faster() {
    let room = RoomConfig::default();
    let mut moths = Vec::new();
    let mut state: u64 = 12345;
    let mut next = |span: i64| {
        state = state
            .wrapping_mul(6_364_136_223_846_793_005)
            .wrapping_add(1_442_695_040_888_963_407);
        ((state >> 33) as i64 % (2 * span)) - span
    };
    for _ in 0..500 {
        moths.push(Moth::new(
            Vec3::new(next(30 * ONE), next(30 * ONE), next(30 * ONE)),
            Velocity(Vec3::new(next(3 * ONE), next(3 * ONE), next(3 * ONE))),
        ));
    }
    let before = moths.clone();

    enforce_boundary_system(&mut moths, &room);

    for (moth, old) in moths.iter().zip(before.iter()) {
        let p = moth.position;
        assert!(squared(p.x) + squared(p.z) <= squared(room.room_radius));
        assert!(room.floor_height <= p.y && p.y <= room.ceiling_height);
        assert!(moth.velocity.0.norm2() <= old.velocity.0.norm2());
        // a mirrored velocity loses no more of its speed than the rounding takes
        assert!(moth.velocity.0.length() + 20 >= old.velocity.0.length());
        if squared(old.position.x) + squared(old.position.z) > squared(room.room_radius) {
            let outward =
                p.x as i128 * moth.velocity.0.x as i128 + p.z as i128 * moth.velocity.0.z as i128;
            assert!(outward <= 0);
        }
    }
}

#[test]
fn a_settled_moth_outside_is_set_back_and_stays_at_rest() {
    let room = RoomConfig::default();
    let mut moth = Moth::new(Vec3::from_units(0, 20, 30), Velocity(Vec3::zero()));
    moth.landed = Some(LandedTimer(Timer::from_seconds(1)));
    keep_in(&mut moth, &room);
    assert_eq!(moth.position, Vec3::from_units(0, 10, 10));
    assert_eq!(moth.velocity.0, Vec3::zero());
    assert_eq!(moth.landed, Some(LandedTimer(Timer::from_seconds(1))));
}

#[test]
fn a_moth_inside_a_lantern_is_set_onto_its_surface() {
    let (position, velocity) = resolve_collision(
        &Vec3::new(2 * ONE + 500_000, ONE, ONE),
        &Vec3::from_units(0, 3, -4),
        &Vec3::from_units(2, 1, 1),
        ONE,
    );
    assert_eq!(position, Vec3::from_units(3, 1, 1));
    assert_eq!(velocity, Vec3::from_units(5, 0, 0));
}

#[test]
fn a_moth_outside_a_lantern_is_left_alone() {
    let (position, velocity) = resolve_collision(
        &Vec3::from_units(3, 1, 1),
        &Vec3::from_units(0, 3, -4),
        &Vec3::from_units(2, 1, 1),
        ONE,
    );
    assert_eq!(position, Vec3::from_units(3, 1, 1));
    assert_eq!(velocity, Vec3::from_units(0, 3, -4));
}

#[test]
fn a_moth_at_the_place_of_a_lantern_stays_and_comes_to_rest() {
    let (position, velocity) = resolve_collision(
        &Vec3::from_units(2, 1, 1),
        &Vec3::from_units(0, 3, -4),
        &Vec3::from_units(2, 1, 1),
        ONE,
    );
    assert_eq!(position, Vec3::from_units(2, 1, 1));
    assert_eq!(velocity, Vec3::zero());
}

#[test]
fn candidates_are_taken_in_order_and_unknown_ones_passed_over() {
    let lanterns = vec![
        Lantern::new(Vec3::from_units(0, 0, 0), 0),
        Lantern::new(Vec3::new(1_500_000, 0, 0), 0),
    ];
    let start = Moth::new(Vec3::new(900_000, 0, 0), Velocity(Vec3::from_units(0, 1, 0)));

    let mut moth = start;
    resolve_collisions(&mut moth, &lanterns, &vec![0, 9, 1], ONE);
    assert_eq!(moth.position, Vec3::new(500_000, 0, 0));
    assert_eq!(moth.velocity.0, Vec3::from_units(-1, 0, 0));

    let mut moth = start;
    resolve_collisions(&mut moth, &lanterns, &vec![1, 0], ONE);
    assert_eq!(moth.position, Vec3::from_units(1, 0, 0));
    assert_eq!(moth.velocity.0, Vec3::from_units(1, 0, 0));

    let mut moth = start;
    resolve_collisions(&mut moth, &lanterns, &vec![], ONE);
    assert_eq!(moth, start);
}

#[test]
fn after_the_collision_system_no_flying_moth_is_inside_a_lantern() {
    let config = LanternConfig::default();
    let radius = config.physical_radius;
    let mut lanterns = Vec::new();
    for i in -3..=3 {
        for j in -3..=3 {
            lanterns.push(Lantern::new(Vec3::from_units(5 * i, 5 * j, 7), 0));
        }
    }
    let mut index = SpatialIndex::new();
    setup_lantern_index(&mut index, &lanterns);

    let mut moths = Vec::new();
    let mut state: u64 = 99;
    let mut next = |span: i64| {
        state = state
            .wrapping_mul(6_364_136_223_846_793_005)
            .wrapping_add(1_442_695_040_888_963_407);
        ((state >> 33) as i64 % (2 * span)) - span
    };
    for n in 0..2_000 {
        let lantern = lanterns[n % lanterns.len()].position;
        let place = Vec3::new(
            lantern.x + next(2 * ONE),
            lantern.y + next(2 * ONE),
            lantern.z + next(2 * ONE),
        );
        if place != lantern {
            moths.push(Moth::new(place, Velocity(Vec3::new(next(ONE), next(ONE), next(ONE)))));
        }
    }
    let mut settled = Moth::new(Vec3::new(100_000, 0, 7 * ONE), Velocity(Vec3::zero()));
    settled.landed = Some(LandedTimer(Timer::from_seconds(1)));
    moths.push(settled);
    let before = moths.clone();

    moth_collision_system(&mut moths, &lanterns, &index, &config);

    let one = ONE as i128;
    let clearance = (one - 5) * (radius as i128 * radius as i128) - 4 * one * radius as i128;
    let mut turned = 0;
    for (moth, old) in moths.iter().zip(before.iter()) {
        if old.landed.is_some() {
            assert_eq!(moth, old);
            continue;
        }
        for lantern in &lanterns {
            let d2 = moth.position.dist2(&lantern.position) as i128;
            assert!(one * d2 >= clearance);
        }
        assert!(moth.velocity.0.norm2() <= old.velocity.0.norm2());
        if moth.position != old.position {
            turned += 1;
        }
    }
    assert!(turned > 100);
}
