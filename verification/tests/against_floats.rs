use phototaxis::components::{Lantern, Moth, Velocity};
use phototaxis::config::MothConfig;
use phototaxis::fixed::ONE;
use phototaxis::systems::collision::resolve_collision;
use phototaxis::systems::flocking::{calculate_flocking_forces, steer};
use phototaxis::systems::moth::lantern_force;
use phototaxis::systems::scene::hold_at_wall;
use phototaxis::vector::Vec3;
use rand::rngs::StdRng;
use rand::{Rng, SeedableRng};

type F3 = [f64; 3];

fn float(v: Vec3) -> F3 {
    [v.x as f64 / ONE as f64, v.y as f64 / ONE as f64, v.z as f64 / ONE as f64]
}

fn raw(rng: &mut StdRng, span: i64) -> Vec3 {
    Vec3::new(
        rng.random_range(-span..=span),
        rng.random_range(-span..=span),
        rng.random_range(-span..=span),
    )
}

fn sub(a: F3, b: F3) -> F3 {
    [a[0] - b[0], a[1] - b[1], a[2] - b[2]]
}

fn add(a: F3, b: F3) -> F3 {
    [a[0] + b[0], a[1] + b[1], a[2] + b[2]]
}

fn times(a: F3, k: f64) -> F3 {
    [a[0] * k, a[1] * k, a[2] * k]
}

fn dot(a: F3, b: F3) -> f64 {
    a[0] * b[0] + a[1] * b[1] + a[2] * b[2]
}

fn len(a: F3) -> f64 {
    dot(a, a).sqrt()
}

fn normalize_or_zero(a: F3) -> F3 {
    let l = len(a);
    if l > 0.0 {
        times(a, 1.0 / l)
    } else {
        [0.0; 3]
    }
}

fn assert_close(got: Vec3, want: F3, tolerance: f64) {
    let got = float(got);
    for i in 0..3 {
        assert!(
            (got[i] - want[i]).abs() <= tolerance,
            "{:?} is not within {} of {:?}",
            got,
            tolerance,
            want
        );
    }
}

#[test]
fn normalizing_agrees_with_floating_point() {
    let mut rng = StdRng::seed_from_u64(100);
    for _ in 0..2_000 {
        let span = 10i64.pow(rng.random_range(0..=12));
        let v = raw(&mut rng, span);
        let want = normalize_or_zero([v.x as f64, v.y as f64, v.z as f64]);
        assert_close(v.normalize_or_zero(), want, 2e-6);
        let want = times(want, 2.5);
        assert_close(v.with_length(2_500_000), want, 6e-6);
    }
}

#[test]
fn the_force_of_a_lantern_agrees_with_floating_point() {
    let mut rng = StdRng::seed_from_u64(101);
    for _ in 0..2_000 {
        let at = raw(&mut rng, 20 * ONE);
        let mut lantern = Lantern::new(raw(&mut rng, 20 * ONE), 0);
        lantern.is_on = true;
        lantern.radiance = rng.random_range(5 * ONE..=15 * ONE);
        lantern.base_intensity = ONE;
        lantern.intensity = ONE;
        let personal_space = 10 * ONE;
        let to_lantern = sub(float(lantern.position), float(at));
        let distance = len(to_lantern);
        if distance < 0.01 || (distance - 10.0).abs() < 1e-3 {
            continue;
        }
        let want = if distance < 10.0 {
            times(normalize_or_zero(times(to_lantern, -1.0)), 1.0 / distance)
        } else {
            times(normalize_or_zero(to_lantern), lantern.radiance as f64 / ONE as f64)
        };
        assert_close(lantern_force(&at, &lantern, personal_space), want, 1e-3);
    }
}

#[test]
fn the_forces_of_the_flock_agree_with_floating_point() {
    let mut rng = StdRng::seed_from_u64(102);
    let config = MothConfig { perception_radius: 3 * ONE, ..MothConfig::default() };
    for _ in 0..200 {
        let at = raw(&mut rng, 2 * ONE);
        let mut flock = vec![(0u64, at, Velocity(raw(&mut rng, ONE)))];
        for id in 1..30u64 {
            flock.push((id, raw(&mut rng, 4 * ONE), Velocity(raw(&mut rng, ONE))));
        }
        let mut separation = [0.0; 3];
        let mut alignment = [0.0; 3];
        let mut cohesion = [0.0; 3];
        let mut count = 0;
        let mut on_the_edge = false;
        for (id, position, velocity) in &flock {
            if *id == 0 {
                continue;
            }
            let away = sub(float(at), float(*position));
            let distance = len(away);
            on_the_edge = on_the_edge || (distance - 3.0).abs() < 1e-4 || distance < 1e-2;
            if distance > 0.0 && distance < 3.0 {
                separation = add(separation, times(away, 1.0 / (distance * distance)));
                alignment = add(alignment, float(velocity.0));
                cohesion = add(cohesion, float(*position));
                count += 1;
            }
        }
        if on_the_edge {
            continue;
        }
        let forces = calculate_flocking_forces(0, &at, &flock, &config);
        assert_eq!(forces.3, count);
        assert_close(forces.0, separation, 1e-4);
        assert_close(forces.1, alignment, 1e-9);
        assert_close(forces.2, cohesion, 1e-9);

        // the steering that follows from them
        let speed = config.moth_speed as f64 / ONE as f64;
        let velocity = float(flock[0].2 .0);
        let pull = raw(&mut rng, 10 * ONE);
        let mut heading = velocity;
        if count > 0 {
            let mean_heading = times(alignment, 1.0 / count as f64);
            let mean_position = times(cohesion, 1.0 / count as f64);
            let align = sub(times(normalize_or_zero(mean_heading), speed), velocity);
            let cohere =
                sub(times(normalize_or_zero(sub(mean_position, float(at))), speed), velocity);
            heading = add(heading, times(separation, 0.3));
            heading = add(heading, times(align, 0.15));
            heading = add(heading, times(cohere, 0.1));
        }
        heading = add(heading, times(float(pull), 0.05));
        if velocity == [0.0; 3] || len(heading) < 1e-2 {
            continue;
        }
        let want = times(normalize_or_zero(heading), speed);
        let mut moth = Moth::new(at, flock[0].2);
        steer(&mut moth, forces, &pull, &Vec3::zero(), &config);
        assert_close(moth.velocity.0, want, 1e-3);
    }
}

#[test]
fn the_turn_at_the_wall_agrees_with_floating_point() {
    let mut rng = StdRng::seed_from_u64(103);
    let radius = 10.0;
    let mut turned = 0;
    for _ in 0..2_000 {
        let position = raw(&mut rng, 30 * ONE);
        let velocity = raw(&mut rng, 3 * ONE);
        let p = float(position);
        let v = float(velocity);
        let out = [p[0], 0.0, p[2]];
        let flat = [v[0], 0.0, v[2]];
        if (len(out) - radius).abs() < 1e-4 || dot(flat, out).abs() < 1e-4 {
            continue;
        }
        let (want_p, want_v) = if len(out) > radius {
            let held = times(normalize_or_zero(out), radius);
            let mut flat_after = flat;
            if dot(flat, out) > 0.0 {
                let n = normalize_or_zero(out);
                flat_after = sub(flat, times(n, 2.0 * dot(flat, n)));
                turned += 1;
            }
            ([held[0], p[1], held[2]], [flat_after[0], v[1], flat_after[2]])
        } else {
            (p, v)
        };
        let (got_p, got_v) = hold_at_wall(&position, &velocity, 10 * ONE);
        assert_close(got_p, want_p, 1e-5);
        assert_close(got_v, want_v, 1e-4);
    }
    assert!(turned > 100);
}

#[test]
fn the_push_out_of_a_lantern_agrees_with_floating_point() {
    let mut rng = StdRng::seed_from_u64(104);
    let mut pushed = 0;
    for _ in 0..2_000 {
        let lantern = raw(&mut rng, 10 * ONE);
        let offset = raw(&mut rng, 2 * ONE);
        let position = lantern.plus(&offset);
        let velocity = raw(&mut rng, 2 * ONE);
        let away = float(offset);
        if len(away) < 1e-2 || (len(away) - 1.5).abs() < 1e-4 {
            continue;
        }
        let (want_p, want_v) = if len(away) < 1.5 {
            pushed += 1;
            let direction = normalize_or_zero(away);
            (add(float(lantern), times(direction, 1.5)), times(direction, len(float(velocity))))
        } else {
            (float(position), float(velocity))
        };
        let (got_p, got_v) = resolve_collision(&position, &velocity, &lantern, 1_500_000);
        assert_close(got_p, want_p, 1e-5);
        assert_close(got_v, want_v, 1e-5);
    }
    assert!(pushed > 100);
}
