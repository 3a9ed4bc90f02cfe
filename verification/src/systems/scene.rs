//! The walls of the room: an upright cylinder between floor and ceiling
//! that no moth leaves.

use crate::components::{Moth, Velocity};
use crate::config::{RoomConfig, COORD_MAX};
use crate::fixed::{
    abs, is_sqrt_floor, lemma_mul_div_bound, lemma_mul_div_remainder, lemma_sqrt_floor_exists, ONE,
    ONE_SQUARED, SCALAR_MAX,
};
use crate::vector::{
    least_norm2, lemma_least_norm2_below, lemma_mul_div_within, lemma_norm2_within,
    lemma_product_bound, lemma_scaled_within, lemma_unit_norm, lemma_unit_within,
    lemma_with_length_norm, lemma_within_by_norm, Vec3, Vector, REACH,
};
use vstd::prelude::*;

verus! {

/// The part of `v` that lies in the horizontal plane.
pub open spec fn horizontal(v: Vector) -> Vector {
    Vector { x: v.x, y: 0, z: v.z }
}

/// `v` mirrored at the plane through the origin whose normal is `normal`, a
/// vector of length `ONE`: `v` less twice its part along the normal.
pub open spec fn mirrored(v: Vector, normal: Vector) -> Vector {
    v.minus(normal.scaled(2 * v.dot(normal), ONE_SQUARED as int))
}

/// Position and velocity of a moth that the wall of radius `radius` has
/// held back.
///
/// A moth beyond the wall is set back onto it, along the line from the
/// axis of the room. If it was flying outward, its horizontal velocity is
/// mirrored at the wall and given its former horizontal speed, rounded
/// down. The vertical parts of both are left alone.
pub open spec fn held_by_wall(position: Vector, velocity: Vector, radius: int) -> (Vector, Vector) {
    let out = horizontal(position);
    if out.norm2() > radius * radius {
        let held = out.with_length(radius);
        let flat = horizontal(velocity);
        let turned = if flat.dot(out) > 0 {
            mirrored(flat, out.unit()).with_length(flat.length())
        } else {
            flat
        };
        (
            Vector { x: held.x, y: position.y, z: held.z },
            Vector { x: turned.x, y: velocity.y, z: turned.z },
        )
    } else {
        (position, velocity)
    }
}

/// Position and velocity of a moth that floor and ceiling have held back:
/// a moth above the ceiling is set onto it and flies downward or level, one
/// below the floor is set onto it and flies upward or level.
pub open spec fn held_by_floor_and_ceiling(
    position: Vector,
    velocity: Vector,
    floor: int,
    ceiling: int,
) -> (Vector, Vector) {
    if position.y > ceiling {
        (Vector { y: ceiling, ..position }, Vector { y: -abs(velocity.y), ..velocity })
    } else if position.y < floor {
        (Vector { y: floor, ..position }, Vector { y: abs(velocity.y), ..velocity })
    } else {
        (position, velocity)
    }
}

/// Position and velocity of a moth that the room has held back: by its
/// wall, then by its floor and ceiling.
pub open spec fn kept_in(position: Vector, velocity: Vector, room: RoomConfig) -> (Vector, Vector) {
    let (p, v) = held_by_wall(position, velocity, room.room_radius as int);
    held_by_floor_and_ceiling(p, v, room.floor_height as int, room.ceiling_height as int)
}

/// The point lies inside the room or on its boundary.
pub open spec fn contained(position: Vector, room: RoomConfig) -> bool {
    &&& horizontal(position).norm2() <= room.room_radius * room.room_radius
    &&& room.floor_height <= position.y <= room.ceiling_height
}

/// The square of a dot product is at most the product of the squared
/// lengths, here for vectors of two components.
proof fn lemma_cauchy_schwarz(fx: int, fz: int, nx: int, nz: int)
    ensures
        0 <= (fx * nx + fz * nz) * (fx * nx + fz * nz) <= (fx * fx + fz * fz) * (nx * nx + nz * nz),
{
    let (p, q, r, s) = (fx * nx, fz * nz, fx * nz, fz * nx);
    let (a, b, c, d) = (fx * fx, fz * fz, nx * nx, nz * nz);
    assert(p * q == r * s) by (nonlinear_arith)
        requires
            p == fx * nx,
            q == fz * nz,
            r == fx * nz,
            s == fz * nx,
    ;
    assert(a * c == p * p && b * d == q * q && a * d == r * r && b * c == s * s)
        by (nonlinear_arith)
        requires
            p == fx * nx,
            q == fz * nz,
            r == fx * nz,
            s == fz * nx,
            a == fx * fx,
            b == fz * fz,
            c == nx * nx,
            d == nz * nz,
    ;
    assert((a + b) * (c + d) == a * c + a * d + b * c + b * d) by (nonlinear_arith);
    assert((p + q) * (p + q) == p * p + 2 * (p * q) + q * q) by (nonlinear_arith);
    assert((r - s) * (r - s) == r * r - 2 * (r * s) + s * s && (r - s) * (r - s) >= 0)
        by (nonlinear_arith);
    assert((p + q) * (p + q) >= 0) by (nonlinear_arith);
}

/// The square of `scale * f - 2 * a * n`, multiplied out.
proof fn lemma_mirror_square(scale: int, f: int, n: int, a: int)
    ensures
        (scale * f - n * (2 * a)) * (scale * f - n * (2 * a)) == (scale * scale) * (f * f) - 4
            * scale * (a * (f * n)) + 4 * ((a * a) * (n * n)),
{
    let u = scale * f;
    let w = a * n;
    let e = u - 2 * w;
    assert(n * (2 * a) == 2 * w) by (nonlinear_arith)
        requires
            w == a * n,
    ;
    assert(e * e == u * u - 4 * (u * w) + 4 * (w * w)) by (nonlinear_arith)
        requires
            e == u - 2 * w,
    ;
    assert(u * u == (scale * scale) * (f * f)) by (nonlinear_arith)
        requires
            u == scale * f,
    ;
    assert(u * w == scale * (a * (f * n))) by (nonlinear_arith)
        requires
            u == scale * f,
            w == a * n,
    ;
    assert(w * w == (a * a) * (n * n)) by (nonlinear_arith)
        requires
            w == a * n,
    ;
    assert(4 * (scale * (a * (f * n))) == 4 * scale * (a * (f * n))) by (nonlinear_arith);
}

/// A horizontal vector of more than a raw unit or two does not vanish
/// when it is mirrored at a normal of about length `ONE`.
pub proof fn lemma_mirrored_not_zero(flat: Vector, normal: Vector)
    requires
        flat.y == 0,
        normal.y == 0,
        ONE * ONE - 5 * ONE <= normal.norm2() <= ONE * ONE,
        flat.norm2() >= 3,
    ensures
        mirrored(flat, normal) != Vector::zero(),
{
    let one2 = ONE_SQUARED as int;
    let (fx, fz, nx, nz) = (flat.x, flat.z, normal.x, normal.z);
    let a = fx * nx + fz * nz;
    let f2 = fx * fx + fz * fz;
    let n2 = nx * nx + nz * nz;
    assert(flat.dot(normal) == a && flat.norm2() == f2 && normal.norm2() == n2)
        by (nonlinear_arith)
        requires
            flat.dot(normal) == flat.x * normal.x + flat.y * normal.y + flat.z * normal.z,
            flat.norm2() == flat.x * flat.x + flat.y * flat.y + flat.z * flat.z,
            normal.norm2() == normal.x * normal.x + normal.y * normal.y + normal.z * normal.z,
            flat.y == 0,
            normal.y == 0,
            a == flat.x * normal.x + flat.z * normal.z,
            f2 == flat.x * flat.x + flat.z * flat.z,
            n2 == normal.x * normal.x + normal.z * normal.z,
    ;
    if mirrored(flat, normal) == Vector::zero() {
        lemma_mul_div_remainder(nx, 2 * a, one2);
        lemma_mul_div_remainder(nz, 2 * a, one2);
        let e1 = one2 * fx - nx * (2 * a);
        let e2 = one2 * fz - nz * (2 * a);
        assert(e1 * e1 < one2 * one2 && e2 * e2 < one2 * one2) by (nonlinear_arith)
            requires
                abs(e1) < one2,
                abs(e2) < one2,
        ;
        let a2 = a * a;
        lemma_cauchy_schwarz(fx, fz, nx, nz);
        lemma_mirror_square(one2, fx, nx, a);
        lemma_mirror_square(one2, fz, nz, a);
        let (tx, tz) = (a * (fx * nx), a * (fz * nz));
        assert(tx + tz == a2) by (nonlinear_arith)
            requires
                a == fx * nx + fz * nz,
                a2 == a * a,
                tx == a * (fx * nx),
                tz == a * (fz * nz),
        ;
        let (cx, cz) = (nx * nx, nz * nz);
        assert(a2 * cx + a2 * cz == a2 * n2) by (nonlinear_arith)
            requires
                n2 == cx + cz,
        ;
        let (gx, gz) = (fx * fx, fz * fz);
        let one4 = one2 * one2;
        assert(one4 * gx + one4 * gz == one4 * f2) by (nonlinear_arith)
            requires
                f2 == gx + gz,
        ;
        assert(4 * one2 * tx + 4 * one2 * tz == 4 * one2 * a2) by (nonlinear_arith)
            requires
                tx + tz == a2,
        ;
        let lost = a2 * (one2 - n2);
        assert(lost == one2 * a2 - a2 * n2) by (nonlinear_arith)
            requires
                lost == a2 * (one2 - n2),
        ;
        assert(e1 * e1 + e2 * e2 == one4 * f2 - 4 * lost);
        assert(lost <= a2 * (5 * ONE) && a2 * (5 * ONE) <= (f2 * n2) * (5 * ONE) && (f2 * n2) * (5
            * ONE) <= (f2 * one2) * (5 * ONE)) by (nonlinear_arith)
            requires
                lost == a2 * (one2 - n2),
                0 <= a2 <= f2 * n2,
                0 <= n2 <= one2,
                0 <= one2 - n2 <= 5 * ONE,
                f2 >= 0,
        ;
        assert(false) by (nonlinear_arith)
            requires
                e1 * e1 + e2 * e2 == one4 * f2 - 4 * lost,
                e1 * e1 < one4,
                e2 * e2 < one4,
                lost <= (f2 * one2) * (5 * ONE),
                f2 >= 3,
                one2 == 1_000_000_000_000,
                one4 == one2 * one2,
        ;
    }
}

/// A vector in the horizontal plane stays in it when it is given a length.
pub proof fn lemma_with_length_flat(v: Vector, len: int)
    requires
        v.within(SCALAR_MAX as int),
        v.y == 0,
        len >= 0,
    ensures
        v.with_length(len).y == 0,
        v.unit().y == 0,
{
    lemma_unit_within(v);
    lemma_mul_div_within(v.unit().y, len, ONE as int);
}

/// Holds a moth back at the wall: see [`held_by_wall`].
pub fn hold_at_wall(position: &Vec3, velocity: &Vec3, radius: i64) -> (held: (Vec3, Vec3))
    requires
        position@.within(REACH as int),
        velocity@.within(COORD_MAX as int),
        0 <= radius <= COORD_MAX,
    ensures
        (held.0@, held.1@) == held_by_wall(position@, velocity@, radius as int),
        horizontal(held.0@).norm2() <= radius * radius,
        held.0.y == position.y,
        held.1.y == velocity.y,
        abs(held.0.x as int) <= COORD_MAX,
        abs(held.0.z as int) <= COORD_MAX,
        horizontal(held.1@).norm2() <= horizontal(velocity@).norm2(),
        horizontal(velocity@).norm2() >= 3 || horizontal(held.1@) != Vector::zero() ==> ONE
            * horizontal(held.1@).norm2() >= least_norm2(horizontal(velocity@).length()),
        velocity@ == Vector::zero() ==> held.1@ == Vector::zero(),
{
    proof {
        let flat = horizontal(velocity@);
        lemma_norm2_within(flat, COORD_MAX as int);
        lemma_sqrt_floor_exists(flat.norm2());
        lemma_least_norm2_below(flat.length());
    }
    let out = Vec3 { x: position.x, y: 0, z: position.z };
    let n2 = out.norm2();
    proof {
        assert(radius * radius <= COORD_MAX * COORD_MAX) by (nonlinear_arith)
            requires
                0 <= radius <= COORD_MAX,
        ;
    }
    let r2 = (radius as u128) * (radius as u128);
    if n2 > r2 {
        let held = out.with_length(radius);
        let flat = Vec3 { x: velocity.x, y: 0, z: velocity.z };
        proof {
            lemma_with_length_norm(out@, radius as int);
            lemma_with_length_flat(out@, radius as int);
            lemma_unit_within(out@);
            lemma_norm2_within(flat@, COORD_MAX as int);
        }
        let turned = if flat.dot(&out) > 0 {
            let normal = out.normalize_or_zero();
            let along = flat.dot(&normal);
            proof {
                lemma_product_bound(flat.x as int, normal.x as int, COORD_MAX as int, ONE as int);
                lemma_product_bound(flat.z as int, normal.z as int, COORD_MAX as int, ONE as int);
                assert(flat.y * normal.y == 0) by (nonlinear_arith)
                    requires
                        flat.y == 0,
                ;
                lemma_scaled_within(
                    normal@,
                    2 * along as int,
                    ONE_SQUARED as int,
                    ONE as int,
                    4 * (COORD_MAX * ONE),
                );
            }
            let twice = (2 * along) as i64;
            let mirror = flat.minus(&normal.scaled(twice, ONE_SQUARED as u128));
            let speed = flat.length();
            proof {
                let n = flat@.norm2();
                lemma_sqrt_floor_exists(n);
                assert(is_sqrt_floor(n, speed as int));
                assert(mirror@.y == 0) by {
                    lemma_mul_div_bound(
                        0,
                        2 * along as int,
                        ONE_SQUARED as int,
                        0,
                        abs(2 * along as int),
                    );
                }
                lemma_with_length_norm(mirror@, speed as int);
                lemma_with_length_flat(mirror@, speed as int);
                if n >= 3 {
                    lemma_norm2_within(out@, SCALAR_MAX as int);
                    lemma_unit_norm(out@);
                    lemma_mirrored_not_zero(flat@, normal@);
                }
            }
            mirror.with_length(speed)
        } else {
            flat
        };
        proof {
            assert(flat@ == Vector::zero() ==> flat@.dot(out@) == 0) by (nonlinear_arith)
                requires
                    flat@.dot(out@) == flat.x * out.x + flat.y * out.y + flat.z * out.z,
            ;
        }
        (
            Vec3 { x: held.x, y: position.y, z: held.z },
            Vec3 { x: turned.x, y: velocity.y, z: turned.z },
        )
    } else {
        proof {
            lemma_within_by_norm(out@, radius as int);
        }
        (*position, *velocity)
    }
}

/// Holds a moth back at floor and ceiling: see
/// [`held_by_floor_and_ceiling`].
pub fn hold_at_floor_and_ceiling(position: &Vec3, velocity: &Vec3, floor: i64, ceiling: i64) -> (held:
    (Vec3, Vec3))
    requires
        velocity@.within(COORD_MAX as int),
        floor <= ceiling,
    ensures
        (held.0@, held.1@) == held_by_floor_and_ceiling(
            position@,
            velocity@,
            floor as int,
            ceiling as int,
        ),
        floor <= held.0.y <= ceiling,
        held.0.x == position.x && held.0.z == position.z,
        held.1.x == velocity.x && held.1.z == velocity.z,
        abs(held.1.y as int) == abs(velocity.y as int),
{
    if position.y > ceiling {
        let down = if velocity.y > 0 {
            -velocity.y
        } else {
            velocity.y
        };
        (
            Vec3 { x: position.x, y: ceiling, z: position.z },
            Vec3 { x: velocity.x, y: down, z: velocity.z },
        )
    } else if position.y < floor {
        let up = if velocity.y < 0 {
            -velocity.y
        } else {
            velocity.y
        };
        (Vec3 { x: position.x, y: floor, z: position.z }, Vec3 { x: velocity.x, y: up, z: velocity.z })
    } else {
        (*position, *velocity)
    }
}

/// The room has left a moth its speed, but for the rounding: the vertical
/// speed is what it was, and so is the horizontal speed, up to the rounding
/// of a turn at the wall, unless it was below two raw units.
pub open spec fn speed_kept(before: Vector, after: Vector) -> bool {
    &&& abs(after.y) == abs(before.y)
    &&& horizontal(after).norm2() <= horizontal(before).norm2()
    &&& horizontal(before).norm2() >= 3 ==> ONE * horizontal(after).norm2() >= least_norm2(
        horizontal(before).length(),
    )
}

/// Keeps one moth in the room: see [`kept_in`]. Afterwards the moth is
/// inside the room or on its boundary, and as fast as it was but for the
/// rounding.
pub fn keep_in(moth: &mut Moth, room: &RoomConfig)
    requires
        old(moth).wf_within(REACH as int),
        room.wf(),
    ensures
        (final(moth).position@, final(moth).velocity.0@) == kept_in(
            old(moth).position@,
            old(moth).velocity.0@,
            *room,
        ),
        final(moth).facing == old(moth).facing,
        final(moth).landed == old(moth).landed,
        contained(final(moth).position@, *room),
        final(moth).velocity.0@.norm2() <= old(moth).velocity.0@.norm2(),
        speed_kept(old(moth).velocity.0@, final(moth).velocity.0@),
        final(moth).wf(),
{
    let at_wall = hold_at_wall(&moth.position, &moth.velocity.0, room.room_radius);
    proof {
        let v = moth.velocity.0@;
        let w = at_wall.1@;
        assert(v.norm2() == horizontal(v).norm2() + v.y * v.y) by (nonlinear_arith)
            requires
                v.norm2() == v.x * v.x + v.y * v.y + v.z * v.z,
                horizontal(v).norm2() == v.x * v.x + 0 * 0 + v.z * v.z,
        ;
        assert(w.norm2() == horizontal(w).norm2() + w.y * w.y) by (nonlinear_arith)
            requires
                w.norm2() == w.x * w.x + w.y * w.y + w.z * w.z,
                horizontal(w).norm2() == w.x * w.x + 0 * 0 + w.z * w.z,
        ;
        lemma_within_by_norm(w, COORD_MAX as int);
    }
    let held = hold_at_floor_and_ceiling(
        &at_wall.0,
        &at_wall.1,
        room.floor_height,
        room.ceiling_height,
    );
    proof {
        let w = at_wall.1@;
        let u = held.1@;
        assert(u.y * u.y == w.y * w.y) by (nonlinear_arith)
            requires
                abs(u.y) == abs(w.y),
        ;
        assert(u.norm2() == w.norm2()) by (nonlinear_arith)
            requires
                u.x == w.x,
                u.z == w.z,
                u.y * u.y == w.y * w.y,
                u.norm2() == u.x * u.x + u.y * u.y + u.z * u.z,
                w.norm2() == w.x * w.x + w.y * w.y + w.z * w.z,
        ;
        lemma_within_by_norm(u, COORD_MAX as int);
        assert(horizontal(held.0@) == horizontal(at_wall.0@));
    }
    moth.position = held.0;
    moth.velocity = Velocity(held.1);
}

/// Keeps every moth in the room. Afterwards every moth is inside the room
/// or on its boundary, and as fast as it was but for the rounding.
pub fn enforce_boundary_system(moths: &mut Vec<Moth>, room: &RoomConfig)
    requires
        forall|i: int| 0 <= i < old(moths)@.len() ==> (#[trigger] old(moths)@[i]).wf_within(REACH as int),
        room.wf(),
    ensures
        final(moths)@.len() == old(moths)@.len(),
        forall|i: int|
            0 <= i < old(moths)@.len() ==> {
                let before = old(moths)@[i];
                let after = #[trigger] final(moths)@[i];
                &&& (after.position@, after.velocity.0@) == kept_in(
                    before.position@,
                    before.velocity.0@,
                    *room,
                )
                &&& after.facing == before.facing
                &&& after.landed == before.landed
                &&& contained(after.position@, *room)
                &&& after.velocity.0@.norm2() <= before.velocity.0@.norm2()
                &&& speed_kept(before.velocity.0@, after.velocity.0@)
                &&& after.wf()
            },
{
    let ghost before = moths@;
    let mut i: usize = 0;
    while i < moths.len()
        invariant
            0 <= i <= moths.len(),
            moths@.len() == before.len(),
            room.wf(),
            forall|j: int| 0 <= j < before.len() ==> (#[trigger] before[j]).wf_within(REACH as int),
            forall|j: int| i <= j < before.len() ==> moths@[j] == before[j],
            forall|j: int|
                0 <= j < i ==> {
                    let old_moth = before[j];
                    let after = #[trigger] moths@[j];
                    &&& (after.position@, after.velocity.0@) == kept_in(
                        old_moth.position@,
                        old_moth.velocity.0@,
                        *room,
                    )
                    &&& after.facing == old_moth.facing
                    &&& after.landed == old_moth.landed
                    &&& contained(after.position@, *room)
                    &&& after.velocity.0@.norm2() <= old_moth.velocity.0@.norm2()
                    &&& speed_kept(old_moth.velocity.0@, after.velocity.0@)
                    &&& after.wf()
                },
        decreases moths.len() - i,
    {
        let mut moth = moths[i];
        assert(moth == before[i as int]);
        assert(moth.wf_within(REACH as int));
        keep_in(&mut moth, room);
        moths.set(i, moth);
        i = i + 1;
    }
}

} // verus!
