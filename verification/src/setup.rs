//! The first state of the simulation: lanterns hung in a square grid below
//! the ceiling, moths let loose near the middle of the room, and the
//! lanterns filed in the spatial index.

use crate::components::{lemma_speed_in_range, Lantern, Moth, Velocity};
use crate::config::{LanternConfig, MothConfig, RoomConfig, COORD_MAX};
use crate::fixed::{abs, lemma_mul_div_bound, mul_div, scale, ONE};
use crate::resources::{
    cell_of, lemma_nearby_is_superset, neighborhood, within_cell_size, SpatialIndex, Vec2,
};
use crate::rng::{random_range, random_range_inclusive};
use crate::systems::moth::{is_direction, lanterns_wf, moths_wf, random_direction};
use crate::timer::Timer;
use crate::vector::{least_norm2, lemma_with_length_norm, Vec3};
use rand::rngs::StdRng;
use vstd::prelude::*;

verus! {

/// Distance between neighbouring lanterns of the grid.
pub const LANTERN_SPACING: i64 = 5_000_000;

/// The least and the greatest depth below the ceiling at which a lantern
/// hangs; the greatest is not reached.
pub const LANTERN_DROP_MIN: i64 = 1_000_000;

pub const LANTERN_DROP_MAX: i64 = 5_000_000;

/// The number of lanterns along each side of the grid: as many as fit
/// across the room at the lantern spacing.
pub open spec fn grid_rows(room: RoomConfig) -> int {
    (2 * room.room_radius) / (LANTERN_SPACING as int)
}

/// The coordinate of row `i` of `rows`: the rows are centred on the axis
/// of the room.
pub open spec fn row_coordinate(i: int, rows: int) -> int {
    mul_div(2 * i - rows + 1, LANTERN_SPACING as int, 2)
}

/// `lantern` is hung as lantern `k` of a grid of `rows` by `rows`: dark
/// and rested, in row `k / rows` and column `k % rows`, between one and
/// five units below the ceiling, with a burning time from the configured
/// range.
pub open spec fn hung(
    lantern: Lantern,
    k: int,
    rows: int,
    room: RoomConfig,
    config: LanternConfig,
) -> bool {
    &&& lantern.wf()
    &&& !lantern.is_on
    &&& lantern.position.x == row_coordinate(k / rows, rows)
    &&& lantern.position.z == row_coordinate(k % rows, rows)
    &&& room.ceiling_height - LANTERN_DROP_MAX < lantern.position.y <= room.ceiling_height
        - LANTERN_DROP_MIN
    &&& lantern.cooldown == (Timer { duration: config.cooldown, elapsed: config.cooldown })
    &&& lantern.on_timer.elapsed == 0
    &&& config.on_time_min <= lantern.on_timer.duration <= config.on_time_max
}

/// The coordinate of row `i` of `rows`.
fn coordinate_of_row(i: u64, rows: u64) -> (x: i64)
    requires
        i < rows,
        rows * LANTERN_SPACING <= 2 * COORD_MAX,
    ensures
        x == row_coordinate(i as int, rows as int),
        abs(x as int) <= COORD_MAX,
{
    let steps: i64 = 2 * (i as i64) - (rows as i64) + 1;
    proof {
        lemma_mul_div_bound(steps as int, LANTERN_SPACING as int, 2, rows as int, LANTERN_SPACING as int);
        assert((rows * LANTERN_SPACING) / 2 <= COORD_MAX);
    }
    scale(steps, LANTERN_SPACING, 2)
}

/// Hangs the lanterns: a square grid at the lantern spacing, centred on
/// the axis of the room, each lantern at a depth below the ceiling and
/// with a burning time drawn at random. Every lantern is dark and has
/// rested, so that it may light on the first tick.
pub fn setup_lanterns(room: &RoomConfig, config: &LanternConfig, rng: &mut StdRng) -> (lanterns: Vec<
    Lantern,
>)
    requires
        room.wf(),
        config.wf(),
        room.ceiling_height - LANTERN_DROP_MAX >= -COORD_MAX,
    ensures
        lanterns@.len() == grid_rows(*room) * grid_rows(*room),
        forall|k: int|
            0 <= k < lanterns@.len() ==> hung(
                #[trigger] lanterns@[k],
                k,
                grid_rows(*room),
                *room,
                *config,
            ),
        lanterns_wf(lanterns@),
{
    let rows: u64 = ((2 * room.room_radius) / LANTERN_SPACING) as u64;
    assert(rows * rows <= 400_000 * 400_000) by (nonlinear_arith)
        requires
            rows <= 400_000,
    ;
    let count: u64 = rows * rows;
    let mut lanterns: Vec<Lantern> = Vec::new();
    let mut k: u64 = 0;
    while k < count
        invariant
            0 <= k <= count,
            count == rows * rows,
            rows == grid_rows(*room),
            rows <= 400_000,
            room.wf(),
            config.wf(),
            room.ceiling_height - LANTERN_DROP_MAX >= -COORD_MAX,
            lanterns@.len() == k,
            forall|n: int|
                0 <= n < k ==> hung(#[trigger] lanterns@[n], n, rows as int, *room, *config),
        decreases count - k,
    {
        assert(rows > 0 && k / rows < rows && k % rows < rows) by (nonlinear_arith)
            requires
                k < rows * rows,
                rows >= 0,
        ;
        let x = coordinate_of_row(k / rows, rows);
        let z = coordinate_of_row(k % rows, rows);
        let y = room.ceiling_height - random_range(rng, LANTERN_DROP_MIN, LANTERN_DROP_MAX);
        let mut lantern = Lantern::new(Vec3::new(x, y, z), config.cooldown);
        lantern.on_timer = Timer::new(
            random_range_inclusive(rng, config.on_time_min as i64, config.on_time_max as i64) as u64,
        );
        lanterns.push(lantern);
        k = k + 1;
    }
    lanterns
}

/// Half the width of the box in which moths are let loose; the box is
/// centred on the axis of the room.
pub const SPAWN_HALF_WIDTH: i64 = 5_000_000;

/// The height of the bottom of the box, and the height that its top does
/// not reach.
pub const SPAWN_BOTTOM: i64 = 1_000_000;

pub const SPAWN_TOP: i64 = 4_000_000;

/// `moth` is let loose: flying from a place in the box, in a direction
/// drawn at random, at the configured speed but for the rounding.
pub open spec fn let_loose(moth: Moth, config: MothConfig) -> bool {
    &&& moth.is_flying()
    &&& -SPAWN_HALF_WIDTH <= moth.position.x < SPAWN_HALF_WIDTH
    &&& SPAWN_BOTTOM <= moth.position.y < SPAWN_TOP
    &&& -SPAWN_HALF_WIDTH <= moth.position.z < SPAWN_HALF_WIDTH
    &&& moth.facing@ == crate::vector::Vector::zero()
    &&& exists|direction: Vec3|
        is_direction(direction) && moth.velocity.0@ == #[trigger] direction@.with_length(
            config.moth_speed as int,
        )
    &&& moth.keeps_to(config.moth_speed as int)
    &&& ONE * moth.velocity.0@.norm2() >= least_norm2(config.moth_speed as int)
}

/// Lets the configured number of moths loose.
pub fn setup_moths(config: &MothConfig, rng: &mut StdRng) -> (moths: Vec<Moth>)
    requires
        config.wf(),
    ensures
        moths@.len() == config.moth_count,
        forall|i: int| 0 <= i < moths@.len() ==> let_loose(#[trigger] moths@[i], *config),
        moths_wf(moths@),
        forall|i: int|
            0 <= i < moths@.len() ==> (#[trigger] moths@[i]).keeps_to(config.moth_speed as int),
{
    let mut moths: Vec<Moth> = Vec::new();
    let mut i: usize = 0;
    while i < config.moth_count
        invariant
            0 <= i <= config.moth_count,
            config.wf(),
            moths@.len() == i,
            forall|j: int| 0 <= j < i ==> let_loose(#[trigger] moths@[j], *config),
            forall|j: int| 0 <= j < i ==> (#[trigger] moths@[j]).wf(),
            forall|j: int| 0 <= j < i ==> (#[trigger] moths@[j]).keeps_to(config.moth_speed as int),
        decreases config.moth_count - i,
    {
        let x = random_range(rng, -SPAWN_HALF_WIDTH, SPAWN_HALF_WIDTH);
        let y = random_range(rng, SPAWN_BOTTOM, SPAWN_TOP);
        let z = random_range(rng, -SPAWN_HALF_WIDTH, SPAWN_HALF_WIDTH);
        let direction = random_direction(rng);
        proof {
            lemma_with_length_norm(direction@, config.moth_speed as int);
            lemma_speed_in_range(
                direction@.with_length(config.moth_speed as int),
                config.moth_speed as int,
            );
        }
        let moth = Moth::new(
            Vec3::new(x, y, z),
            Velocity(direction.with_length(config.moth_speed)),
        );
        assert(let_loose(moth, *config));
        moths.push(moth);
        i = i + 1;
    }
    moths
}

/// The filings of the lanterns: each under the cell it names, by its
/// place in the sequence.
pub open spec fn filings_of(lanterns: Seq<Lantern>) -> Set<((i32, i32), u64)> {
    Set::new(
        |pair: ((i32, i32), u64)|
            exists|i: int|
                0 <= i < lanterns.len() && pair == ((#[trigger] lanterns[i]).grid_pos, i as u64),
    )
}

/// Files every lantern in the index, under the cell that holds it and by
/// its place in the sequence.
pub fn setup_lantern_index(spatial_index: &mut SpatialIndex, lanterns: &[Lantern])
    requires
        lanterns_wf(lanterns@),
    ensures
        final(spatial_index)@ == old(spatial_index)@.union(filings_of(lanterns@)),
{
    let ghost before = spatial_index@;
    let mut i: usize = 0;
    while i < lanterns.len()
        invariant
            0 <= i <= lanterns.len(),
            lanterns_wf(lanterns@),
            spatial_index@ == before.union(filings_of(lanterns@.take(i as int))),
        decreases lanterns.len() - i,
    {
        let lantern = &lanterns[i];
        assert(lantern.wf());
        let ghost filed_before = spatial_index@;
        spatial_index.insert(i as u64, Vec2::new(lantern.position.x, lantern.position.y));
        proof {
            let shorter = lanterns@.take(i as int);
            let longer = lanterns@.take(i + 1);
            let pair = (lantern.grid_pos, i as u64);
            assert(spatial_index@ == filed_before.insert(pair));
            assert forall|p: ((i32, i32), u64)|
                filings_of(longer).contains(p) <==> filings_of(shorter).contains(p) || p
                    == pair by {
                if filings_of(shorter).contains(p) {
                    let n = choose|n: int|
                        0 <= n < shorter.len() && p == ((#[trigger] shorter[n]).grid_pos, n as u64);
                    assert(longer[n] == shorter[n]);
                }
                if p == pair {
                    assert(longer[i as int] == *lantern);
                }
                if filings_of(longer).contains(p) {
                    let n = choose|n: int|
                        0 <= n < longer.len() && p == ((#[trigger] longer[n]).grid_pos, n as u64);
                    if n < i {
                        assert(shorter[n] == longer[n]);
                    } else {
                        assert(longer[n] == *lantern);
                    }
                }
            }
            assert(spatial_index@ =~= before.union(filings_of(longer)));
        }
        i = i + 1;
    }
    proof {
        assert(lanterns@.take(lanterns.len() as int) =~= lanterns@);
        assert(filings_of(lanterns@.take(0)) =~= Set::<((i32, i32), u64)>::empty()) by {
            assert forall|p: ((i32, i32), u64)| !filings_of(lanterns@.take(0)).contains(p) by {}
        }
    }
}

/// Soundness of the lantern index: a lantern that is filed, and whose
/// footprint is within one cell size of a query point, is among the
/// neighbours that the index names for that point.
pub proof fn lemma_filed_lantern_is_nearby(
    index: Set<((i32, i32), u64)>,
    lanterns: Seq<Lantern>,
    i: int,
    query: Vec2,
)
    requires
        lanterns_wf(lanterns),
        filings_of(lanterns).subset_of(index),
        0 <= i < lanterns.len(),
        within_cell_size(lanterns[i].footprint(), query),
    ensures
        neighborhood(index, cell_of(query)).contains(i as u64),
{
    let lantern = lanterns[i];
    assert(lantern.wf());
    assert(filings_of(lanterns).contains((lantern.grid_pos, i as u64)));
    lemma_nearby_is_superset(index, i as u64, lantern.footprint(), query);
}

} // verus!
