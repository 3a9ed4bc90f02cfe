//! The spatial index: a uniform grid of square cells, each holding the
//! identifiers of the entities that stand in it.

use crate::fixed::abs;
use bevy::platform::collections::{HashMap, HashSet};
use bevy::platform::hash::FixedHasher;
use vstd::prelude::*;

verus! {

/// Edge of a grid cell. It is chosen so that what a moth perceives fits
/// within about one cell.
pub const CELL_SIZE: i64 = 15_000_000;

/// A point of the plane over which the grid is laid.
#[derive(Clone, Copy, Debug, PartialEq, Eq, Structural)]
pub struct Vec2 {
    pub x: i64,
    pub y: i64,
}

/// The index of the grid interval that holds the coordinate `a`.
pub open spec fn cell_index(a: int) -> int {
    a / (CELL_SIZE as int)
}

/// The cell that holds `pos`.
pub open spec fn cell_of(pos: Vec2) -> (int, int) {
    (cell_index(pos.x as int), cell_index(pos.y as int))
}

/// The cell has a key in the index: both of its indices are `i32`s. Every
/// cell within two thousand million cells of the origin has one.
pub open spec fn in_grid(cell: (int, int)) -> bool {
    i32::MIN <= cell.0 <= i32::MAX && i32::MIN <= cell.1 <= i32::MAX
}

/// The key of a cell of the grid.
pub open spec fn key_of(cell: (int, int)) -> (i32, i32)
    recommends
        in_grid(cell),
{
    (cell.0 as i32, cell.1 as i32)
}

/// `cell` is `center` or one of its eight neighbours.
pub open spec fn in_block(center: (int, int), cell: (int, int)) -> bool {
    abs(cell.0 - center.0) <= 1 && abs(cell.1 - center.1) <= 1
}

/// The entities that `entries` files under the block of nine cells around
/// `center`.
pub open spec fn neighborhood(entries: Set<((i32, i32), u64)>, center: (int, int)) -> Set<u64> {
    Set::new(
        |id: u64|
            exists|cell: (i32, i32)|
                in_block(center, (cell.0 as int, cell.1 as int)) && entries.contains((cell, id)),
    )
}

/// The `k`-th cell of the block around `center`, taken column by column.
pub open spec fn block_cell(center: (int, int), k: int) -> (int, int) {
    (center.0 - 1 + k / 3, center.1 - 1 + k % 3)
}

/// Whether `entries` files `id` under `cell`. A cell without a key holds
/// nothing.
pub open spec fn files(entries: Set<((i32, i32), u64)>, cell: (int, int), id: u64) -> bool {
    in_grid(cell) && entries.contains((key_of(cell), id))
}

/// The number of cells, among the first `n` of the block around `center`,
/// under which `entries` files `id`.
pub open spec fn filings(entries: Set<((i32, i32), u64)>, center: (int, int), id: u64, n: int) -> nat
    decreases n,
{
    if n <= 0 {
        0
    } else {
        filings(entries, center, id, n - 1) + if files(entries, block_cell(center, n - 1), id) {
            1nat
        } else {
            0nat
        }
    }
}

/// The two points are within one cell size of each other.
pub open spec fn within_cell_size(a: Vec2, b: Vec2) -> bool {
    (a.x - b.x) * (a.x - b.x) + (a.y - b.y) * (a.y - b.y) <= CELL_SIZE * CELL_SIZE
}

/// `HashMap` of `bevy`'s platform collections. What a map of cells holds
/// is named by [`filed`]; nothing else is known of it.
#[verifier::external_type_specification]
#[verifier::external_body]
#[verifier::reject_recursive_types(K)]
#[verifier::reject_recursive_types(V)]
#[verifier::reject_recursive_types(S)]
pub struct ExHashMap<K, V, S>(HashMap<K, V, S>);

/// `HashSet` of `bevy`'s platform collections: the sets that the map of
/// cells holds.
#[verifier::external_type_specification]
#[verifier::external_body]
#[verifier::reject_recursive_types(T)]
#[verifier::reject_recursive_types(S)]
pub struct ExHashSet<T, S>(HashSet<T, S>);

/// `FixedHasher` of `bevy`'s platform hashing: the hasher of both
/// collections.
#[verifier::external_type_specification]
#[verifier::external_body]
pub struct ExFixedHasher(FixedHasher);

/// What the map holds: the pairs of a cell and an identifier filed under it.
pub uninterp spec fn filed(map: HashMap<(i32, i32), HashSet<u64>>) -> Set<((i32, i32), u64)>;

/// `HashMap::default` of `bevy`: a map that holds nothing.
#[verifier::external_body]
pub(crate) fn empty_map() -> (map: HashMap<(i32, i32), HashSet<u64>>)
    ensures
        filed(map) == Set::<((i32, i32), u64)>::empty(),
{
    HashMap::default()
}

/// `HashMap::entry`, `Entry::or_default` and `HashSet::insert` of `bevy`, as
/// one step: `id` is added to the set under `cell`, which is created when
/// the map has none; nothing else changes.
#[verifier::external_body]
pub(crate) fn file_under(map: &mut HashMap<(i32, i32), HashSet<u64>>, cell: (i32, i32), id: u64)
    ensures
        filed(*final(map)) == filed(*old(map)).insert((cell, id)),
{
    map.entry(cell).or_default().insert(id);
}

/// `HashMap::get` and `HashSet::iter` of `bevy`: the identifiers filed
/// under `cell`, each once, in the order in which the set hands them out.
#[verifier::external_body]
pub(crate) fn filed_under(map: &HashMap<(i32, i32), HashSet<u64>>, cell: (i32, i32)) -> (ids: Vec<
    u64,
>)
    ensures
        ids@.no_duplicates(),
        forall|id: u64| ids@.contains(id) <==> filed(*map).contains((cell, id)),
{
    map.get(&cell).into_iter().flatten().copied().collect()
}

/// A grid of cells, each with the set of entities that stand in it.
pub struct SpatialIndex {
    pub map: HashMap<(i32, i32), HashSet<u64>>,
}

impl View for SpatialIndex {
    type V = Set<((i32, i32), u64)>;

    /// The pairs of a cell and an entity filed under it.
    open spec fn view(&self) -> Set<((i32, i32), u64)> {
        filed(self.map)
    }
}

impl Vec2 {
    pub fn new(x: i64, y: i64) -> (v: Vec2)
        ensures
            v == (Vec2 { x, y }),
    {
        Vec2 { x, y }
    }

    /// Whether the cell that holds this point has a key in the index.
    pub fn is_in_grid(&self) -> (ok: bool)
        ensures
            ok == in_grid(cell_of(*self)),
    {
        fits_key(grid_index(self.x)) && fits_key(grid_index(self.y))
    }

    /// The key of the cell that holds this point.
    pub fn cell(&self) -> (cell: (i32, i32))
        requires
            in_grid(cell_of(*self)),
        ensures
            cell == key_of(cell_of(*self)),
            (cell.0 as int, cell.1 as int) == cell_of(*self),
    {
        (grid_index(self.x) as i32, grid_index(self.y) as i32)
    }
}

/// The index of the grid interval that holds `a`: `a / CELL_SIZE`, rounded down.
fn grid_index(a: i64) -> (index: i64)
    ensures
        index == cell_index(a as int),
{
    if a >= 0 {
        a / CELL_SIZE
    } else {
        -((-(a + 1)) / CELL_SIZE) - 1
    }
}

/// Whether a cell index is an `i32`.
fn fits_key(index: i64) -> (ok: bool)
    ensures
        ok == (i32::MIN <= index <= i32::MAX),
{
    -2_147_483_648 <= index && index <= 2_147_483_647
}

impl SpatialIndex {
    /// An index that holds nothing.
    pub fn new() -> (index: SpatialIndex)
        ensures
            index@ == Set::<((i32, i32), u64)>::empty(),
    {
        SpatialIndex { map: empty_map() }
    }

    /// Files `entity` under the cell that holds `position`. The cell must
    /// have a key, as every cell within the coordinate range has.
    pub fn insert(&mut self, entity: u64, position: Vec2)
        requires
            in_grid(cell_of(position)),
        ensures
            final(self)@ == old(self)@.insert((key_of(cell_of(position)), entity)),
    {
        let cell = position.cell();
        file_under(&mut self.map, cell, entity);
    }

    /// The entities filed under the cell of `pos` and its eight neighbours:
    /// every entity within one cell size of `pos`, and possibly others
    /// farther away. An entity comes once for each cell that files it.
    /// Every point may be asked for; where nothing is filed, nothing is
    /// returned.
    pub fn get_nearby(&self, pos: Vec2) -> (nearby: Vec<u64>)
        ensures
            nearby@.to_set() == neighborhood(self@, cell_of(pos)),
            forall|id: u64| nearby@.to_multiset().count(id) == filings(self@, cell_of(pos), id, 9),
    {
        let tile = (grid_index(pos.x), grid_index(pos.y));
        let ghost center = cell_of(pos);
        let mut nearby: Vec<u64> = Vec::new();
        let mut k: i64 = 0;
        proof {
            assert forall|id: u64| nearby@.to_multiset().count(id) == 0 by {
                lemma_count_once(nearby@, id);
            }
        }
        while k < 9
            invariant
                0 <= k <= 9,
                center == (tile.0 as int, tile.1 as int),
                center == cell_of(pos),
                forall|id: u64|
                    nearby@.to_multiset().count(id) == filings(self@, center, id, k as int),
            decreases 9 - k,
        {
            let column = tile.0 - 1 + k / 3;
            let row = tile.1 - 1 + k % 3;
            assert((column as int, row as int) == block_cell(center, k as int));
            if fits_key(column) && fits_key(row) {
                let mut ids = filed_under(&self.map, (column as i32, row as i32));
                proof {
                    let before = nearby@;
                    let after = nearby@ + ids@;
                    vstd::seq_lib::lemma_multiset_commutative(before, ids@);
                    assert forall|id: u64|
                        after.to_multiset().count(id) == filings(self@, center, id, k + 1) by {
                        lemma_count_once(ids@, id);
                    }
                }
                nearby.append(&mut ids);
            }
            k = k + 1;
        }
        proof {
            nearby@.to_multiset_ensures();
            assert forall|id: u64|
                nearby@.to_set().contains(id) <==> neighborhood(self@, center).contains(id) by {
                lemma_filings_block(self@, center, id, 9);
                assert(nearby@.contains(id) <==> nearby@.to_multiset().count(id) > 0);
                assert(nearby@.to_multiset().count(id) == filings(self@, center, id, 9));
            }
            assert(nearby@.to_set() =~= neighborhood(self@, center));
        }
        nearby
    }
}

impl Default for SpatialIndex {
    fn default() -> (index: SpatialIndex)
        ensures
            index@ == Set::<((i32, i32), u64)>::empty(),
    {
        SpatialIndex::new()
    }
}

/// A sequence without duplicates holds each of its values once.
pub proof fn lemma_count_once(s: Seq<u64>, id: u64)
    requires
        s.no_duplicates(),
    ensures
        s.to_multiset().count(id) == if s.contains(id) {
            1nat
        } else {
            0nat
        },
{
    s.to_multiset_ensures();
    if s.contains(id) {
        s.lemma_multiset_has_no_duplicates();
    }
}

/// An entity is filed under one of the first `n` cells of a block exactly
/// when its number of filings there is positive.
pub proof fn lemma_filings_block(entries: Set<((i32, i32), u64)>, center: (int, int), id: u64, n: int)
    requires
        0 <= n <= 9,
    ensures
        filings(entries, center, id, n) > 0 <==> exists|k: int|
            0 <= k < n && files(entries, #[trigger] block_cell(center, k), id),
        n == 9 ==> (filings(entries, center, id, n) > 0 <==> neighborhood(entries, center).contains(
            id,
        )),
    decreases n,
{
    if n > 0 {
        lemma_filings_block(entries, center, id, n - 1);
    }
    if n == 9 {
        if neighborhood(entries, center).contains(id) {
            let cell = choose|cell: (i32, i32)|
                in_block(center, (cell.0 as int, cell.1 as int)) && entries.contains((cell, id));
            let k = (cell.0 - center.0 + 1) * 3 + (cell.1 - center.1 + 1);
            assert(0 <= k < 9);
            assert((cell.0 as int, cell.1 as int) == block_cell(center, k));
            assert(key_of(block_cell(center, k)) == cell);
            assert(files(entries, block_cell(center, k), id));
        }
        if filings(entries, center, id, n) > 0 {
            let k = choose|k: int| 0 <= k < n && files(entries, #[trigger] block_cell(center, k), id);
            let cell = key_of(block_cell(center, k));
            assert(in_block(center, (cell.0 as int, cell.1 as int)));
        }
    }
}

/// Soundness of the index: an entity filed under the cell of its position
/// is among the neighbours of every query point within one cell size of it.
pub proof fn lemma_nearby_is_superset(
    entries: Set<((i32, i32), u64)>,
    entity: u64,
    position: Vec2,
    query: Vec2,
)
    requires
        files(entries, cell_of(position), entity),
        within_cell_size(position, query),
    ensures
        neighborhood(entries, cell_of(query)).contains(entity),
{
    let dx = position.x - query.x;
    let dy = position.y - query.y;
    let c = CELL_SIZE as int;
    assert(abs(dx) <= c && abs(dy) <= c) by (nonlinear_arith)
        requires
            dx * dx + dy * dy <= c * c,
            c > 0,
    ;
    let cell = key_of(cell_of(position));
    assert(in_block(cell_of(query), (cell.0 as int, cell.1 as int)));
}

} // verus!
