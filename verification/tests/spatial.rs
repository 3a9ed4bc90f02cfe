use phototaxis::components::Lantern;
use phototaxis::fixed::ONE;
use phototaxis::resources::{SpatialIndex, Vec2, CELL_SIZE};
use phototaxis::setup::setup_lantern_index;
use phototaxis::vector::Vec3;

fn sorted(mut ids: Vec<u64>) -> Vec<u64> {
    ids.sort();
    ids
}

#[test]
fn an_empty_region_has_no_neighbours() {
    let index = SpatialIndex::new();
    assert_eq!(index.get_nearby(Vec2::new(0, 0)), Vec::<u64>::new());

    let mut index = SpatialIndex::default();
    index.insert(1, Vec2::new(0, 0));
    assert_eq!(index.get_nearby(Vec2::new(10 * CELL_SIZE, 0)), Vec::<u64>::new());
}

#[test]
fn cells_are_floored_toward_negative_infinity() {
    assert_eq!(Vec2::new(0, 0).cell(), (0, 0));
    assert_eq!(Vec2::new(CELL_SIZE - 1, CELL_SIZE).cell(), (0, 1));
    assert_eq!(Vec2::new(-1, -CELL_SIZE).cell(), (-1, -1));
    assert_eq!(Vec2::new(-CELL_SIZE - 1, 2 * CELL_SIZE + 5).cell(), (-2, 2));
}

#[test]
fn the_block_of_nine_cells_is_searched_and_no_more() {
    let mut index = SpatialIndex::new();
    let mut id = 0;
    for cx in -2..=2i64 {
        for cy in -2..=2i64 {
            index.insert(id, Vec2::new(cx * CELL_SIZE + ONE, cy * CELL_SIZE + ONE));
            id += 1;
        }
    }
    // identifiers run column by column: id = (cx + 2) * 5 + (cy + 2)
    let found = sorted(index.get_nearby(Vec2::new(7 * ONE, 7 * ONE)));
    assert_eq!(found, vec![6, 7, 8, 11, 12, 13, 16, 17, 18]);

    let found = sorted(index.get_nearby(Vec2::new(2 * CELL_SIZE + 1, -2 * CELL_SIZE + 1)));
    assert_eq!(found, vec![15, 16, 20, 21]);
}

#[test]
fn an_entity_comes_once_for_each_cell_that_files_it() {
    let mut index = SpatialIndex::new();
    index.insert(7, Vec2::new(ONE, ONE));
    index.insert(7, Vec2::new(2 * ONE, 2 * ONE));
    index.insert(7, Vec2::new(CELL_SIZE + ONE, ONE));
    index.insert(8, Vec2::new(ONE, ONE));
    assert_eq!(sorted(index.get_nearby(Vec2::new(0, 0))), vec![7, 7, 8]);
}

#[test]
fn every_entity_within_one_cell_size_is_among_the_neighbours() {
    let mut index = SpatialIndex::new();
    let mut places: Vec<Vec2> = Vec::new();
    let mut state: u64 = 0x9E37_79B9_7F4A_7C15;
    let mut next = |span: i64| {
        state = state
            .wrapping_mul(6_364_136_223_846_793_005)
            .wrapping_add(1_442_695_040_888_963_407);
        ((state >> 33) as i64 % (2 * span)) - span
    };
    for id in 0..300u64 {
        let place = Vec2::new(next(60 * ONE), next(60 * ONE));
        index.insert(id, place);
        places.push(place);
    }
    for _ in 0..200 {
        let query = Vec2::new(next(70 * ONE), next(70 * ONE));
        let nearby = index.get_nearby(query);
        for (id, place) in places.iter().enumerate() {
            let dx = (place.x - query.x) as i128;
            let dy = (place.y - query.y) as i128;
            if dx * dx + dy * dy <= (CELL_SIZE as i128) * (CELL_SIZE as i128) {
                assert!(nearby.contains(&(id as u64)));
            }
        }
        for id in &nearby {
            let place = places[*id as usize];
            assert!((place.x - query.x).abs() <= 2 * CELL_SIZE);
            assert!((place.y - query.y).abs() <= 2 * CELL_SIZE);
        }
    }
}

#[test]
fn lanterns_are_filed_by_their_place_in_the_sequence() {
    let lanterns = vec![
        Lantern::new(Vec3::from_units(0, 5, 0), 0),
        Lantern::new(Vec3::from_units(100, 5, 0), 0),
        Lantern::new(Vec3::from_units(14, 14, 14), 0),
    ];
    let mut index = SpatialIndex::new();
    setup_lantern_index(&mut index, &lanterns);

    assert_eq!(sorted(index.get_nearby(Vec2::new(ONE, ONE))), vec![0, 2]);
    assert_eq!(sorted(index.get_nearby(Vec2::new(95 * ONE, 0))), vec![1]);
}

#[test]
fn a_query_far_outside_the_arena_finds_nothing() {
    let mut index = SpatialIndex::new();
    index.insert(1, Vec2::new(0, 0));
    let far = 1_000_000_000_000 * ONE;
    assert!(!Vec2::new(far, 0).is_in_grid());
    assert_eq!(index.get_nearby(Vec2::new(far, 0)), Vec::<u64>::new());
    assert_eq!(index.get_nearby(Vec2::new(-far, far)), Vec::<u64>::new());
    assert_eq!(index.get_nearby(Vec2::new(i64::MAX, i64::MIN)), Vec::<u64>::new());
    assert_eq!(SpatialIndex::new().get_nearby(Vec2::new(far, 0)), Vec::<u64>::new());
}

#[test]
fn the_edge_of_the_grid_is_searched_as_far_as_it_has_cells() {
    let last = i32::MAX as i64 * CELL_SIZE;
    let first = i32::MIN as i64 * CELL_SIZE;
    assert!(Vec2::new(last, first).is_in_grid());
    assert!(!Vec2::new(last + CELL_SIZE, 0).is_in_grid());
    assert!(!Vec2::new(0, first - 1).is_in_grid());
    assert_eq!(Vec2::new(last + CELL_SIZE - 1, first).cell(), (i32::MAX, i32::MIN));

    let mut index = SpatialIndex::new();
    index.insert(5, Vec2::new(last, first));
    index.insert(6, Vec2::new(last - CELL_SIZE, first + CELL_SIZE));
    assert_eq!(sorted(index.get_nearby(Vec2::new(last + 1, first))), vec![5, 6]);
    // from the cell beyond the last, the last column is still a neighbour
    assert_eq!(sorted(index.get_nearby(Vec2::new(last + CELL_SIZE, first))), vec![5]);
    assert_eq!(index.get_nearby(Vec2::new(last + 2 * CELL_SIZE, first)), Vec::<u64>::new());
}
