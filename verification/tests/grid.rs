use bevy_mapengine::map_space::{MapSpace, PlacementGrid, TileRef};

const GRASS: TileRef = TileRef { id: 1 };
const TREE: TileRef = TileRef { id: 2 };

#[test]
fn new_grid_is_empty() {
    let grid = PlacementGrid::new();
    assert_eq!(grid.len(), 0);
    assert!(grid.iter_dirty().is_empty());
    assert_eq!(grid.max_extent(), (0, 0));
    assert_eq!(grid.get(0), None);
    assert!(!grid.is_dirty(0));
}

#[test]
fn set_adds_a_marked_space() {
    let mut grid = PlacementGrid::new();
    assert_eq!(grid.set(3, 4, GRASS), 0);
    assert_eq!(grid.set(0, 0, TREE), 1);
    assert_eq!(grid.len(), 2);
    assert_eq!(grid.get(0), Some(MapSpace { col: 3, row: 4, texture_handle: GRASS }));
    assert_eq!(grid.get(1), Some(MapSpace { col: 0, row: 0, texture_handle: TREE }));
    assert_eq!(grid.get(2), None);
    assert!(grid.is_dirty(0));
    assert!(grid.is_dirty(1));
}

#[test]
fn set_on_a_held_coordinate_replaces_the_tile() {
    let mut grid = PlacementGrid::new();
    grid.set(1, 1, GRASS);
    grid.set(2, 1, GRASS);
    grid.clear_dirty(0);
    grid.clear_dirty(1);
    assert_eq!(grid.set(1, 1, TREE), 0);
    assert_eq!(grid.len(), 2);
    assert_eq!(grid.get(0), Some(MapSpace { col: 1, row: 1, texture_handle: TREE }));
    assert_eq!(
        grid.iter_dirty(),
        vec![(0, MapSpace { col: 1, row: 1, texture_handle: TREE })]
    );
}

#[test]
fn set_with_the_same_tile_marks_the_space_again() {
    let mut grid = PlacementGrid::new();
    grid.set(5, 5, GRASS);
    grid.clear_dirty(0);
    assert!(grid.iter_dirty().is_empty());
    grid.set(5, 5, GRASS);
    assert!(grid.is_dirty(0));
    assert_eq!(grid.len(), 1);
}

#[test]
fn iter_dirty_lists_marked_spaces_in_order_and_keeps_the_marks() {
    let mut grid = PlacementGrid::new();
    grid.set(0, 0, GRASS);
    grid.set(1, 0, TREE);
    grid.set(2, 0, GRASS);
    grid.clear_dirty(1);
    let expected = vec![
        (0, MapSpace { col: 0, row: 0, texture_handle: GRASS }),
        (2, MapSpace { col: 2, row: 0, texture_handle: GRASS }),
    ];
    assert_eq!(grid.iter_dirty(), expected);
    assert_eq!(grid.iter_dirty(), expected);
}

#[test]
fn clear_dirty_of_an_unknown_identity_changes_nothing() {
    let mut grid = PlacementGrid::new();
    grid.set(0, 0, GRASS);
    grid.clear_dirty(7);
    assert!(grid.is_dirty(0));
    assert_eq!(grid.len(), 1);
}

#[test]
fn max_extent_is_one_more_than_the_largest_column_and_row() {
    let mut grid = PlacementGrid::new();
    grid.set(3, 1, GRASS);
    grid.set(0, 7, GRASS);
    grid.set(2, 2, GRASS);
    assert_eq!(grid.max_extent(), (4, 8));
}

#[test]
fn max_extent_counts_spaces_that_are_not_marked() {
    let mut grid = PlacementGrid::new();
    grid.set(9, 9, GRASS);
    grid.clear_dirty(0);
    grid.set(0, 0, GRASS);
    assert_eq!(grid.max_extent(), (10, 10));
}

#[test]
fn max_extent_of_negative_spaces_is_nothing() {
    let mut grid = PlacementGrid::new();
    grid.set(-1, -5, GRASS);
    assert_eq!(grid.max_extent(), (0, 0));
    grid.set(-3, 2, GRASS);
    assert_eq!(grid.max_extent(), (0, 3));
}

#[test]
fn max_extent_reaches_the_last_column_an_i32_can_name() {
    let mut grid = PlacementGrid::new();
    grid.set(i32::MAX, i32::MAX, GRASS);
    assert_eq!(grid.max_extent(), (2147483648, 2147483648));
}

#[test]
fn count_dirty_follows_the_marks() {
    let mut grid = PlacementGrid::new();
    assert_eq!(grid.count_dirty(), 0);
    grid.set(0, 0, GRASS);
    grid.set(1, 0, GRASS);
    assert_eq!(grid.count_dirty(), 2);
    grid.set(0, 0, TREE);
    assert_eq!(grid.count_dirty(), 2);
    grid.clear_dirty(0);
    grid.clear_dirty(0);
    grid.clear_dirty(9);
    assert_eq!(grid.count_dirty(), 1);
    grid.set(0, 0, TREE);
    assert_eq!(grid.count_dirty(), 2);
    grid.clear_dirty(0);
    grid.clear_dirty(1);
    assert_eq!(grid.count_dirty(), 0);
    assert_eq!(grid.iter_dirty().len(), 0);
}
