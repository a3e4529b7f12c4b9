use bevy_mapengine::map::{MapEngineMap, MapStage};
use bevy_mapengine::map_space::{MapSpace, PlacementGrid, TileRef};
use bevy_mapengine::map_systems::{maptexture_update_system, CompositeError};
use bevy_mapengine::texture::Texture;
use bevy_mapengine::tiles::MapEngineTileHandles;

const RED: [u8; 4] = [255, 0, 0, 255];
const GREEN: [u8; 4] = [0, 255, 0, 255];
const BLUE: [u8; 4] = [0, 0, 255, 255];

const RED_TILE: TileRef = TileRef { id: 10 };
const GREEN_TILE: TileRef = TileRef { id: 11 };
const BLUE_TILE: TileRef = TileRef { id: 12 };
const UNKNOWN_TILE: TileRef = TileRef { id: 99 };

/// A store of red, green and blue tiles of `width` by `height` pixels, and a
/// map whose spaces have that size.
fn scene(width: u32, height: u32) -> (MapEngineMap, PlacementGrid, MapEngineTileHandles) {
    let mut tiles = MapEngineTileHandles::new();
    for (tile, colour) in [(RED_TILE, RED), (GREEN_TILE, GREEN), (BLUE_TILE, BLUE)] {
        tiles.insert(tile);
        tiles.set_loaded(tile, Texture::new_fill(width, height, colour).unwrap());
    }
    let mut map = MapEngineMap::new();
    assert!(map.set_space_size(width, height));
    (map, PlacementGrid::new(), tiles)
}

/// The four bytes of pixel `(x, y)`.
fn pixel(map: &MapEngineMap, x: u32, y: u32) -> [u8; 4] {
    let texture = map.texture();
    let at = ((y * texture.width() + x) * 4) as usize;
    let bytes = texture.data();
    [bytes[at], bytes[at + 1], bytes[at + 2], bytes[at + 3]]
}

#[test]
fn a_new_map_is_one_transparent_pixel() {
    let map = MapEngineMap::new();
    assert_eq!(map.stage(), MapStage::Empty);
    assert_eq!(map.cols(), 0);
    assert_eq!(map.rows(), 0);
    assert_eq!(map.space_width_pixels(), 0);
    assert_eq!(map.space_height_pixels(), 0);
    assert_eq!(map.texture().width(), 1);
    assert_eq!(map.texture().height(), 1);
    assert_eq!(map.texture().data(), &vec![0, 0, 0, 0]);
}

#[test]
fn the_default_map_is_a_new_map() {
    let map = MapEngineMap::default();
    assert_eq!(map.stage(), MapStage::Empty);
    assert_eq!(map.texture().data(), &vec![0, 0, 0, 0]);
}

#[test]
fn the_space_size_is_set_once() {
    let mut map = MapEngineMap::new();
    assert!(map.set_space_size(32, 16));
    assert_eq!(map.stage(), MapStage::Sized);
    assert!(!map.set_space_size(64, 64));
    assert_eq!(map.space_width_pixels(), 32);
    assert_eq!(map.space_height_pixels(), 16);
    assert_eq!(map.texture().data(), &vec![0, 0, 0, 0]);
}

#[test]
fn a_frame_without_marks_changes_nothing() {
    let (mut map, mut grid, tiles) = scene(2, 2);
    assert_eq!(maptexture_update_system(&mut map, &mut grid, &tiles), Ok(0));
    assert_eq!(map.stage(), MapStage::Sized);
    assert_eq!(map.texture().width(), 1);
    assert_eq!(map.texture().data(), &vec![0, 0, 0, 0]);
}

#[test]
fn one_red_tile_at_the_origin_fills_its_cell() {
    let (mut map, mut grid, tiles) = scene(2, 2);
    grid.set(0, 0, RED_TILE);
    assert_eq!(maptexture_update_system(&mut map, &mut grid, &tiles), Ok(1));
    assert_eq!(map.texture().width(), 2);
    assert_eq!(map.texture().height(), 2);
    assert_eq!(map.texture().data(), tiles.get(RED_TILE).unwrap().data());
    assert_eq!(map.stage(), MapStage::Populated);
}

#[test]
fn what_the_map_grows_by_is_transparent() {
    let (mut map, mut grid, tiles) = scene(2, 2);
    grid.set(1, 1, RED_TILE);
    assert_eq!(maptexture_update_system(&mut map, &mut grid, &tiles), Ok(1));
    assert_eq!(map.texture().width(), 4);
    assert_eq!(map.texture().height(), 4);
    for y in 0..4 {
        for x in 0..4 {
            let expected = if x >= 2 && y >= 2 { RED } else { [0, 0, 0, 0] };
            assert_eq!(pixel(&map, x, y), expected);
        }
    }
}

#[test]
fn two_tiles_side_by_side_do_not_touch_each_other() {
    let (mut map, mut grid, tiles) = scene(2, 2);
    grid.set(0, 0, RED_TILE);
    grid.set(1, 0, BLUE_TILE);
    assert_eq!(maptexture_update_system(&mut map, &mut grid, &tiles), Ok(2));
    assert_eq!(map.texture().width(), 4);
    assert_eq!(map.texture().height(), 2);
    for y in 0..2 {
        for x in 0..4 {
            let expected = if x < 2 { RED } else { BLUE };
            assert_eq!(pixel(&map, x, y), expected);
        }
    }
    let red_row = [RED, RED, BLUE, BLUE].concat();
    assert_eq!(map.texture().data(), &[red_row.clone(), red_row].concat());
}

#[test]
fn a_tile_that_is_not_square_lands_at_its_offset() {
    let (mut map, mut grid, tiles) = scene(3, 1);
    grid.set(2, 3, GREEN_TILE);
    assert_eq!(maptexture_update_system(&mut map, &mut grid, &tiles), Ok(1));
    assert_eq!(map.cols(), 3);
    assert_eq!(map.rows(), 4);
    assert_eq!(map.texture().width(), 9);
    assert_eq!(map.texture().height(), 4);
    for y in 0..4 {
        for x in 0..9 {
            let expected = if x >= 6 && y == 3 { GREEN } else { [0, 0, 0, 0] };
            assert_eq!(pixel(&map, x, y), expected);
        }
    }
}

#[test]
fn a_second_frame_in_a_row_draws_nothing() {
    let (mut map, mut grid, tiles) = scene(2, 2);
    grid.set(0, 0, RED_TILE);
    grid.set(2, 1, GREEN_TILE);
    assert_eq!(maptexture_update_system(&mut map, &mut grid, &tiles), Ok(2));
    let shown = map.texture().data().clone();
    assert_eq!(maptexture_update_system(&mut map, &mut grid, &tiles), Ok(0));
    assert_eq!(map.texture().data(), &shown);
    assert_eq!(map.texture().width(), 6);
    assert_eq!(map.texture().height(), 4);
}

#[test]
fn the_texture_spans_the_largest_column_and_row_seen() {
    let (mut map, mut grid, tiles) = scene(4, 2);
    grid.set(0, 0, RED_TILE);
    assert_eq!(maptexture_update_system(&mut map, &mut grid, &tiles), Ok(1));
    assert_eq!((map.texture().width(), map.texture().height()), (4, 2));
    grid.set(2, 0, GREEN_TILE);
    assert_eq!(maptexture_update_system(&mut map, &mut grid, &tiles), Ok(1));
    assert_eq!((map.texture().width(), map.texture().height()), (12, 2));
    grid.set(1, 4, BLUE_TILE);
    assert_eq!(maptexture_update_system(&mut map, &mut grid, &tiles), Ok(1));
    assert_eq!((map.texture().width(), map.texture().height()), (12, 10));
    assert_eq!((map.cols(), map.rows()), (3, 5));
}

#[test]
fn growing_keeps_what_was_drawn() {
    let (mut map, mut grid, tiles) = scene(2, 2);
    grid.set(0, 0, RED_TILE);
    grid.set(1, 0, GREEN_TILE);
    maptexture_update_system(&mut map, &mut grid, &tiles).unwrap();
    grid.set(2, 2, BLUE_TILE);
    assert_eq!(maptexture_update_system(&mut map, &mut grid, &tiles), Ok(1));
    assert_eq!((map.texture().width(), map.texture().height()), (6, 6));
    for y in 0..6 {
        for x in 0..6 {
            let expected = if y < 2 && x < 2 {
                RED
            } else if y < 2 && x < 4 {
                GREEN
            } else if y >= 4 && x >= 4 {
                BLUE
            } else {
                [0, 0, 0, 0]
            };
            assert_eq!(pixel(&map, x, y), expected);
        }
    }
}

#[test]
fn the_map_does_not_grow_for_a_space_inside_it() {
    let (mut map, mut grid, tiles) = scene(2, 2);
    grid.set(3, 3, RED_TILE);
    maptexture_update_system(&mut map, &mut grid, &tiles).unwrap();
    grid.set(1, 1, GREEN_TILE);
    assert_eq!(maptexture_update_system(&mut map, &mut grid, &tiles), Ok(1));
    assert_eq!((map.texture().width(), map.texture().height()), (8, 8));
    assert_eq!(pixel(&map, 2, 2), GREEN);
    assert_eq!(pixel(&map, 6, 6), RED);
    assert_eq!(pixel(&map, 0, 0), [0, 0, 0, 0]);
}

#[test]
fn a_frame_takes_every_mark_off() {
    let (mut map, mut grid, tiles) = scene(2, 2);
    grid.set(0, 0, RED_TILE);
    grid.set(0, 1, GREEN_TILE);
    assert_eq!(grid.iter_dirty().len(), 2);
    maptexture_update_system(&mut map, &mut grid, &tiles).unwrap();
    assert!(grid.iter_dirty().is_empty());
    assert_eq!(grid.len(), 2);
}

#[test]
fn setting_a_tile_again_draws_that_space_once() {
    let (mut map, mut grid, tiles) = scene(2, 2);
    grid.set(0, 0, RED_TILE);
    grid.set(1, 0, GREEN_TILE);
    maptexture_update_system(&mut map, &mut grid, &tiles).unwrap();
    grid.set(1, 0, BLUE_TILE);
    assert_eq!(
        grid.iter_dirty(),
        vec![(1, MapSpace { col: 1, row: 0, texture_handle: BLUE_TILE })]
    );
    assert_eq!(maptexture_update_system(&mut map, &mut grid, &tiles), Ok(1));
    assert_eq!(pixel(&map, 0, 0), RED);
    assert_eq!(pixel(&map, 1, 1), RED);
    assert_eq!(pixel(&map, 2, 0), BLUE);
    assert_eq!(pixel(&map, 3, 1), BLUE);
    assert_eq!(maptexture_update_system(&mut map, &mut grid, &tiles), Ok(0));
}

#[test]
fn a_tile_the_store_cannot_resolve_stops_the_frame() {
    let (mut map, mut grid, tiles) = scene(2, 2);
    grid.set(0, 0, RED_TILE);
    grid.set(1, 0, UNKNOWN_TILE);
    assert_eq!(
        maptexture_update_system(&mut map, &mut grid, &tiles),
        Err(CompositeError::MissingTileData)
    );
    assert_eq!(map.texture().data(), &vec![0, 0, 0, 0]);
    assert_eq!(map.stage(), MapStage::Sized);
    assert_eq!(grid.iter_dirty().len(), 2);
}

#[test]
fn a_tile_that_is_still_pending_is_missing() {
    let (mut map, mut grid, mut tiles) = scene(2, 2);
    tiles.insert(UNKNOWN_TILE);
    grid.set(0, 0, UNKNOWN_TILE);
    assert_eq!(
        maptexture_update_system(&mut map, &mut grid, &tiles),
        Err(CompositeError::MissingTileData)
    );
}

#[test]
fn a_missing_tile_that_is_not_marked_does_no_harm() {
    let (mut map, mut grid, tiles) = scene(2, 2);
    grid.set(0, 0, UNKNOWN_TILE);
    grid.clear_dirty(0);
    grid.set(1, 0, RED_TILE);
    assert_eq!(maptexture_update_system(&mut map, &mut grid, &tiles), Ok(1));
    assert_eq!(pixel(&map, 0, 0), [0, 0, 0, 0]);
    assert_eq!(pixel(&map, 2, 0), RED);
}

#[test]
fn a_marked_space_left_of_the_map_stops_the_frame() {
    let (mut map, mut grid, tiles) = scene(2, 2);
    grid.set(0, 0, RED_TILE);
    grid.set(-1, 0, GREEN_TILE);
    assert_eq!(
        maptexture_update_system(&mut map, &mut grid, &tiles),
        Err(CompositeError::OffMap)
    );
    assert_eq!(map.texture().data(), &vec![0, 0, 0, 0]);
    assert_eq!(grid.iter_dirty().len(), 2);
}

#[test]
fn a_marked_space_above_the_map_stops_the_frame() {
    let (mut map, mut grid, tiles) = scene(2, 2);
    grid.set(3, -2, UNKNOWN_TILE);
    assert_eq!(
        maptexture_update_system(&mut map, &mut grid, &tiles),
        Err(CompositeError::OffMap)
    );
}

#[test]
fn a_map_beyond_what_a_texture_holds_stops_the_frame() {
    let (mut map, mut grid, tiles) = scene(2, 2);
    grid.set(i32::MAX, 0, RED_TILE);
    assert_eq!(
        maptexture_update_system(&mut map, &mut grid, &tiles),
        Err(CompositeError::TooLarge)
    );
    assert_eq!(map.texture().data(), &vec![0, 0, 0, 0]);
    assert_eq!(map.cols(), 0);
    assert!(grid.is_dirty(0));
}

#[test]
fn a_map_with_too_many_pixels_stops_the_frame() {
    let (mut map, mut grid, tiles) = scene(2, 2);
    grid.set(40000, 40000, RED_TILE);
    assert_eq!(
        maptexture_update_system(&mut map, &mut grid, &tiles),
        Err(CompositeError::TooLarge)
    );
}

#[test]
fn the_size_of_the_map_is_named_before_other_faults() {
    let (mut map, mut grid, tiles) = scene(2, 2);
    grid.set(i32::MAX, 0, UNKNOWN_TILE);
    grid.set(-1, -1, UNKNOWN_TILE);
    assert_eq!(
        maptexture_update_system(&mut map, &mut grid, &tiles),
        Err(CompositeError::TooLarge)
    );
}

#[test]
fn a_space_off_the_map_is_named_before_a_missing_tile() {
    let (mut map, mut grid, tiles) = scene(2, 2);
    grid.set(0, 0, UNKNOWN_TILE);
    grid.set(0, -1, RED_TILE);
    assert_eq!(
        maptexture_update_system(&mut map, &mut grid, &tiles),
        Err(CompositeError::OffMap)
    );
}

#[test]
fn fits_tells_what_the_map_can_hold() {
    let (map, _, _) = scene(2, 2);
    assert!(map.fits(0, 0));
    assert!(map.fits(100, 100));
    assert!(!map.fits(2147483648, 1));
    assert!(!map.fits(40000, 40000));
}

#[test]
fn grow_to_keeps_the_old_texture_in_the_corner() {
    let (mut map, _, tiles) = scene(1, 1);
    map.grow_to(1, 1);
    map.draw(MapSpace { col: 0, row: 0, texture_handle: RED_TILE }, tiles.get(RED_TILE).unwrap());
    map.grow_to(2, 3);
    assert_eq!((map.cols(), map.rows()), (2, 3));
    assert_eq!((map.texture().width(), map.texture().height()), (2, 3));
    assert_eq!(pixel(&map, 0, 0), RED);
    for (x, y) in [(1, 0), (0, 1), (1, 1), (0, 2), (1, 2)] {
        assert_eq!(pixel(&map, x, y), [0, 0, 0, 0]);
    }
    map.grow_to(1, 1);
    assert_eq!((map.cols(), map.rows()), (2, 3));
    assert_eq!((map.texture().width(), map.texture().height()), (2, 3));
}

#[test]
fn tiles_without_pixels_draw_nothing() {
    let mut tiles = MapEngineTileHandles::new();
    tiles.insert(RED_TILE);
    tiles.set_loaded(RED_TILE, Texture::new(0, 0, 1, Vec::new()).unwrap());
    let mut map = MapEngineMap::new();
    map.set_space_size(0, 0);
    let mut grid = PlacementGrid::new();
    grid.set(5, 5, RED_TILE);
    assert_eq!(maptexture_update_system(&mut map, &mut grid, &tiles), Ok(1));
    assert_eq!((map.cols(), map.rows()), (6, 6));
    assert_eq!(map.texture().data(), &vec![0, 0, 0, 0]);
    assert!(grid.iter_dirty().is_empty());
}
