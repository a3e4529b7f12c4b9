use bevy_mapengine::map_space::TileRef;
use bevy_mapengine::texture::Texture;
use bevy_mapengine::tiles::{LoadStatus, MapEngineTileHandles, VerifyError};

fn tile(id: u64) -> TileRef {
    TileRef { id }
}

fn image(width: u32, height: u32, depth: u32) -> Texture {
    Texture::new(width, height, depth, vec![7; (width * height * depth * 4) as usize]).unwrap()
}

fn store_of(images: Vec<Texture>) -> MapEngineTileHandles {
    let mut store = MapEngineTileHandles::new();
    for (i, texture) in images.into_iter().enumerate() {
        assert!(store.insert(tile(i as u64)));
        assert!(store.set_loaded(tile(i as u64), texture));
    }
    store
}

#[test]
fn insert_adds_a_handle_once() {
    let mut store = MapEngineTileHandles::new();
    assert!(store.insert(tile(4)));
    assert!(!store.insert(tile(4)));
    assert!(store.insert(tile(5)));
    assert_eq!(store.len(), 2);
}

#[test]
fn get_resolves_only_decoded_tiles() {
    let mut store = MapEngineTileHandles::new();
    store.insert(tile(1));
    store.insert(tile(2));
    assert!(store.get(tile(1)).is_none());
    assert!(store.set_loaded(tile(2), image(3, 2, 1)));
    assert!(store.get(tile(1)).is_none());
    assert!(store.get(tile(9)).is_none());
    let found = store.get(tile(2)).unwrap();
    assert_eq!(found.width(), 3);
    assert_eq!(found.height(), 2);
    assert_eq!(found.data(), &vec![7; 24]);
}

#[test]
fn a_decoded_tile_is_never_replaced() {
    let mut store = MapEngineTileHandles::new();
    store.insert(tile(1));
    assert!(store.set_loaded(tile(1), image(2, 2, 1)));
    assert!(!store.set_loaded(tile(1), image(4, 4, 1)));
    assert!(!store.set_failed(tile(1)));
    assert_eq!(store.get(tile(1)).unwrap().width(), 2);
}

#[test]
fn a_failure_is_final() {
    let mut store = MapEngineTileHandles::new();
    store.insert(tile(1));
    assert!(store.set_failed(tile(1)));
    assert!(!store.set_loaded(tile(1), image(2, 2, 1)));
    assert!(store.get(tile(1)).is_none());
    assert_eq!(store.poll_loaded(), LoadStatus::Failed);
}

#[test]
fn reports_of_unknown_tiles_are_not_taken() {
    let mut store = MapEngineTileHandles::new();
    assert!(!store.set_loaded(tile(1), image(2, 2, 1)));
    assert!(!store.set_failed(tile(1)));
    assert_eq!(store.len(), 0);
}

#[test]
fn poll_loaded_is_pending_until_all_are_decoded() {
    let mut store = MapEngineTileHandles::new();
    store.insert(tile(1));
    store.insert(tile(2));
    assert_eq!(store.poll_loaded(), LoadStatus::Pending);
    store.set_loaded(tile(1), image(2, 2, 1));
    assert_eq!(store.poll_loaded(), LoadStatus::Pending);
    store.set_loaded(tile(2), image(2, 2, 1));
    assert_eq!(store.poll_loaded(), LoadStatus::Ready);
}

#[test]
fn poll_loaded_fails_on_a_single_failure() {
    let mut store = MapEngineTileHandles::new();
    store.insert(tile(1));
    store.insert(tile(2));
    store.insert(tile(3));
    store.set_loaded(tile(1), image(2, 2, 1));
    store.set_failed(tile(3));
    assert_eq!(store.poll_loaded(), LoadStatus::Failed);
    store.set_loaded(tile(2), image(2, 2, 1));
    assert_eq!(store.poll_loaded(), LoadStatus::Failed);
}

#[test]
fn poll_loaded_of_no_tiles_is_ready() {
    assert_eq!(MapEngineTileHandles::new().poll_loaded(), LoadStatus::Ready);
}

#[test]
fn verify_uniform_gives_the_shared_size() {
    let store = store_of(vec![image(32, 16, 1), image(32, 16, 1), image(32, 16, 1)]);
    assert_eq!(store.verify_uniform(), Ok((32, 16)));
}

#[test]
fn verify_uniform_rejects_widths_of_32_and_64() {
    let store = store_of(vec![image(32, 32, 1), image(64, 32, 1)]);
    assert_eq!(store.verify_uniform(), Err(VerifyError::SizeMismatch));
}

#[test]
fn verify_uniform_rejects_different_heights() {
    let store = store_of(vec![image(32, 32, 1), image(32, 32, 1), image(32, 31, 1)]);
    assert_eq!(store.verify_uniform(), Err(VerifyError::SizeMismatch));
}

#[test]
fn verify_uniform_takes_tiles_that_are_not_square() {
    let store = store_of(vec![image(8, 3, 1), image(8, 3, 1)]);
    assert_eq!(store.verify_uniform(), Ok((8, 3)));
}

#[test]
fn verify_uniform_rejects_layers() {
    let store = store_of(vec![image(4, 4, 1), image(4, 4, 2)]);
    assert_eq!(store.verify_uniform(), Err(VerifyError::NotFlat));
    let none = store_of(vec![image(4, 4, 0)]);
    assert_eq!(none.verify_uniform(), Err(VerifyError::NotFlat));
}

#[test]
fn verify_uniform_names_the_size_before_the_layers() {
    let store = store_of(vec![image(4, 4, 3), image(5, 4, 1)]);
    assert_eq!(store.verify_uniform(), Err(VerifyError::SizeMismatch));
}

#[test]
fn verify_uniform_rejects_an_empty_store() {
    assert_eq!(MapEngineTileHandles::new().verify_uniform(), Err(VerifyError::NoTiles));
}
