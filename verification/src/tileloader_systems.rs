//! The steps that bring the tiles in: taking the handles of a folder of
//! tile images, waiting until all of them are decoded, and checking that
//! they fit one map.
//!
//! Reading the folder and decoding the images is somebody else's work. These
//! steps take what came of it and decide how the engine goes on.

use crate::map::{MapEngineMap, MapStage};
use crate::map_space::TileRef;
use crate::tiles::{all_pending, first_occurrences, known, poll_status, slot_of, uniform,
    verify_outcome, LoadError, LoadStatus, MapEngineTileHandles, TileLoad, VerifyError};
use crate::MapEngineState;
use vstd::prelude::*;

verus! {

/// What checking the tiles gives for a map: the size that the tiles share,
/// unless the map already has spaces of another size, which no tile of this
/// set can be drawn on.
pub open spec fn verify_for(loads: Seq<TileLoad>, map: MapEngineMap) -> Result<
    (u32, u32),
    VerifyError,
> {
    match verify_outcome(loads) {
        Ok((width, height)) => if map.spec_stage() is Empty || (map.spec_space_width_pixels()
            == width && map.spec_space_height_pixels() == height) {
            Ok((width, height))
        } else {
            Err(VerifyError::SizeMismatch)
        },
        Err(reason) => Err(reason),
    }
}

/// Takes what scanning the tile folder gave. The handles found, each once,
/// become the tiles of the store, all of them still to be decoded; a scan
/// that failed leaves the store as it is and is handed on.
pub fn load_tiles_system(
    tilehandles: &mut MapEngineTileHandles,
    scan: Result<Vec<TileRef>, LoadError>,
) -> (loaded: Result<(), LoadError>)
    requires
        old(tilehandles).wf(),
    ensures
        final(tilehandles).wf(),
        match scan {
            Ok(handles) => {
                &&& loaded is Ok
                &&& final(tilehandles).handles() == first_occurrences(handles@)
                &&& final(tilehandles).loads().len() == final(tilehandles).handles().len()
                &&& all_pending(final(tilehandles).loads())
            },
            Err(reason) => {
                &&& loaded == Err::<(), LoadError>(reason)
                &&& *final(tilehandles) == *old(tilehandles)
            },
        },
{
    match scan {
        Ok(handles) => {
            let mut store = MapEngineTileHandles::new();
            let mut i: usize = 0;
            while i < handles.len()
                invariant
                    i <= handles.len(),
                    store.wf(),
                    store.handles() == first_occurrences(handles@.take(i as int)),
                    store.loads().len() == store.handles().len(),
                    forall|j: int|
                        0 <= j < store.loads().len() ==> (#[trigger] store.loads()[j]) is Pending,
                decreases handles.len() - i,
            {
                proof {
                    assert(handles@.take(i + 1).drop_last() =~= handles@.take(i as int));
                    lemma_known_is_contained(store.handles(), handles@[i as int]);
                }
                store.insert(handles[i]);
                i += 1;
            }
            proof {
                assert(handles@.take(i as int) =~= handles@);
            }
            *tilehandles = store;
            Ok(())
        },
        Err(reason) => Err(reason),
    }
}

/// A handle is known among `handles` exactly when it is one of them.
proof fn lemma_known_is_contained(handles: Seq<TileRef>, tile: TileRef)
    ensures
        known(handles, tile) == handles.contains(tile),
{
    if known(handles, tile) {
        assert(handles[slot_of(handles, tile)] == tile);
    }
    if handles.contains(tile) {
        let i = choose|i: int| 0 <= i < handles.len() && handles[i] == tile;
        assert(handles[i].id == tile.id);
    }
}

/// Looks whether the tiles are decoded, without waiting for them, and
/// moves a loading engine on: to `Verifying` once every tile is decoded,
/// to `Failed` as soon as one tile has failed. While tiles are pending the
/// engine goes on loading. An engine that is not loading is left alone.
pub fn wait_for_tile_load_system(
    state: &mut MapEngineState,
    tilehandles: &MapEngineTileHandles,
) -> (waited: Result<LoadStatus, LoadError>)
    requires
        tilehandles.wf(),
    ensures
        waited == match poll_status(tilehandles.loads()) {
            LoadStatus::Failed => Err::<LoadStatus, LoadError>(LoadError::IoOrDecode),
            status => Ok::<LoadStatus, LoadError>(status),
        },
        *final(state) == if *old(state) is Loading {
            match poll_status(tilehandles.loads()) {
                LoadStatus::Pending => MapEngineState::Loading,
                LoadStatus::Ready => MapEngineState::Verifying,
                LoadStatus::Failed => MapEngineState::Failed,
            }
        } else {
            *old(state)
        },
{
    let loading = match state {
        MapEngineState::Loading => true,
        _ => false,
    };
    match tilehandles.poll_loaded() {
        LoadStatus::Pending => Ok(LoadStatus::Pending),
        LoadStatus::Ready => {
            if loading {
                // Finally advance the State
                *state = MapEngineState::Verifying;
            }
            Ok(LoadStatus::Ready)
        },
        LoadStatus::Failed => {
            if loading {
                *state = MapEngineState::Failed;
            }
            Err(LoadError::IoOrDecode)
        },
    }
}

/// Checks that the decoded tiles are valid for the map, stores the size of
/// a space in the map, and moves a verifying engine on: to `Running` where
/// every tile has the same width and height and one layer, to `Failed`
/// otherwise. No map is sized from tiles that do not pass. An engine that is
/// not verifying is left alone, and so is its map.
pub fn verify_tiles_system(
    state: &mut MapEngineState,
    tilehandles: &MapEngineTileHandles,
    mapengine_map: &mut MapEngineMap,
) -> (verified: Result<(u32, u32), VerifyError>)
    requires
        tilehandles.wf(),
        tilehandles.all_loaded(),
        old(mapengine_map).wf(),
    ensures
        final(mapengine_map).wf(),
        verified == verify_for(tilehandles.loads(), *old(mapengine_map)),
        *final(state) == if *old(state) is Verifying {
            if verified is Ok {
                MapEngineState::Running
            } else {
                MapEngineState::Failed
            }
        } else {
            *old(state)
        },
        !(*old(state) is Verifying) || verified is Err ==> *final(mapengine_map) == *old(
            mapengine_map
        ),
        *old(state) is Verifying && verified is Ok ==> {
            &&& final(mapengine_map).spec_stage() == if old(mapengine_map).spec_stage() is Empty {
                MapStage::Sized
            } else {
                old(mapengine_map).spec_stage()
            }
            &&& final(mapengine_map).spec_space_width_pixels() == verified->Ok_0.0
            &&& final(mapengine_map).spec_space_height_pixels() == verified->Ok_0.1
            &&& final(mapengine_map).spec_cols() == old(mapengine_map).spec_cols()
            &&& final(mapengine_map).spec_rows() == old(mapengine_map).spec_rows()
            &&& final(mapengine_map).spec_texture() == old(mapengine_map).spec_texture()
            &&& uniform(
                tilehandles.loads(),
                final(mapengine_map).spec_space_width_pixels() as int,
                final(mapengine_map).spec_space_height_pixels() as int,
            )
        },
{
    let verifying = match state {
        MapEngineState::Verifying => true,
        _ => false,
    };
    let found = match tilehandles.verify_uniform() {
        Ok((width, height)) => {
            let fresh = match mapengine_map.stage() {
                MapStage::Empty => true,
                _ => false,
            };
            if fresh || (mapengine_map.space_width_pixels() == width
                && mapengine_map.space_height_pixels() == height) {
                Ok((width, height))
            } else {
                Err(VerifyError::SizeMismatch)
            }
        },
        Err(reason) => Err(reason),
    };
    if verifying {
        match found {
            Ok((width, height)) => {
                mapengine_map.set_space_size(width, height);
                *state = MapEngineState::Running;
            },
            Err(_) => {
                *state = MapEngineState::Failed;
            },
        }
    }
    found
}

} // verus!
