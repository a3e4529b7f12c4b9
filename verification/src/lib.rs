//! Composites a sparse grid of tile placements into one atlas texture.

use vstd::prelude::*;

pub mod engine;
pub mod map;
pub mod map_space;
pub mod map_systems;
pub mod texture;
pub mod tileloader_systems;
pub mod tiles;

pub use crate::engine::{EngineError, MapEngine, Step};
pub use crate::map::{MapEngineMap, MapStage};
pub use crate::map_space::{MapSpace, PlacementGrid, TileRef};
pub use crate::map_systems::{maptexture_update_system, CompositeError};
pub use crate::texture::{copy_texture, Texture};
pub use crate::tileloader_systems::{
    load_tiles_system, verify_tiles_system, wait_for_tile_load_system,
};
pub use crate::tiles::{LoadError, LoadStatus, MapEngineTileHandles, TileLoad, VerifyError};

verus! {

/// Tile images are decoded lazily. The engine goes from `Loading` to
/// `Verifying` when all of the tile images are actually loaded, and on to
/// `Running` when they have been found to fit one map.
#[derive(Clone, Copy, Debug, PartialEq, Eq, Hash, Structural)]
pub enum MapEngineState {
    /// The tile images are being read and decoded.
    Loading,
    /// Every tile image is decoded; their sizes are still to be checked.
    Verifying,
    /// The tiles are valid and the map is drawn frame by frame.
    Running,
    /// The tiles could not be loaded or used, or a frame could not be
    /// drawn. The engine does nothing more.
    Failed,
}

} // verus!
