//! The map engine as one value: the tile store, the grid of spaces and the
//! map texture, and the state that decides what a call of
//! [`MapEngine::advance`] does.
//!
//! The host calls `advance` once per frame. While the engine is loading it
//! tells the engine what the image loader reports; once the engine runs it
//! sets spaces and shows the texture whenever a frame has drawn on it.

use crate::map::MapEngineMap;
use crate::map_space::{extent_cols, extent_rows, lemma_extent_retile, occupied, position, MapSpace,
    PlacementGrid, TileRef};
use crate::map_systems::{frame, lemma_frame_spans_grid, maptexture_update_system, CompositeError};
use crate::texture::Texture;
use crate::tileloader_systems::{load_tiles_system, verify_tiles_system, wait_for_tile_load_system};
use crate::tiles::{all_pending, first_occurrences, known, poll_status, slot_of, uniform,
    verify_outcome, LoadError, LoadStatus, MapEngineTileHandles, TileLoad, VerifyError};
use crate::MapEngineState;
use vstd::prelude::*;

verus! {

/// Why the engine has stopped.
#[derive(Clone, Copy, Debug, PartialEq, Eq, Structural)]
pub enum EngineError {
    /// The tiles could not be loaded.
    Load(LoadError),
    /// The tiles cannot serve as the tiles of one map.
    Verify(VerifyError),
    /// A frame could not be drawn.
    Composite(CompositeError),
}

/// What a call of [`MapEngine::advance`] did.
#[derive(Clone, Copy, Debug, PartialEq, Eq, Structural)]
pub enum Step {
    /// Tiles are still being decoded.
    Waiting,
    /// Every tile is decoded. The next call checks them.
    Loaded,
    /// The tiles are valid and the size of a space is known: the map can be
    /// shown from now on.
    Verified,
    /// No space was marked: the texture is as it was shown last.
    Idle,
    /// So many spaces were drawn: the texture is to be shown anew.
    Drawn(usize),
}

/// The tile store, the grid and the map of one engine, and its state.
#[derive(Debug)]
pub struct MapEngine {
    state: MapEngineState,
    tilehandles: MapEngineTileHandles,
    map: MapEngineMap,
    mapspaces: PlacementGrid,
    failure: Option<EngineError>,
}

/// What one call of `advance` does to the engine `before`: the engine
/// `after` and what the call gives.
pub open spec fn step(
    before: MapEngine,
    after: MapEngine,
    gave: Result<Step, EngineError>,
) -> bool {
    &&& after.tiles() == before.tiles()
    &&& after.failure() == if gave is Err {
        Some(gave->Err_0)
    } else {
        before.failure()
    }
    &&& match before.spec_state() {
        MapEngineState::Loading => {
            &&& after.map() == before.map()
            &&& after.grid() == before.grid()
            &&& match poll_status(before.tiles().loads()) {
                LoadStatus::Pending => {
                    &&& after.spec_state() is Loading
                    &&& gave == Ok::<Step, EngineError>(Step::Waiting)
                },
                LoadStatus::Ready => {
                    &&& after.spec_state() is Verifying
                    &&& gave == Ok::<Step, EngineError>(Step::Loaded)
                },
                LoadStatus::Failed => {
                    &&& after.spec_state() is Failed
                    &&& gave == Err::<Step, EngineError>(EngineError::Load(LoadError::IoOrDecode))
                },
            }
        },
        MapEngineState::Verifying => {
            &&& after.grid() == before.grid()
            &&& match verify_outcome(before.tiles().loads()) {
                Ok((width, height)) => {
                    &&& after.spec_state() is Running
                    &&& gave == Ok::<Step, EngineError>(Step::Verified)
                    &&& after.map().spec_stage() is Sized
                    &&& after.map().spec_space_width_pixels() == width
                    &&& after.map().spec_space_height_pixels() == height
                    &&& after.map().spec_texture() == before.map().spec_texture()
                },
                Err(reason) => {
                    &&& after.spec_state() is Failed
                    &&& gave == Err::<Step, EngineError>(EngineError::Verify(reason))
                    &&& after.map() == before.map()
                },
            }
        },
        MapEngineState::Running => exists|drawn: Result<usize, CompositeError>|
            {
                &&& #[trigger] frame(
                    before.map(),
                    before.grid(),
                    before.tiles(),
                    after.map(),
                    after.grid(),
                    drawn,
                )
                &&& match drawn {
                    Ok(n) => {
                        &&& after.spec_state() is Running
                        &&& gave == Ok::<Step, EngineError>(
                            if n == 0 {
                                Step::Idle
                            } else {
                                Step::Drawn(n)
                            },
                        )
                    },
                    Err(reason) => {
                        &&& after.spec_state() is Failed
                        &&& gave == Err::<Step, EngineError>(EngineError::Composite(reason))
                    },
                }
            },
        MapEngineState::Failed => {
            &&& after.map() == before.map()
            &&& after.grid() == before.grid()
            &&& after.spec_state() is Failed
            &&& before.failure() is Some
            &&& gave == Err::<Step, EngineError>(before.failure()->Some_0)
        },
    }
}

impl MapEngine {
    /// The state of the engine.
    pub closed spec fn spec_state(&self) -> MapEngineState {
        self.state
    }

    /// The tile store.
    pub closed spec fn tiles(&self) -> MapEngineTileHandles {
        self.tilehandles
    }

    /// The map and its texture.
    pub closed spec fn map(&self) -> MapEngineMap {
        self.map
    }

    /// The grid of spaces.
    pub closed spec fn grid(&self) -> PlacementGrid {
        self.mapspaces
    }

    /// Why the engine has stopped, once it has.
    pub closed spec fn failure(&self) -> Option<EngineError> {
        self.failure
    }

    /// The parts are valid each by itself, and they fit the state: no map
    /// has a space size before the tiles have passed their check, a running
    /// engine draws only tiles of the size of a space, and the map is never
    /// larger than its grid.
    pub open spec fn wf(&self) -> bool {
        &&& self.tiles().wf()
        &&& self.map().wf()
        &&& self.grid().wf()
        &&& self.spec_state() is Loading || self.spec_state() is Verifying
            ==> self.map().spec_stage() is Empty
        &&& self.spec_state() is Verifying ==> self.tiles().all_loaded()
        &&& self.spec_state() is Running ==> !(self.map().spec_stage() is Empty) && uniform(
            self.tiles().loads(),
            self.map().spec_space_width_pixels() as int,
            self.map().spec_space_height_pixels() as int,
        )
        &&& self.spec_state() is Failed <==> self.failure() is Some
        &&& self.map().spec_cols() <= extent_cols(self.grid().spaces())
        &&& self.map().spec_rows() <= extent_rows(self.grid().spaces())
    }

    /// An engine that is about to load its tiles: no tile, no space, and a
    /// map of one transparent pixel.
    pub fn new() -> (engine: MapEngine)
        ensures
            engine.wf(),
            engine.spec_state() is Loading,
            engine.tiles().handles().len() == 0,
            engine.grid().spaces().len() == 0,
            engine.map().spec_stage() is Empty,
    {
        MapEngine {
            state: MapEngineState::Loading,
            tilehandles: MapEngineTileHandles::new(),
            map: MapEngineMap::new(),
            mapspaces: PlacementGrid::new(),
            failure: None,
        }
    }

    /// The state of the engine.
    #[verifier::when_used_as_spec(spec_state)]
    pub fn state(&self) -> (state: MapEngineState)
        ensures
            state == self.spec_state(),
    {
        self.state
    }

    /// The tile store, to look at.
    pub fn tilehandles(&self) -> (tilehandles: &MapEngineTileHandles)
        ensures
            *tilehandles == self.tiles(),
    {
        &self.tilehandles
    }

    /// The map, to look at and to show.
    pub fn mapengine_map(&self) -> (map: &MapEngineMap)
        ensures
            *map == self.map(),
    {
        &self.map
    }

    /// The grid of spaces, to look at.
    pub fn mapspaces(&self) -> (mapspaces: &PlacementGrid)
        ensures
            *mapspaces == self.grid(),
    {
        &self.mapspaces
    }

    /// Why the engine has stopped, once it has.
    pub fn error(&self) -> (reason: Option<EngineError>)
        ensures
            reason == self.failure(),
    {
        self.failure
    }

    /// Takes what scanning the tile folder gave, while the engine is
    /// loading. A scan that failed stops the engine. An engine that is not
    /// loading takes nothing.
    pub fn load_tiles(&mut self, scan: Result<Vec<TileRef>, LoadError>) -> (loaded: Result<
        (),
        LoadError,
    >)
        requires
            old(self).wf(),
        ensures
            final(self).wf(),
            final(self).map() == old(self).map(),
            final(self).grid() == old(self).grid(),
            !(old(self).spec_state() is Loading) ==> loaded is Ok && *final(self) == *old(self),
            old(self).spec_state() is Loading ==> match scan {
                Ok(handles) => {
                    &&& loaded is Ok
                    &&& final(self).spec_state() is Loading
                    &&& final(self).tiles().handles() == first_occurrences(handles@)
                    &&& all_pending(final(self).tiles().loads())
                },
                Err(reason) => {
                    &&& loaded == Err::<(), LoadError>(reason)
                    &&& final(self).spec_state() is Failed
                    &&& final(self).failure() == Some(EngineError::Load(reason))
                    &&& final(self).tiles() == old(self).tiles()
                },
            },
    {
        match self.state {
            MapEngineState::Loading => {
                let loaded = load_tiles_system(&mut self.tilehandles, scan);
                match loaded {
                    Ok(()) => {},
                    Err(reason) => {
                        self.state = MapEngineState::Failed;
                        self.failure = Some(EngineError::Load(reason));
                    },
                }
                loaded
            },
            _ => Ok(()),
        }
    }

    /// Records the decoded image of `tile`, while the engine is loading and
    /// the tile is pending.
    pub fn tile_loaded(&mut self, tile: TileRef, texture: Texture) -> (taken: bool)
        requires
            old(self).wf(),
            texture.wf(),
        ensures
            final(self).wf(),
            final(self).spec_state() == old(self).spec_state(),
            final(self).map() == old(self).map(),
            final(self).grid() == old(self).grid(),
            final(self).tiles().handles() == old(self).tiles().handles(),
            taken == (old(self).spec_state() is Loading && known(
                old(self).tiles().handles(),
                tile,
            ) && old(self).tiles().loads()[slot_of(
                old(self).tiles().handles(),
                tile,
            )] is Pending),
            final(self).tiles().loads() == if taken {
                old(self).tiles().loads().update(
                    slot_of(old(self).tiles().handles(), tile),
                    TileLoad::Loaded(texture),
                )
            } else {
                old(self).tiles().loads()
            },
    {
        match self.state {
            MapEngineState::Loading => self.tilehandles.set_loaded(tile, texture),
            _ => false,
        }
    }

    /// Records that `tile` could not be read or decoded, while the engine
    /// is loading and the tile is pending.
    pub fn tile_failed(&mut self, tile: TileRef) -> (taken: bool)
        requires
            old(self).wf(),
        ensures
            final(self).wf(),
            final(self).spec_state() == old(self).spec_state(),
            final(self).map() == old(self).map(),
            final(self).grid() == old(self).grid(),
            final(self).tiles().handles() == old(self).tiles().handles(),
            taken == (old(self).spec_state() is Loading && known(
                old(self).tiles().handles(),
                tile,
            ) && old(self).tiles().loads()[slot_of(
                old(self).tiles().handles(),
                tile,
            )] is Pending),
            final(self).tiles().loads() == if taken {
                old(self).tiles().loads().update(
                    slot_of(old(self).tiles().handles(), tile),
                    TileLoad::Failed,
                )
            } else {
                old(self).tiles().loads()
            },
    {
        match self.state {
            MapEngineState::Loading => self.tilehandles.set_failed(tile),
            _ => false,
        }
    }

    /// Puts `texture_handle` at `(col, row)` and marks the space for
    /// drawing, as [`PlacementGrid::set`] does.
    pub fn set(&mut self, col: i32, row: i32, texture_handle: TileRef) -> (identity: usize)
        requires
            old(self).wf(),
        ensures
            final(self).wf(),
            final(self).spec_state() == old(self).spec_state(),
            final(self).tiles() == old(self).tiles(),
            final(self).map() == old(self).map(),
            final(self).failure() == old(self).failure(),
            occupied(old(self).grid().spaces(), col as int, row as int) ==> {
                &&& identity == position(old(self).grid().spaces(), col as int, row as int)
                &&& final(self).grid().spaces() == old(self).grid().spaces().update(
                    identity as int,
                    (MapSpace { col, row, texture_handle }),
                )
                &&& final(self).grid().dirty() == old(self).grid().dirty().update(
                    identity as int,
                    true,
                )
            },
            !occupied(old(self).grid().spaces(), col as int, row as int) ==> {
                &&& identity == old(self).grid().spaces().len()
                &&& final(self).grid().spaces() == old(self).grid().spaces().push(
                    (MapSpace { col, row, texture_handle }),
                )
                &&& final(self).grid().dirty() == old(self).grid().dirty().push(true)
            },
    {
        let ghost spaces = self.mapspaces.spaces();
        let identity = self.mapspaces.set(col, row, texture_handle);
        proof {
            let space = MapSpace { col, row, texture_handle };
            if occupied(spaces, col as int, row as int) {
                lemma_extent_retile(spaces, identity as int, texture_handle);
            } else {
                assert(spaces.push(space).drop_last() =~= spaces);
            }
        }
        identity
    }

    /// Does what the state of the engine asks for, once.
    ///
    /// A loading engine looks whether its tiles are decoded. A verifying
    /// engine checks them and sizes the map. A running engine draws the
    /// marked spaces. Whatever cannot be done stops the engine for good: it
    /// gives the reason then and at every later call.
    pub fn advance(&mut self) -> (gave: Result<Step, EngineError>)
        requires
            old(self).wf(),
        ensures
            final(self).wf(),
            step(*old(self), *final(self), gave),
    {
        match self.state {
            MapEngineState::Loading => {
                match wait_for_tile_load_system(&mut self.state, &self.tilehandles) {
                    Ok(LoadStatus::Ready) => Ok(Step::Loaded),
                    Ok(_) => Ok(Step::Waiting),
                    Err(reason) => {
                        self.failure = Some(EngineError::Load(reason));
                        Err(EngineError::Load(reason))
                    },
                }
            },
            MapEngineState::Verifying => {
                match verify_tiles_system(&mut self.state, &self.tilehandles, &mut self.map) {
                    Ok(_) => Ok(Step::Verified),
                    Err(reason) => {
                        self.failure = Some(EngineError::Verify(reason));
                        Err(EngineError::Verify(reason))
                    },
                }
            },
            MapEngineState::Running => {
                let ghost before = *self;
                let drawn = maptexture_update_system(
                    &mut self.map,
                    &mut self.mapspaces,
                    &self.tilehandles,
                );
                proof {
                    assert(frame(
                        before.map(),
                        before.grid(),
                        before.tiles(),
                        self.map(),
                        self.grid(),
                        drawn,
                    ));
                }
                match drawn {
                    Ok(n) => {
                        if n == 0 {
                            Ok(Step::Idle)
                        } else {
                            Ok(Step::Drawn(n))
                        }
                    },
                    Err(reason) => {
                        self.state = MapEngineState::Failed;
                        self.failure = Some(EngineError::Composite(reason));
                        Err(EngineError::Composite(reason))
                    },
                }
            },
            MapEngineState::Failed => {
                match self.failure {
                    Some(reason) => Err(reason),
                    None => {
                        assert(false);
                        Ok(Step::Idle)
                    },
                }
            },
        }
    }
}

/// Whatever spaces were set before, after a frame that drew on the map the
/// texture spans the grid: it is as wide as one more than the largest
/// column times the width of a space, and as high as one more than the
/// largest row times the height of a space, for spaces of at least one
/// pixel each way.
pub proof fn lemma_drawn_map_spans_grid(before: MapEngine, after: MapEngine, n: usize)
    requires
        before.wf(),
        step(before, after, Ok(Step::Drawn(n))),
        before.map().spec_space_width_pixels() >= 1,
        before.map().spec_space_height_pixels() >= 1,
    ensures
        after.grid().spaces() == before.grid().spaces(),
        after.map().spec_texture().spec_width() == extent_cols(after.grid().spaces())
            * after.map().spec_space_width_pixels(),
        after.map().spec_texture().spec_height() == extent_rows(after.grid().spaces())
            * after.map().spec_space_height_pixels(),
{
    let drawn = choose|drawn: Result<usize, CompositeError>|
        {
            &&& #[trigger] frame(
                before.map(),
                before.grid(),
                before.tiles(),
                after.map(),
                after.grid(),
                drawn,
            )
            &&& match drawn {
                Ok(n) => {
                    &&& after.spec_state() is Running
                    &&& Ok::<Step, EngineError>(Step::Drawn(n)) == Ok::<Step, EngineError>(
                        if n == 0 {
                            Step::Idle
                        } else {
                            Step::Drawn(n)
                        },
                    )
                },
                Err(reason) => false,
            }
        };
    lemma_frame_spans_grid(
        before.map(),
        before.grid(),
        before.tiles(),
        after.map(),
        after.grid(),
        drawn,
    );
}

/// Tiles that do not pass their check size no map: the engine stops with
/// the map as it was, without a space size, and no later call changes that.
pub proof fn lemma_rejected_tiles_size_no_map(
    before: MapEngine,
    stopped: MapEngine,
    gave: Result<Step, EngineError>,
    later: MapEngine,
    again: Result<Step, EngineError>,
)
    requires
        before.wf(),
        before.spec_state() is Verifying,
        verify_outcome(before.tiles().loads()) is Err,
        step(before, stopped, gave),
        step(stopped, later, again),
    ensures
        gave == Err::<Step, EngineError>(
            EngineError::Verify(verify_outcome(before.tiles().loads())->Err_0),
        ),
        stopped.spec_state() is Failed,
        stopped.map() == before.map(),
        stopped.map().spec_stage() is Empty,
        later.spec_state() is Failed,
        later.map() == before.map(),
        again == gave,
{
}

} // verus!
