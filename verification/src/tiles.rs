//! The tile store: which tile images the map draws from, how far each has
//! been decoded, and whether they all have one size.

use crate::map_space::TileRef;
use crate::texture::Texture;
use vstd::prelude::*;

verus! {

/// What the image loader has reported of one tile so far.
#[derive(Debug)]
pub enum TileLoad {
    /// Nothing yet: the image is still being read or decoded.
    Pending,
    /// The image could not be read or decoded.
    Failed,
    /// The decoded image.
    Loaded(Texture),
}

/// Where a whole set of tiles stands.
#[derive(Clone, Copy, Debug, PartialEq, Eq, Structural)]
pub enum LoadStatus {
    /// No tile has failed, and at least one is not decoded yet.
    Pending,
    /// Every tile is decoded.
    Ready,
    /// At least one tile has failed.
    Failed,
}

/// Why a set of tiles cannot be loaded.
#[derive(Clone, Copy, Debug, PartialEq, Eq, Structural)]
pub enum LoadError {
    /// The folder is missing or unreadable, or an image in it is corrupt.
    IoOrDecode,
}

/// Why a set of decoded tiles cannot serve as the tiles of one map.
#[derive(Clone, Copy, Debug, PartialEq, Eq, Structural)]
pub enum VerifyError {
    /// There is no tile to take the size of a map space from.
    NoTiles,
    /// Two tiles differ in width or in height.
    SizeMismatch,
    /// A tile has more or fewer than one layer.
    NotFlat,
}

/// No handle occurs twice in `handles`.
pub open spec fn distinct_handles(handles: Seq<TileRef>) -> bool {
    forall|i: int, j: int|
        0 <= i < j < handles.len() ==> (#[trigger] handles[i]).id != (#[trigger] handles[j]).id
}

/// `handles` without the later occurrences of a handle that is in it more
/// than once.
pub open spec fn first_occurrences(handles: Seq<TileRef>) -> Seq<TileRef>
    decreases handles.len(),
{
    if handles.len() == 0 {
        Seq::empty()
    } else {
        let rest = first_occurrences(handles.drop_last());
        if rest.contains(handles.last()) {
            rest
        } else {
            rest.push(handles.last())
        }
    }
}

/// Whether `tile` is at some index of `handles`.
pub open spec fn known(handles: Seq<TileRef>, tile: TileRef) -> bool {
    exists|i: int| 0 <= i < handles.len() && (#[trigger] handles[i]).id == tile.id
}

/// The index of `tile` in `handles`, where it is known.
pub open spec fn slot_of(handles: Seq<TileRef>, tile: TileRef) -> int {
    choose|i: int| 0 <= i < handles.len() && (#[trigger] handles[i]).id == tile.id
}

/// The status of a set of tiles: failed as soon as one tile has failed,
/// ready only when all are decoded, pending otherwise.
pub open spec fn poll_status(loads: Seq<TileLoad>) -> LoadStatus {
    if exists|i: int| 0 <= i < loads.len() && (#[trigger] loads[i]) is Failed {
        LoadStatus::Failed
    } else if forall|i: int| 0 <= i < loads.len() ==> (#[trigger] loads[i]) is Loaded {
        LoadStatus::Ready
    } else {
        LoadStatus::Pending
    }
}

/// Every tile of `loads` is still to be decoded.
pub open spec fn all_pending(loads: Seq<TileLoad>) -> bool {
    forall|i: int| 0 <= i < loads.len() ==> (#[trigger] loads[i]) is Pending
}

/// Every decoded tile of `loads` is `width` by `height` pixels in one layer.
pub open spec fn uniform(loads: Seq<TileLoad>, width: int, height: int) -> bool {
    forall|i: int|
        0 <= i < loads.len() ==> ((#[trigger] loads[i]) matches TileLoad::Loaded(texture)
            ==> texture.spec_width() == width && texture.spec_height() == height
            && texture.spec_depth() == 1)
}

/// What checking a set of decoded tiles gives: the size they share, or the
/// first reason they cannot be used, where a difference in size comes before
/// a wrong number of layers.
pub open spec fn verify_outcome(loads: Seq<TileLoad>) -> Result<(u32, u32), VerifyError> {
    if loads.len() == 0 {
        Err(VerifyError::NoTiles)
    } else if exists|i: int|
        0 <= i < loads.len() && ((#[trigger] loads[i])->Loaded_0.spec_width()
            != loads[0]->Loaded_0.spec_width() || loads[i]->Loaded_0.spec_height()
            != loads[0]->Loaded_0.spec_height()) {
        Err(VerifyError::SizeMismatch)
    } else if exists|i: int|
        0 <= i < loads.len() && (#[trigger] loads[i])->Loaded_0.spec_depth() != 1 {
        Err(VerifyError::NotFlat)
    } else {
        Ok((loads[0]->Loaded_0.spec_width(), loads[0]->Loaded_0.spec_height()))
    }
}

/// The handles of the tile images and what has been decoded of each.
#[derive(Debug)]
pub struct MapEngineTileHandles {
    handles: Vec<TileRef>,
    loads: Vec<TileLoad>,
}

impl MapEngineTileHandles {
    /// The handles, in the order in which they were added.
    pub closed spec fn handles(&self) -> Seq<TileRef> {
        self.handles@
    }

    /// For each handle, what the loader has reported of it.
    pub closed spec fn loads(&self) -> Seq<TileLoad> {
        self.loads@
    }

    /// Every handle has its report, no handle is held twice, and every
    /// decoded image holds the bytes of its extent.
    pub open spec fn wf(&self) -> bool {
        &&& self.handles().len() == self.loads().len()
        &&& distinct_handles(self.handles())
        &&& forall|i: int|
            0 <= i < self.loads().len() ==> ((#[trigger] self.loads()[i]) matches TileLoad::Loaded(
                texture,
            ) ==> texture.wf())
    }

    /// The decoded image behind `tile`, where the store knows the handle and
    /// its image is decoded.
    pub open spec fn texture_of(&self, tile: TileRef) -> Option<Texture> {
        if known(self.handles(), tile) && self.loads()[slot_of(self.handles(), tile)] is Loaded {
            Some(self.loads()[slot_of(self.handles(), tile)]->Loaded_0)
        } else {
            None
        }
    }

    /// Every tile of the store is decoded.
    pub open spec fn all_loaded(&self) -> bool {
        forall|i: int| 0 <= i < self.loads().len() ==> (#[trigger] self.loads()[i]) is Loaded
    }

    /// A store without tiles.
    pub fn new() -> (store: MapEngineTileHandles)
        ensures
            store.wf(),
            store.handles() == Seq::<TileRef>::empty(),
            store.loads() == Seq::<TileLoad>::empty(),
    {
        MapEngineTileHandles { handles: Vec::new(), loads: Vec::new() }
    }

    /// How many tiles the store holds.
    pub fn len(&self) -> (n: usize)
        ensures
            n == self.handles().len(),
    {
        self.handles.len()
    }

    /// The slot that holds `tile`, where there is one.
    fn find(&self, tile: TileRef) -> (slot: Option<usize>)
        requires
            self.wf(),
        ensures
            slot is Some <==> known(self.handles(), tile),
            slot matches Some(i) ==> i == slot_of(self.handles(), tile) && i < self.handles().len(),
    {
        let mut i: usize = 0;
        while i < self.handles.len()
            invariant
                i <= self.handles.len(),
                self.wf(),
                forall|j: int| 0 <= j < i ==> (#[trigger] self.handles@[j]).id != tile.id,
            decreases self.handles.len() - i,
        {
            if self.handles[i].id == tile.id {
                assert(slot_of(self.handles@, tile) == i);
                return Some(i);
            }
            i += 1;
        }
        None
    }

    /// Adds `tile` as a tile that is still to be decoded. A handle that the
    /// store already holds is not added again.
    pub fn insert(&mut self, tile: TileRef) -> (added: bool)
        requires
            old(self).wf(),
        ensures
            final(self).wf(),
            added == !known(old(self).handles(), tile),
            known(final(self).handles(), tile),
            added ==> final(self).handles() == old(self).handles().push(tile),
            added ==> final(self).loads() == old(self).loads().push(TileLoad::Pending),
            !added ==> final(self).handles() == old(self).handles(),
            !added ==> final(self).loads() == old(self).loads(),
    {
        match self.find(tile) {
            Some(_) => false,
            None => {
                self.handles.push(tile);
                self.loads.push(TileLoad::Pending);
                assert(self.handles@[self.handles@.len() - 1].id == tile.id);
                true
            },
        }
    }

    /// Records the decoded image of `tile`. Only a tile that the store holds
    /// and that is still pending takes it: a decoded image is never
    /// replaced, and a failure is final.
    pub fn set_loaded(&mut self, tile: TileRef, texture: Texture) -> (taken: bool)
        requires
            old(self).wf(),
            texture.wf(),
        ensures
            final(self).wf(),
            final(self).handles() == old(self).handles(),
            taken == (known(old(self).handles(), tile) && old(self).loads()[slot_of(
                old(self).handles(),
                tile,
            )] is Pending),
            final(self).loads() == if taken {
                old(self).loads().update(
                    slot_of(old(self).handles(), tile),
                    TileLoad::Loaded(texture),
                )
            } else {
                old(self).loads()
            },
    {
        match self.find(tile) {
            Some(i) => {
                let pending = match &self.loads[i] {
                    TileLoad::Pending => true,
                    _ => false,
                };
                if pending {
                    self.loads.set(i, TileLoad::Loaded(texture));
                }
                pending
            },
            None => false,
        }
    }

    /// Records that `tile` could not be read or decoded. Only a tile that
    /// the store holds and that is still pending takes the failure.
    pub fn set_failed(&mut self, tile: TileRef) -> (taken: bool)
        requires
            old(self).wf(),
        ensures
            final(self).wf(),
            final(self).handles() == old(self).handles(),
            taken == (known(old(self).handles(), tile) && old(self).loads()[slot_of(
                old(self).handles(),
                tile,
            )] is Pending),
            final(self).loads() == if taken {
                old(self).loads().update(slot_of(old(self).handles(), tile), TileLoad::Failed)
            } else {
                old(self).loads()
            },
    {
        match self.find(tile) {
            Some(i) => {
                let pending = match &self.loads[i] {
                    TileLoad::Pending => true,
                    _ => false,
                };
                if pending {
                    self.loads.set(i, TileLoad::Failed);
                }
                pending
            },
            None => false,
        }
    }

    /// The decoded image behind `tile`.
    pub fn get(&self, tile: TileRef) -> (texture: Option<&Texture>)
        requires
            self.wf(),
        ensures
            texture is Some <==> self.texture_of(tile) is Some,
            texture matches Some(found) ==> *found == self.texture_of(tile)->Some_0 && found.wf(),
    {
        match self.find(tile) {
            Some(i) => match &self.loads[i] {
                TileLoad::Loaded(texture) => Some(texture),
                _ => None,
            },
            None => None,
        }
    }

    /// Where the set of tiles stands, without waiting for anything: failed
    /// as soon as one tile has failed, ready only when all are decoded.
    pub fn poll_loaded(&self) -> (status: LoadStatus)
        requires
            self.wf(),
        ensures
            status == poll_status(self.loads()),
    {
        let mut all_loaded = true;
        let mut i: usize = 0;
        while i < self.loads.len()
            invariant
                i <= self.loads.len(),
                forall|j: int| 0 <= j < i ==> !((#[trigger] self.loads@[j]) is Failed),
                all_loaded == (forall|j: int| 0 <= j < i ==> (#[trigger] self.loads@[j]) is Loaded),
            decreases self.loads.len() - i,
        {
            match &self.loads[i] {
                TileLoad::Failed => {
                    return LoadStatus::Failed;
                },
                TileLoad::Pending => {
                    all_loaded = false;
                },
                TileLoad::Loaded(_) => {},
            }
            i += 1;
        }
        if all_loaded {
            LoadStatus::Ready
        } else {
            LoadStatus::Pending
        }
    }

    /// Checks that the decoded tiles can serve as the tiles of one map, and
    /// gives the width and height that they share.
    pub fn verify_uniform(&self) -> (size: Result<(u32, u32), VerifyError>)
        requires
            self.wf(),
            self.all_loaded(),
        ensures
            size == verify_outcome(self.loads()),
            size matches Ok((width, height)) ==> uniform(
                self.loads(),
                width as int,
                height as int,
            ),
    {
        if self.loads.len() == 0 {
            return Err(VerifyError::NoTiles);
        }
        let (width, height) = match &self.loads[0] {
            TileLoad::Loaded(texture) => (texture.width(), texture.height()),
            _ => (0, 0),
        };
        let mut flat = true;
        let mut i: usize = 0;
        while i < self.loads.len()
            invariant
                i <= self.loads.len(),
                self.all_loaded(),
                self.loads@.len() > 0,
                width == self.loads@[0]->Loaded_0.spec_width(),
                height == self.loads@[0]->Loaded_0.spec_height(),
                forall|j: int|
                    0 <= j < i ==> (#[trigger] self.loads@[j])->Loaded_0.spec_width() == width
                        && self.loads@[j]->Loaded_0.spec_height() == height,
                flat == (forall|j: int|
                    0 <= j < i ==> (#[trigger] self.loads@[j])->Loaded_0.spec_depth() == 1),
            decreases self.loads.len() - i,
        {
            match &self.loads[i] {
                TileLoad::Loaded(texture) => {
                    if texture.width() != width || texture.height() != height {
                        return Err(VerifyError::SizeMismatch);
                    }
                    if texture.depth() != 1 {
                        flat = false;
                    }
                },
                _ => {},
            }
            i += 1;
        }
        if flat {
            Ok((width, height))
        } else {
            Err(VerifyError::NotFlat)
        }
    }
}

} // verus!
