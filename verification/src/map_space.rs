//! Map spaces and the sparse grid that holds them.
//!
//! A [`MapSpace`] assigns one tile to one grid coordinate. The
//! [`PlacementGrid`] keeps at most one map space per coordinate and marks
//! each one that has not been drawn on the map texture yet.

use vstd::prelude::*;

verus! {

/// A reference to a tile image, as the image loader hands it out.
///
/// A reference says nothing about whether the image has been decoded: that
/// is for the tile store to answer.
#[derive(Clone, Copy, Debug, PartialEq, Eq, Hash, Structural)]
pub struct TileRef {
    pub id: u64,
}

/// One space of the map: a fixed grid position and the tile drawn there.
///
/// `col` counts from the left and `row` from the top, both from 0. A space
/// never moves; only its tile is replaced.
#[derive(Clone, Copy, Debug, PartialEq, Eq, Structural)]
pub struct MapSpace {
    /// Column (x) position of this tile on the map. 0 is on the left.
    pub col: i32,
    /// Row (y) position of this tile on the map. 0 is at the top.
    pub row: i32,
    /// The tile image that represents this space.
    pub texture_handle: TileRef,
}

/// No two spaces of `spaces` share a coordinate.
pub open spec fn distinct_cells(spaces: Seq<MapSpace>) -> bool {
    forall|i: int, j: int|
        0 <= i < j < spaces.len() ==> !(#[trigger] spaces[i].col == #[trigger] spaces[j].col
            && spaces[i].row == spaces[j].row)
}

/// Whether some space of `spaces` lies at `(col, row)`.
pub open spec fn occupied(spaces: Seq<MapSpace>, col: int, row: int) -> bool {
    exists|i: int| 0 <= i < spaces.len() && #[trigger] spaces[i].col == col && spaces[i].row == row
}

/// The identity of the space at `(col, row)`, where there is one.
pub open spec fn position(spaces: Seq<MapSpace>, col: int, row: int) -> int {
    choose|i: int| 0 <= i < spaces.len() && #[trigger] spaces[i].col == col && spaces[i].row == row
}

/// One more than the largest column of `spaces`, and 0 where no space has a
/// column of 0 or more.
pub open spec fn extent_cols(spaces: Seq<MapSpace>) -> int
    decreases spaces.len(),
{
    if spaces.len() == 0 {
        0
    } else {
        let rest = extent_cols(spaces.drop_last());
        if spaces.last().col + 1 > rest {
            spaces.last().col + 1
        } else {
            rest
        }
    }
}

/// One more than the largest row of `spaces`, and 0 where no space has a row
/// of 0 or more.
pub open spec fn extent_rows(spaces: Seq<MapSpace>) -> int
    decreases spaces.len(),
{
    if spaces.len() == 0 {
        0
    } else {
        let rest = extent_rows(spaces.drop_last());
        if spaces.last().row + 1 > rest {
            spaces.last().row + 1
        } else {
            rest
        }
    }
}

/// The identities that `dirty` marks, in rising order.
pub open spec fn dirty_ids(dirty: Seq<bool>) -> Seq<int>
    decreases dirty.len(),
{
    if dirty.len() == 0 {
        Seq::empty()
    } else if dirty.last() {
        dirty_ids(dirty.drop_last()).push(dirty.len() - 1)
    } else {
        dirty_ids(dirty.drop_last())
    }
}

/// The column extent bounds every column, is reached by one of them unless
/// it is 0, and fits the columns that an `i32` can name.
pub proof fn lemma_extent_cols(spaces: Seq<MapSpace>)
    ensures
        0 <= extent_cols(spaces) <= 0x8000_0000,
        forall|i: int|
            0 <= i < spaces.len() ==> (#[trigger] spaces[i]).col + 1 <= extent_cols(spaces),
        extent_cols(spaces) == 0 || exists|i: int|
            0 <= i < spaces.len() && (#[trigger] spaces[i]).col + 1 == extent_cols(spaces),
    decreases spaces.len(),
{
    if spaces.len() > 0 {
        let rest = spaces.drop_last();
        lemma_extent_cols(rest);
        assert forall|i: int| 0 <= i < spaces.len() implies (#[trigger] spaces[i]).col + 1
            <= extent_cols(spaces) by {
            if i < rest.len() {
                assert(spaces[i] == rest[i]);
            }
        }
        if extent_cols(spaces) != 0 && spaces.last().col + 1 <= extent_cols(rest) {
            let i = choose|i: int|
                0 <= i < rest.len() && (#[trigger] rest[i]).col + 1 == extent_cols(rest);
            assert(spaces[i] == rest[i]);
        }
    }
}

/// The row extent bounds every row, is reached by one of them unless it is
/// 0, and fits the rows that an `i32` can name.
pub proof fn lemma_extent_rows(spaces: Seq<MapSpace>)
    ensures
        0 <= extent_rows(spaces) <= 0x8000_0000,
        forall|i: int|
            0 <= i < spaces.len() ==> (#[trigger] spaces[i]).row + 1 <= extent_rows(spaces),
        extent_rows(spaces) == 0 || exists|i: int|
            0 <= i < spaces.len() && (#[trigger] spaces[i]).row + 1 == extent_rows(spaces),
    decreases spaces.len(),
{
    if spaces.len() > 0 {
        let rest = spaces.drop_last();
        lemma_extent_rows(rest);
        assert forall|i: int| 0 <= i < spaces.len() implies (#[trigger] spaces[i]).row + 1
            <= extent_rows(spaces) by {
            if i < rest.len() {
                assert(spaces[i] == rest[i]);
            }
        }
        if extent_rows(spaces) != 0 && spaces.last().row + 1 <= extent_rows(rest) {
            let i = choose|i: int|
                0 <= i < rest.len() && (#[trigger] rest[i]).row + 1 == extent_rows(rest);
            assert(spaces[i] == rest[i]);
        }
    }
}

/// The marked identities are exactly the indices at which `dirty` is set,
/// each once and in rising order.
pub proof fn lemma_dirty_ids(dirty: Seq<bool>)
    ensures
        dirty_ids(dirty).len() <= dirty.len(),
        forall|k: int|
            0 <= k < dirty_ids(dirty).len() ==> 0 <= (#[trigger] dirty_ids(dirty)[k]) < dirty.len()
                && dirty[dirty_ids(dirty)[k]],
        forall|j: int, k: int|
            0 <= j < k < dirty_ids(dirty).len() ==> (#[trigger] dirty_ids(dirty)[j])
                < #[trigger] dirty_ids(dirty)[k],
        forall|i: int|
            0 <= i < dirty.len() && #[trigger] dirty[i] ==> dirty_ids(dirty).contains(i),
    decreases dirty.len(),
{
    if dirty.len() > 0 {
        let rest = dirty.drop_last();
        let ids = dirty_ids(dirty);
        lemma_dirty_ids(rest);
        assert forall|i: int| 0 <= i < dirty.len() && #[trigger] dirty[i] implies ids.contains(
            i,
        ) by {
            if i < rest.len() {
                assert(rest[i]);
                let k = choose|k: int| 0 <= k < dirty_ids(rest).len() && dirty_ids(rest)[k] == i;
                assert(ids[k] == i);
            } else {
                assert(ids[ids.len() - 1] == i);
            }
        }
    }
}

/// The marked identity at position `k` among the marked ones, and the number
/// of identities where fewer are marked: every marked identity below it is
/// one of the first `k`.
pub open spec fn marked_from(dirty: Seq<bool>, k: int) -> int {
    if 0 <= k < dirty_ids(dirty).len() {
        dirty_ids(dirty)[k]
    } else {
        dirty.len() as int
    }
}

/// No identity is marked before the first marked one.
pub proof fn lemma_marked_from_start(dirty: Seq<bool>)
    ensures
        0 <= marked_from(dirty, 0) <= dirty.len(),
        forall|j: int| 0 <= j < marked_from(dirty, 0) ==> !(#[trigger] dirty[j]),
{
    let ids = dirty_ids(dirty);
    lemma_dirty_ids(dirty);
    assert forall|j: int| 0 <= j < marked_from(dirty, 0) implies !(#[trigger] dirty[j]) by {
        if dirty[j] {
            let p = choose|p: int| 0 <= p < ids.len() && ids[p] == j;
            assert(p > 0 ==> ids[0] < ids[p]);
        }
    }
}

/// No identity is marked between one marked identity and the next.
pub proof fn lemma_marked_from_step(dirty: Seq<bool>, k: int)
    requires
        0 <= k < dirty_ids(dirty).len(),
    ensures
        0 <= marked_from(dirty, k) < marked_from(dirty, k + 1) <= dirty.len(),
        dirty[marked_from(dirty, k)],
        forall|j: int|
            marked_from(dirty, k) < j < marked_from(dirty, k + 1) ==> !(#[trigger] dirty[j]),
{
    let ids = dirty_ids(dirty);
    lemma_dirty_ids(dirty);
    assert(k + 1 < ids.len() ==> ids[k] < ids[k + 1]);
    assert forall|j: int| marked_from(dirty, k) < j < marked_from(dirty, k + 1) implies !(
    #[trigger] dirty[j]) by {
        if dirty[j] {
            let p = choose|p: int| 0 <= p < ids.len() && ids[p] == j;
            assert(p < k ==> ids[p] < ids[k]);
            assert(p > k + 1 ==> ids[k + 1] < ids[p]);
        }
    }
}

/// Marking or unmarking one identity changes the number of marked identities
/// by that one.
pub proof fn lemma_dirty_ids_update(dirty: Seq<bool>, i: int, mark: bool)
    requires
        0 <= i < dirty.len(),
    ensures
        dirty_ids(dirty.update(i, mark)).len() == dirty_ids(dirty).len() - (if dirty[i] {
            1int
        } else {
            0int
        }) + (if mark {
            1int
        } else {
            0int
        }),
    decreases dirty.len(),
{
    let after = dirty.update(i, mark);
    if i == dirty.len() - 1 {
        assert(after.drop_last() =~= dirty.drop_last());
    } else {
        lemma_dirty_ids_update(dirty.drop_last(), i, mark);
        assert(after.drop_last() =~= dirty.drop_last().update(i, mark));
    }
}

/// Where nothing is marked there is no marked identity.
pub proof fn lemma_no_marks(dirty: Seq<bool>)
    requires
        forall|i: int| 0 <= i < dirty.len() ==> !(#[trigger] dirty[i]),
    ensures
        dirty_ids(dirty) == Seq::<int>::empty(),
{
    lemma_dirty_ids(dirty);
    assert(dirty_ids(dirty).len() > 0 ==> dirty[dirty_ids(dirty)[0]]);
    assert(dirty_ids(dirty) =~= Seq::<int>::empty());
}

/// Where one identity is marked and no other, it is the one marked identity.
pub proof fn lemma_single_mark(dirty: Seq<bool>, i: int)
    requires
        0 <= i < dirty.len(),
        dirty[i],
        forall|j: int| 0 <= j < dirty.len() && j != i ==> !(#[trigger] dirty[j]),
    ensures
        dirty_ids(dirty) == seq![i],
{
    let ids = dirty_ids(dirty);
    lemma_dirty_ids(dirty);
    assert(ids.contains(i));
    assert forall|k: int| 0 <= k < ids.len() implies ids[k] == i by {
        assert(dirty[ids[k]]);
    }
    assert(ids.len() > 1 ==> ids[0] < ids[1]);
    assert(ids =~= seq![i]);
}

/// Replacing the tile of a space changes neither extent.
pub proof fn lemma_extent_retile(spaces: Seq<MapSpace>, i: int, tile: TileRef)
    requires
        0 <= i < spaces.len(),
    ensures
        extent_cols(
            spaces.update(
                i,
                (MapSpace { col: spaces[i].col, row: spaces[i].row, texture_handle: tile }),
            ),
        ) == extent_cols(spaces),
        extent_rows(
            spaces.update(
                i,
                (MapSpace { col: spaces[i].col, row: spaces[i].row, texture_handle: tile }),
            ),
        ) == extent_rows(spaces),
    decreases spaces.len(),
{
    let space = MapSpace { col: spaces[i].col, row: spaces[i].row, texture_handle: tile };
    let after = spaces.update(i, space);
    if i == spaces.len() - 1 {
        assert(after.drop_last() =~= spaces.drop_last());
    } else {
        lemma_extent_retile(spaces.drop_last(), i, tile);
        assert(after.drop_last() =~= spaces.drop_last().update(i, space));
    }
}

/// The spaces of a map, each with its refresh mark.
///
/// A space is known by its identity: the order in which its coordinate was
/// first set. Spaces are never removed, so an identity stays valid.
#[derive(Debug)]
pub struct PlacementGrid {
    spaces: Vec<MapSpace>,
    refresh: Vec<bool>,
    marked: usize,
}

impl PlacementGrid {
    /// The spaces, by identity.
    pub closed spec fn spaces(&self) -> Seq<MapSpace> {
        self.spaces@
    }

    /// For each identity, whether its space still has to be drawn.
    pub closed spec fn dirty(&self) -> Seq<bool> {
        self.refresh@
    }

    /// How many spaces the grid counts as marked.
    pub closed spec fn spec_count_dirty(&self) -> usize {
        self.marked
    }

    /// Every space has a mark, no coordinate holds two spaces, and the grid
    /// knows how many spaces are marked.
    pub open spec fn wf(&self) -> bool {
        &&& self.spaces().len() == self.dirty().len()
        &&& distinct_cells(self.spaces())
        &&& self.spec_count_dirty() == dirty_ids(self.dirty()).len()
    }

    /// A grid holds no more spaces than can be counted.
    pub proof fn lemma_countable(&self)
        ensures
            self.spaces().len() <= usize::MAX,
            self.dirty().len() <= usize::MAX,
    {
        assert(self.spaces.len() == self.spaces@.len());
        assert(self.refresh.len() == self.refresh@.len());
    }

    /// Whether any space still has to be drawn.
    pub open spec fn has_dirty(&self) -> bool {
        exists|i: int| 0 <= i < self.dirty().len() && #[trigger] self.dirty()[i]
    }

    /// A grid without spaces.
    pub fn new() -> (grid: PlacementGrid)
        ensures
            grid.wf(),
            grid.spaces() == Seq::<MapSpace>::empty(),
            grid.dirty() == Seq::<bool>::empty(),
    {
        PlacementGrid { spaces: Vec::new(), refresh: Vec::new(), marked: 0 }
    }

    /// How many spaces still have to be drawn, without looking at any of
    /// them.
    #[verifier::when_used_as_spec(spec_count_dirty)]
    pub fn count_dirty(&self) -> (n: usize)
        ensures
            n == self.spec_count_dirty(),
            self.wf() ==> n == dirty_ids(self.dirty()).len(),
    {
        self.marked
    }

    /// How many spaces the grid holds.
    pub fn len(&self) -> (n: usize)
        ensures
            n == self.spaces().len(),
    {
        self.spaces.len()
    }

    /// The space with this identity.
    pub fn get(&self, identity: usize) -> (space: Option<MapSpace>)
        ensures
            space == if identity < self.spaces().len() {
                Some(self.spaces()[identity as int])
            } else {
                None
            },
    {
        if identity < self.spaces.len() {
            Some(self.spaces[identity])
        } else {
            None
        }
    }

    /// Whether the space with this identity still has to be drawn.
    pub fn is_dirty(&self, identity: usize) -> (dirty: bool)
        ensures
            dirty == (identity < self.dirty().len() && self.dirty()[identity as int]),
    {
        identity < self.refresh.len() && self.refresh[identity]
    }

    /// Puts `texture_handle` at `(col, row)` and marks the space for
    /// drawing. A coordinate that already holds a space keeps its identity
    /// and gets the new tile; any other coordinate gets a new space.
    pub fn set(&mut self, col: i32, row: i32, texture_handle: TileRef) -> (identity: usize)
        requires
            old(self).wf(),
        ensures
            final(self).wf(),
            occupied(old(self).spaces(), col as int, row as int) ==> {
                &&& identity == position(old(self).spaces(), col as int, row as int)
                &&& final(self).spaces() == old(self).spaces().update(
                    identity as int,
                    (MapSpace { col, row, texture_handle }),
                )
                &&& final(self).dirty() == old(self).dirty().update(identity as int, true)
            },
            !occupied(old(self).spaces(), col as int, row as int) ==> {
                &&& identity == old(self).spaces().len()
                &&& final(self).spaces() == old(self).spaces().push(
                    (MapSpace { col, row, texture_handle }),
                )
                &&& final(self).dirty() == old(self).dirty().push(true)
            },
    {
        let space = MapSpace { col, row, texture_handle };
        let ghost before = *self;
        let mut i: usize = 0;
        while i < self.spaces.len()
            invariant
                i <= self.spaces.len(),
                *self == before,
                before == *old(self),
                space == (MapSpace { col, row, texture_handle }),
                self.wf(),
                forall|j: int|
                    0 <= j < i ==> !((#[trigger] self.spaces@[j]).col == col && self.spaces@[j].row
                        == row),
            decreases self.spaces.len() - i,
        {
            let found = self.spaces[i];
            if found.col == col && found.row == row {
                proof {
                    assert(position(self.spaces@, col as int, row as int) == i);
                    lemma_dirty_ids_update(self.refresh@, i as int, true);
                    lemma_dirty_ids(self.refresh@.update(i as int, true));
                }
                if !self.refresh[i] {
                    self.marked = self.marked + 1;
                }
                self.spaces.set(i, space);
                self.refresh.set(i, true);
                return i;
            }
            i += 1;
        }
        self.spaces.push(space);
        self.refresh.push(true);
        proof {
            assert(self.refresh@.drop_last() =~= before.refresh@);
            lemma_dirty_ids(self.refresh@);
            assert(self.refresh.len() == self.refresh@.len());
        }
        self.marked = self.marked + 1;
        i
    }

    /// The spaces that still have to be drawn, each with its identity, in
    /// the order of their identities. The marks stay as they are.
    pub fn iter_dirty(&self) -> (found: Vec<(usize, MapSpace)>)
        requires
            self.wf(),
        ensures
            found@.len() == dirty_ids(self.dirty()).len(),
            forall|k: int|
                0 <= k < found@.len() ==> (#[trigger] found@[k]).0 == dirty_ids(self.dirty())[k]
                    && found@[k].1 == self.spaces()[dirty_ids(self.dirty())[k]],
    {
        let mut found: Vec<(usize, MapSpace)> = Vec::new();
        let mut i: usize = 0;
        while i < self.refresh.len()
            invariant
                i <= self.refresh.len(),
                self.wf(),
                found@.len() == dirty_ids(self.refresh@.take(i as int)).len(),
                forall|k: int|
                    0 <= k < found@.len() ==> (#[trigger] found@[k]).0 == dirty_ids(
                        self.refresh@.take(i as int),
                    )[k] && found@[k].1 == self.spaces@[dirty_ids(self.refresh@.take(i as int))[k]],
            decreases self.refresh.len() - i,
        {
            proof {
                assert(self.refresh@.take(i + 1).drop_last() =~= self.refresh@.take(i as int));
                lemma_dirty_ids(self.refresh@.take(i as int));
            }
            if self.refresh[i] {
                found.push((i, self.spaces[i]));
            }
            i += 1;
        }
        proof {
            assert(self.refresh@.take(i as int) =~= self.refresh@);
        }
        found
    }

    /// Takes the refresh mark off the space with this identity. An identity
    /// that the grid does not hold changes nothing.
    pub fn clear_dirty(&mut self, identity: usize)
        requires
            old(self).wf(),
        ensures
            final(self).wf(),
            final(self).spaces() == old(self).spaces(),
            final(self).dirty() == if identity < old(self).dirty().len() {
                old(self).dirty().update(identity as int, false)
            } else {
                old(self).dirty()
            },
    {
        if identity < self.refresh.len() {
            proof {
                lemma_dirty_ids_update(self.refresh@, identity as int, false);
            }
            if self.refresh[identity] {
                self.marked = self.marked - 1;
            }
            self.refresh.set(identity, false);
        }
    }

    /// How many columns and rows the map needs to hold every space, marked
    /// or not: one more than the largest column and row.
    pub fn max_extent(&self) -> (extent: (u32, u32))
        ensures
            extent.0 == extent_cols(self.spaces()),
            extent.1 == extent_rows(self.spaces()),
    {
        let mut cols: u32 = 0;
        let mut rows: u32 = 0;
        let mut i: usize = 0;
        while i < self.spaces.len()
            invariant
                i <= self.spaces.len(),
                cols == extent_cols(self.spaces@.take(i as int)),
                rows == extent_rows(self.spaces@.take(i as int)),
            decreases self.spaces.len() - i,
        {
            proof {
                assert(self.spaces@.take(i + 1).drop_last() =~= self.spaces@.take(i as int));
                lemma_extent_cols(self.spaces@.take(i as int));
                lemma_extent_rows(self.spaces@.take(i as int));
            }
            let space = self.spaces[i];
            if space.col >= 0 && space.col as u32 + 1 > cols {
                cols = space.col as u32 + 1;
            }
            if space.row >= 0 && space.row as u32 + 1 > rows {
                rows = space.row as u32 + 1;
            }
            i += 1;
        }
        proof {
            assert(self.spaces@.take(i as int) =~= self.spaces@);
        }
        (cols, rows)
    }
}

} // verus!
