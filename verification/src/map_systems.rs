//! Drawing the spaces of the map onto the map texture.
//!
//! [`maptexture_update_system`] runs once per frame. A frame in which no
//! space is marked costs nothing: no pixel is touched and nothing has to be
//! shown anew. Otherwise the texture grows to hold every space of the grid,
//! each marked space is drawn on its cell, and its mark is taken off.

use crate::map::{covers, larger, lemma_span_grows, MapEngineMap};
use crate::map_space::{dirty_ids, extent_cols, extent_rows, lemma_dirty_ids, lemma_extent_cols,
    lemma_extent_rows, lemma_marked_from_start, lemma_marked_from_step, lemma_no_marks,
    lemma_single_mark, marked_from, MapSpace, PlacementGrid, TileRef};
use crate::tiles::{slot_of, uniform, MapEngineTileHandles};
use vstd::prelude::*;

verus! {

/// Why a frame could not be drawn.
#[derive(Clone, Copy, Debug, PartialEq, Eq, Structural)]
pub enum CompositeError {
    /// The texture that holds every space of the grid would have a side or a
    /// pixel count beyond `u32::MAX`, or more bytes than a buffer can hold.
    TooLarge,
    /// A marked space lies left of column 0 or above row 0, where the
    /// texture has no pixels.
    OffMap,
    /// A marked space refers to a tile that the tile store cannot resolve.
    MissingTileData,
}

/// Whether a marked space of `grid` lies off the map.
pub open spec fn marked_off_map(grid: PlacementGrid) -> bool {
    exists|i: int|
        0 <= i < grid.spaces().len() && grid.dirty()[i] && ((#[trigger] grid.spaces()[i]).col < 0
            || grid.spaces()[i].row < 0)
}

/// Whether a marked space of `grid` refers to a tile that `tiles` cannot
/// resolve.
pub open spec fn marked_unresolved(grid: PlacementGrid, tiles: MapEngineTileHandles) -> bool {
    exists|i: int|
        0 <= i < grid.spaces().len() && grid.dirty()[i] && tiles.texture_of(
            (#[trigger] grid.spaces()[i]).texture_handle,
        ) is None
}

/// Whether the cell of a marked space of `grid` holds pixel `(x, y)`.
pub open spec fn marked_at(grid: PlacementGrid, width: int, height: int, x: int, y: int) -> bool {
    exists|i: int|
        0 <= i < grid.spaces().len() && grid.dirty()[i] && covers(
            #[trigger] grid.spaces()[i],
            width,
            height,
            x,
            y,
        )
}

/// The marked space of `grid` whose cell holds pixel `(x, y)`.
pub open spec fn marked_space_at(
    grid: PlacementGrid,
    width: int,
    height: int,
    x: int,
    y: int,
) -> MapSpace {
    grid.spaces()[choose|i: int|
        0 <= i < grid.spaces().len() && grid.dirty()[i] && covers(
            #[trigger] grid.spaces()[i],
            width,
            height,
            x,
            y,
        )]
}

/// What a frame gives: the number of spaces drawn, which is 0 where none is
/// marked, or the reason why nothing was drawn. Of several reasons the size
/// of the texture comes first, a space off the map second.
pub open spec fn update_outcome(
    map: MapEngineMap,
    grid: PlacementGrid,
    tiles: MapEngineTileHandles,
) -> Result<usize, CompositeError> {
    if dirty_ids(grid.dirty()).len() == 0 {
        Ok(0)
    } else if !map.can_hold(extent_cols(grid.spaces()), extent_rows(grid.spaces())) {
        Err(CompositeError::TooLarge)
    } else if marked_off_map(grid) {
        Err(CompositeError::OffMap)
    } else if marked_unresolved(grid, tiles) {
        Err(CompositeError::MissingTileData)
    } else {
        Ok(dirty_ids(grid.dirty()).len() as usize)
    }
}

/// Channel `c` of pixel `(x, y)` after a frame was drawn: the tile's pixel
/// where a marked space holds `(x, y)`, the pixel as it was where the old
/// texture reached, and transparent black in what the texture grew by.
pub open spec fn composited_byte(
    map: MapEngineMap,
    grid: PlacementGrid,
    tiles: MapEngineTileHandles,
    x: int,
    y: int,
    c: int,
) -> u8 {
    let width = map.spec_space_width_pixels() as int;
    let height = map.spec_space_height_pixels() as int;
    if marked_at(grid, width, height, x, y) {
        let space = marked_space_at(grid, width, height, x, y);
        tiles.texture_of(space.texture_handle)->Some_0.byte(
            x - space.col * width,
            y - space.row * height,
            c,
        )
    } else if x < map.spec_texture().spec_width() && y < map.spec_texture().spec_height() {
        map.spec_texture().byte(x, y, c)
    } else {
        0
    }
}

/// A pixel lies in the cell of one coordinate only.
pub proof fn lemma_cells_disjoint(a: MapSpace, b: MapSpace, width: int, height: int, x: int, y: int)
    requires
        covers(a, width, height, x, y),
        covers(b, width, height, x, y),
    ensures
        a.col == b.col,
        a.row == b.row,
{
    lemma_same_cell(a.col as int, b.col as int, width, x);
    lemma_same_cell(a.row as int, b.row as int, height, y);
}

/// Two cells of one length that share a point are the same cell.
proof fn lemma_same_cell(a: int, b: int, length: int, at: int)
    requires
        a * length <= at < (a + 1) * length,
        b * length <= at < (b + 1) * length,
    ensures
        a == b,
{
    assert(a == b) by (nonlinear_arith)
        requires
            a * length <= at < (a + 1) * length,
            b * length <= at < (b + 1) * length,
    ;
}

/// Whether a marked space of `grid` with an identity below `bound` holds
/// pixel `(x, y)`.
spec fn marked_before(
    grid: PlacementGrid,
    bound: int,
    width: int,
    height: int,
    x: int,
    y: int,
) -> bool {
    exists|i: int|
        0 <= i < bound && i < grid.spaces().len() && grid.dirty()[i] && covers(
            #[trigger] grid.spaces()[i],
            width,
            height,
            x,
            y,
        )
}

/// What one frame does to the map `before` and the grid `marks`, with the
/// tiles of `tiles`: the map `after`, the grid `cleared`, and the number of
/// spaces `drawn`.
///
/// A frame that draws nothing, because no space is marked or because it
/// cannot be drawn, changes nothing. Any other frame leaves the spaces where
/// they are and takes every mark off, makes the map as large as the grid,
/// and gives each pixel of the texture its composited value.
pub open spec fn frame(
    before: MapEngineMap,
    marks: PlacementGrid,
    tiles: MapEngineTileHandles,
    after: MapEngineMap,
    cleared: PlacementGrid,
    drawn: Result<usize, CompositeError>,
) -> bool {
    &&& after.wf()
    &&& cleared.wf()
    &&& drawn == update_outcome(before, marks, tiles)
    &&& cleared.spaces() == marks.spaces()
    &&& after.spec_space_width_pixels() == before.spec_space_width_pixels()
    &&& after.spec_space_height_pixels() == before.spec_space_height_pixels()
    &&& (drawn is Err || drawn == Ok::<usize, CompositeError>(0)) ==> (after == before
        && cleared == marks)
    &&& (drawn is Ok && drawn->Ok_0 > 0) ==> {
        &&& after.spec_stage() is Populated
        &&& after.spec_cols() == larger(before.spec_cols() as int, extent_cols(marks.spaces()))
        &&& after.spec_rows() == larger(before.spec_rows() as int, extent_rows(marks.spaces()))
        &&& forall|i: int| 0 <= i < cleared.dirty().len() ==> !(#[trigger] cleared.dirty()[i])
        &&& forall|x: int, y: int, c: int|
            0 <= x < after.spec_texture().spec_width() && 0 <= y
                < after.spec_texture().spec_height() && 0 <= c
                < 4 ==> #[trigger] after.spec_texture().byte(x, y, c) == composited_byte(
                before,
                marks,
                tiles,
                x,
                y,
                c,
            )
    }
}

/// Draw spaces that need updated onto the map texture.
///
/// Gives the number of spaces drawn. Where it is 0 no space was marked, and
/// the texture and the grid are as they were: there is nothing to show anew.
/// Where it is more, the texture holds every space of the grid, each marked
/// space is on it, and no space is marked any more. Where the frame cannot
/// be drawn nothing changes either.
pub fn maptexture_update_system(
    mapengine_map: &mut MapEngineMap,
    mapspaces: &mut PlacementGrid,
    textures: &MapEngineTileHandles,
) -> (drawn: Result<usize, CompositeError>)
    requires
        old(mapengine_map).wf(),
        !(old(mapengine_map).spec_stage() is Empty),
        old(mapspaces).wf(),
        textures.wf(),
        uniform(
            textures.loads(),
            old(mapengine_map).spec_space_width_pixels() as int,
            old(mapengine_map).spec_space_height_pixels() as int,
        ),
    ensures
        frame(
            *old(mapengine_map),
            *old(mapspaces),
            *textures,
            *final(mapengine_map),
            *final(mapspaces),
            drawn,
        ),
{
    // If there aren't any, exit now.
    if mapspaces.count_dirty() == 0 {
        return Ok(0);
    }
    let ghost map_before = *mapengine_map;
    let ghost grid = *mapspaces;
    let ghost width = mapengine_map.spec_space_width_pixels() as int;
    let ghost height = mapengine_map.spec_space_height_pixels() as int;
    let ghost ids = dirty_ids(grid.dirty());
    proof {
        lemma_dirty_ids(grid.dirty());
        grid.lemma_countable();
    }

    // Find the furthest-from 0,0 rows and columns, over every space: any
    // of them may be the one that sizes the map.
    let (cols, rows) = mapspaces.max_extent();
    if !mapengine_map.fits(cols, rows) {
        return Err(CompositeError::TooLarge);
    }
    // Look at every marked space before anything is drawn, so that a frame
    // that cannot be drawn leaves no trace.

    let marked = mapspaces.iter_dirty();
    let mut off_map = false;
    let mut unresolved = false;
    let mut k: usize = 0;
    proof {
        lemma_marked_from_start(grid.dirty());
    }
    while k < marked.len()
        invariant
            k <= marked.len(),
            marked@.len() == ids.len(),
            ids == dirty_ids(grid.dirty()),
            forall|p: int|
                0 <= p < marked@.len() ==> (#[trigger] marked@[p]).0 == ids[p] && marked@[p].1
                    == grid.spaces()[ids[p]],
            grid.wf(),
            textures.wf(),
            0 <= marked_from(grid.dirty(), k as int) <= grid.dirty().len(),
            off_map == (exists|j: int|
                0 <= j < marked_from(grid.dirty(), k as int) && grid.dirty()[j] && ((
                #[trigger] grid.spaces()[j]).col < 0 || grid.spaces()[j].row < 0)),
            unresolved == (exists|j: int|
                0 <= j < marked_from(grid.dirty(), k as int) && grid.dirty()[j]
                    && textures.texture_of((#[trigger] grid.spaces()[j]).texture_handle) is None),
        decreases marked.len() - k,
    {
        proof {
            lemma_marked_from_step(grid.dirty(), k as int);
        }
        let mapspace = marked[k].1;
        assert(mapspace == grid.spaces()[ids[k as int]]);
        if mapspace.col < 0 || mapspace.row < 0 {
            off_map = true;
        }
        if textures.get(mapspace.texture_handle).is_none() {
            unresolved = true;
        }
        k += 1;
    }
    if off_map {
        return Err(CompositeError::OffMap);
    }
    if unresolved {
        return Err(CompositeError::MissingTileData);
    }
    // If our existing texture is too small, create a new bigger one.

    mapengine_map.grow_to(cols, rows);
    let ghost grown = *mapengine_map;
    proof {
        lemma_extent_cols(grid.spaces());
        lemma_extent_rows(grid.spaces());
    }

    // And now we go through again and do the actual copying.
    let mut k: usize = 0;
    while k < marked.len()
        invariant
            k <= marked.len(),
            marked@.len() == ids.len(),
            ids == dirty_ids(grid.dirty()),
            forall|p: int|
                0 <= p < marked@.len() ==> (#[trigger] marked@[p]).0 == ids[p] && marked@[p].1
                    == grid.spaces()[ids[p]],
            grid.wf(),
            textures.wf(),
            mapspaces.wf(),
            mapspaces.spaces() == grid.spaces(),
            mapspaces.dirty().len() == grid.dirty().len(),
            0 <= marked_from(grid.dirty(), k as int) <= grid.dirty().len(),
            forall|j: int|
                0 <= j < grid.dirty().len() ==> (#[trigger] mapspaces.dirty()[j]) == (
                grid.dirty()[j] && j >= marked_from(grid.dirty(), k as int)),
            !marked_off_map(grid),
            !marked_unresolved(grid, *textures),
            extent_cols(grid.spaces()) <= grown.spec_cols(),
            extent_rows(grid.spaces()) <= grown.spec_rows(),
            forall|j: int|
                0 <= j < grid.spaces().len() ==> (#[trigger] grid.spaces()[j]).col + 1
                    <= extent_cols(grid.spaces()) && grid.spaces()[j].row + 1 <= extent_rows(
                    grid.spaces(),
                ),
            uniform(textures.loads(), width, height),
            mapengine_map.wf(),
            !(mapengine_map.spec_stage() is Empty),
            k > 0 ==> mapengine_map.spec_stage() is Populated,
            mapengine_map.spec_space_width_pixels() == width,
            mapengine_map.spec_space_height_pixels() == height,
            mapengine_map.spec_cols() == grown.spec_cols(),
            mapengine_map.spec_rows() == grown.spec_rows(),
            mapengine_map.spec_texture().spec_width() == grown.spec_texture().spec_width(),
            mapengine_map.spec_texture().spec_height() == grown.spec_texture().spec_height(),
            forall|j: int, x: int, y: int, c: int|
                #![trigger
                    covers(grid.spaces()[j], width, height, x, y),
                    mapengine_map.spec_texture().byte(x, y, c),
                ]
                0 <= j < marked_from(grid.dirty(), k as int) && grid.dirty()[j] && covers(
                    grid.spaces()[j],
                    width,
                    height,
                    x,
                    y,
                ) && 0 <= x < grown.spec_texture().spec_width() && 0 <= y
                    < grown.spec_texture().spec_height() && 0 <= c < 4
                    ==> mapengine_map.spec_texture().byte(x, y, c) == textures.texture_of(
                    grid.spaces()[j].texture_handle,
                )->Some_0.byte(
                    x - grid.spaces()[j].col * width,
                    y - grid.spaces()[j].row * height,
                    c,
                ),
            forall|x: int, y: int, c: int|
                0 <= x < grown.spec_texture().spec_width() && 0 <= y
                    < grown.spec_texture().spec_height() && 0 <= c < 4 && !marked_before(
                    grid,
                    marked_from(grid.dirty(), k as int),
                    width,
                    height,
                    x,
                    y,
                ) ==> #[trigger] mapengine_map.spec_texture().byte(x, y, c)
                    == grown.spec_texture().byte(x, y, c),
        decreases marked.len() - k,
    {
        let ghost earlier = *mapengine_map;
        let ghost bound = marked_from(grid.dirty(), k as int);
        let ghost next = marked_from(grid.dirty(), k + 1);
        proof {
            lemma_marked_from_step(grid.dirty(), k as int);
        }
        let identity = marked[k].0;
        let mapspace = marked[k].1;
        assert(identity == bound && mapspace == grid.spaces()[bound]);
        // Each space has a tile which should represent it visually
        match textures.get(mapspace.texture_handle) {
            Some(space_texture) => {
                proof {
                    lemma_resolved_is_uniform(*textures, mapspace.texture_handle, width, height);
                }
                mapengine_map.draw(mapspace, space_texture);
            },
            None => {
                assert(false);
            },
        }
        mapspaces.clear_dirty(identity);
        proof {
            assert forall|j: int, x: int, y: int, c: int|
                #![trigger
                    covers(grid.spaces()[j], width, height, x, y),
                    mapengine_map.spec_texture().byte(x, y, c),
                ]
                0 <= j < next && grid.dirty()[j] && covers(grid.spaces()[j], width, height, x, y)
                    && 0 <= x < grown.spec_texture().spec_width() && 0 <= y
                    < grown.spec_texture().spec_height() && 0 <= c
                    < 4 implies mapengine_map.spec_texture().byte(x, y, c) == textures.texture_of(
                grid.spaces()[j].texture_handle,
            )->Some_0.byte(
                x - grid.spaces()[j].col * width,
                y - grid.spaces()[j].row * height,
                c,
            ) by {
                if j < bound {
                    if covers(mapspace, width, height, x, y) {
                        lemma_cells_disjoint(grid.spaces()[j], mapspace, width, height, x, y);
                    }
                    assert(mapengine_map.spec_texture().byte(x, y, c)
                        == earlier.spec_texture().byte(x, y, c));
                } else {
                    assert(j == bound);
                }
            }
            assert forall|x: int, y: int, c: int|
                0 <= x < grown.spec_texture().spec_width() && 0 <= y
                    < grown.spec_texture().spec_height() && 0 <= c < 4 && !marked_before(
                    grid,
                    next,
                    width,
                    height,
                    x,
                    y,
                ) implies #[trigger] mapengine_map.spec_texture().byte(x, y, c)
                == grown.spec_texture().byte(x, y, c) by {
                assert(!covers(grid.spaces()[bound], width, height, x, y));
                if marked_before(grid, bound, width, height, x, y) {
                    let j = choose|j: int|
                        0 <= j < bound && j < grid.spaces().len() && grid.dirty()[j] && covers(
                            #[trigger] grid.spaces()[j],
                            width,
                            height,
                            x,
                            y,
                        );
                    assert(covers(grid.spaces()[j], width, height, x, y));
                    assert(false);
                }
                assert(earlier.spec_texture().byte(x, y, c) == grown.spec_texture().byte(
                    x,
                    y,
                    c,
                ));
            }
        }
        k += 1;
    }
    proof {
        assert forall|x: int, y: int, c: int|
            0 <= x < mapengine_map.spec_texture().spec_width() && 0 <= y
                < mapengine_map.spec_texture().spec_height() && 0 <= c
                < 4 implies #[trigger] mapengine_map.spec_texture().byte(x, y, c)
            == composited_byte(map_before, grid, *textures, x, y, c) by {
            if marked_at(grid, width, height, x, y) {
                let j = choose|j: int|
                    0 <= j < grid.spaces().len() && grid.dirty()[j] && covers(
                        #[trigger] grid.spaces()[j],
                        width,
                        height,
                        x,
                        y,
                    );
                assert(covers(grid.spaces()[j], width, height, x, y));
            } else {
                if marked_before(grid, grid.dirty().len() as int, width, height, x, y) {
                    let j = choose|j: int|
                        0 <= j < grid.dirty().len() && j < grid.spaces().len() && grid.dirty()[j]
                            && covers(#[trigger] grid.spaces()[j], width, height, x, y);
                    assert(covers(grid.spaces()[j], width, height, x, y));
                    assert(false);
                }
            }
        }
    }
    Ok(marked.len())
}

/// A frame that follows a drawn frame, with nothing set in between, finds
/// nothing to do: it draws no space and touches neither the map nor the grid.
pub proof fn lemma_next_frame_is_idle(
    before: MapEngineMap,
    marks: PlacementGrid,
    tiles: MapEngineTileHandles,
    after: MapEngineMap,
    cleared: PlacementGrid,
    drawn: Result<usize, CompositeError>,
    later: MapEngineMap,
    still: PlacementGrid,
    again: Result<usize, CompositeError>,
)
    requires
        frame(before, marks, tiles, after, cleared, drawn),
        drawn is Ok,
        frame(after, cleared, tiles, later, still, again),
    ensures
        again == Ok::<usize, CompositeError>(0),
        later == after,
        still == cleared,
{
    lemma_frame_clears_marks(before, marks, tiles, after, cleared, drawn);
}

/// After a drawn frame no space is marked: the spaces it drew are not found
/// among the marked ones again.
pub proof fn lemma_frame_clears_marks(
    before: MapEngineMap,
    marks: PlacementGrid,
    tiles: MapEngineTileHandles,
    after: MapEngineMap,
    cleared: PlacementGrid,
    drawn: Result<usize, CompositeError>,
)
    requires
        frame(before, marks, tiles, after, cleared, drawn),
        drawn is Ok,
    ensures
        dirty_ids(cleared.dirty()) == Seq::<int>::empty(),
        !cleared.has_dirty(),
{
    if drawn->Ok_0 > 0 {
        lemma_no_marks(cleared.dirty());
    } else {
        marks.lemma_countable();
        lemma_dirty_ids(marks.dirty());
        assert(dirty_ids(marks.dirty()) =~= Seq::<int>::empty());
    }
    lemma_dirty_ids(cleared.dirty());
    if cleared.has_dirty() {
        let i = choose|i: int| 0 <= i < cleared.dirty().len() && #[trigger] cleared.dirty()[i];
        assert(dirty_ids(cleared.dirty()).contains(i));
    }
}

/// Setting the tile of a space that is already on the map, in a grid
/// without marks, marks that space and no other. The frame that follows
/// draws exactly one space, and where the map holds the grid already it
/// changes no pixel outside the cell of that space.
pub proof fn lemma_retiled_space_is_drawn_once(
    before: MapEngineMap,
    clean: PlacementGrid,
    marks: PlacementGrid,
    tiles: MapEngineTileHandles,
    identity: int,
    after: MapEngineMap,
    cleared: PlacementGrid,
    drawn: Result<usize, CompositeError>,
)
    requires
        before.wf(),
        clean.wf(),
        forall|i: int| 0 <= i < clean.dirty().len() ==> !(#[trigger] clean.dirty()[i]),
        0 <= identity < clean.spaces().len(),
        marks.spaces().len() == clean.spaces().len(),
        forall|i: int|
            0 <= i < clean.spaces().len() ==> (#[trigger] marks.spaces()[i]).col
                == clean.spaces()[i].col && marks.spaces()[i].row == clean.spaces()[i].row,
        marks.dirty() == clean.dirty().update(identity, true),
        frame(before, marks, tiles, after, cleared, drawn),
    ensures
        dirty_ids(marks.dirty()) == seq![identity],
        drawn is Ok ==> drawn == Ok::<usize, CompositeError>(1),
        drawn is Ok && extent_cols(marks.spaces()) <= before.spec_cols() && extent_rows(
            marks.spaces(),
        ) <= before.spec_rows() ==> {
            &&& after.spec_texture().spec_width() == before.spec_texture().spec_width()
            &&& after.spec_texture().spec_height() == before.spec_texture().spec_height()
            &&& forall|x: int, y: int, c: int|
                0 <= x < after.spec_texture().spec_width() && 0 <= y
                    < after.spec_texture().spec_height() && 0 <= c < 4 && !covers(
                    marks.spaces()[identity],
                    before.spec_space_width_pixels() as int,
                    before.spec_space_height_pixels() as int,
                    x,
                    y,
                ) ==> #[trigger] after.spec_texture().byte(x, y, c) == before.spec_texture().byte(
                    x,
                    y,
                    c,
                )
        },
{
    lemma_single_mark(marks.dirty(), identity);
    let width = before.spec_space_width_pixels() as int;
    let height = before.spec_space_height_pixels() as int;
    if drawn is Ok && extent_cols(marks.spaces()) <= before.spec_cols() && extent_rows(
        marks.spaces(),
    ) <= before.spec_rows() {
        assert forall|x: int, y: int, c: int|
            0 <= x < after.spec_texture().spec_width() && 0 <= y
                < after.spec_texture().spec_height() && 0 <= c < 4 && !covers(
                marks.spaces()[identity],
                width,
                height,
                x,
                y,
            ) implies #[trigger] after.spec_texture().byte(x, y, c) == before.spec_texture().byte(
            x,
            y,
            c,
        ) by {
            if marked_at(marks, width, height, x, y) {
                let i = choose|i: int|
                    0 <= i < marks.spaces().len() && marks.dirty()[i] && covers(
                        #[trigger] marks.spaces()[i],
                        width,
                        height,
                        x,
                        y,
                    );
                assert(i == identity);
            }
        }
    }
}

/// After a drawn frame the texture spans the grid: where a space is at
/// least one pixel wide and high, and the map was no larger than the grid
/// before, the texture is as wide as one more than the largest column times
/// the width of a space, and as high as one more than the largest row
/// times its height.
pub proof fn lemma_frame_spans_grid(
    before: MapEngineMap,
    marks: PlacementGrid,
    tiles: MapEngineTileHandles,
    after: MapEngineMap,
    cleared: PlacementGrid,
    drawn: Result<usize, CompositeError>,
)
    requires
        marks.wf(),
        frame(before, marks, tiles, after, cleared, drawn),
        drawn is Ok,
        drawn->Ok_0 > 0,
        before.spec_cols() <= extent_cols(marks.spaces()),
        before.spec_rows() <= extent_rows(marks.spaces()),
        before.spec_space_width_pixels() >= 1,
        before.spec_space_height_pixels() >= 1,
    ensures
        after.spec_cols() == extent_cols(marks.spaces()),
        after.spec_rows() == extent_rows(marks.spaces()),
        after.spec_texture().spec_width() == extent_cols(marks.spaces())
            * after.spec_space_width_pixels(),
        after.spec_texture().spec_height() == extent_rows(marks.spaces())
            * after.spec_space_height_pixels(),
        forall|i: int|
            0 <= i < marks.spaces().len() ==> (#[trigger] marks.spaces()[i]).col + 1
                <= extent_cols(marks.spaces()) && marks.spaces()[i].row + 1 <= extent_rows(
                marks.spaces(),
            ),
        exists|i: int|
            0 <= i < marks.spaces().len() && (#[trigger] marks.spaces()[i]).col + 1
                == extent_cols(marks.spaces()),
        exists|i: int|
            0 <= i < marks.spaces().len() && (#[trigger] marks.spaces()[i]).row + 1
                == extent_rows(marks.spaces()),
{
    lemma_extent_cols(marks.spaces());
    lemma_extent_rows(marks.spaces());
    lemma_dirty_ids(marks.dirty());
    let k = dirty_ids(marks.dirty())[0];
    assert(marks.dirty()[k]);
    let space = marks.spaces()[k];
    assert(space.col >= 0 && space.row >= 0);
    let cols = extent_cols(marks.spaces());
    let rows = extent_rows(marks.spaces());
    let width = before.spec_space_width_pixels() as int;
    let height = before.spec_space_height_pixels() as int;
    assert(cols * width >= 1 && rows * height >= 1) by (nonlinear_arith)
        requires
            cols >= 1,
            rows >= 1,
            width >= 1,
            height >= 1,
    ;
}

/// A drawn frame keeps what was drawn before: whatever the texture grows
/// by, a pixel that the old texture held and that no marked space covers is
/// the same afterwards, and a pixel beyond the old texture that no marked
/// space covers is transparent.
pub proof fn lemma_frame_keeps_pixels(
    before: MapEngineMap,
    marks: PlacementGrid,
    tiles: MapEngineTileHandles,
    after: MapEngineMap,
    cleared: PlacementGrid,
    drawn: Result<usize, CompositeError>,
    x: int,
    y: int,
    c: int,
)
    requires
        before.wf(),
        frame(before, marks, tiles, after, cleared, drawn),
        drawn is Ok,
        0 <= x < after.spec_texture().spec_width(),
        0 <= y < after.spec_texture().spec_height(),
        0 <= c < 4,
        !marked_at(
            marks,
            before.spec_space_width_pixels() as int,
            before.spec_space_height_pixels() as int,
            x,
            y,
        ),
    ensures
        after.spec_texture().spec_width() >= before.spec_texture().spec_width(),
        after.spec_texture().spec_height() >= before.spec_texture().spec_height(),
        after.spec_texture().byte(x, y, c) == if x < before.spec_texture().spec_width() && y
            < before.spec_texture().spec_height() {
            before.spec_texture().byte(x, y, c)
        } else {
            0
        },
{
    if drawn->Ok_0 > 0 {
        lemma_span_grows(
            before.spec_cols() as int,
            after.spec_cols() as int,
            before.spec_space_width_pixels() as int,
        );
        lemma_span_grows(
            before.spec_rows() as int,
            after.spec_rows() as int,
            before.spec_space_height_pixels() as int,
        );
        assert(after.spec_texture().byte(x, y, c) == composited_byte(
            before,
            marks,
            tiles,
            x,
            y,
            c,
        ));
    }
}

/// A tile that the store resolves has the size that all its tiles share.
proof fn lemma_resolved_is_uniform(
    tiles: MapEngineTileHandles,
    tile: TileRef,
    width: int,
    height: int,
)
    requires
        tiles.wf(),
        uniform(tiles.loads(), width, height),
        tiles.texture_of(tile) is Some,
    ensures
        tiles.texture_of(tile)->Some_0.wf(),
        tiles.texture_of(tile)->Some_0.spec_width() == width,
        tiles.texture_of(tile)->Some_0.spec_height() == height,
        tiles.texture_of(tile)->Some_0.spec_depth() == 1,
{
    assert(tiles.loads()[slot_of(tiles.handles(), tile)] is Loaded);
}

} // verus!
