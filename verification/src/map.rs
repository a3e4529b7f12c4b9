//! The map texture: one pixel buffer that holds every space of the map, and
//! the bookkeeping that sizes it.
//!
//! The visible map is drawn as a single texture of `cols` by `rows` spaces,
//! each `space_width_pixels` by `space_height_pixels` pixels. The texture
//! starts as one transparent pixel, grows when a space lies beyond it, and
//! never shrinks.

use crate::map_space::MapSpace;
use crate::texture::{copy_texture, Texture, TRANSPARENT};
use vstd::prelude::*;

verus! {

/// How far a map texture has come.
#[derive(Clone, Copy, Debug, PartialEq, Eq, Structural)]
pub enum MapStage {
    /// The size of a space is not known yet.
    Empty,
    /// The size of a space is known and nothing has been drawn.
    Sized,
    /// At least one space has been drawn.
    Populated,
}

/// The length in pixels of `spaces` spaces of `pixels` pixels each, and 1
/// where that is nothing: a texture keeps at least one pixel.
pub open spec fn span(spaces: int, pixels: int) -> int {
    if spaces * pixels < 1 {
        1
    } else {
        spaces * pixels
    }
}

/// The larger of two counts.
pub open spec fn larger(a: int, b: int) -> int {
    if a < b {
        b
    } else {
        a
    }
}

/// Whether pixel `(x, y)` lies in the cell of `space`, for cells of `width`
/// by `height` pixels.
pub open spec fn covers(space: MapSpace, width: int, height: int, x: int, y: int) -> bool {
    &&& space.col * width <= x < (space.col + 1) * width
    &&& space.row * height <= y < (space.row + 1) * height
}

/// A texture of `cols` by `rows` spaces of `width` by `height` pixels can be
/// held: its sides and its pixel count fit in `u32`, its bytes in a buffer.
pub open spec fn holdable(cols: int, rows: int, width: int, height: int) -> bool {
    &&& span(cols, width) <= u32::MAX
    &&& span(rows, height) <= u32::MAX
    &&& span(cols, width) * span(rows, height) <= u32::MAX
    &&& span(cols, width) * span(rows, height) * 4 <= usize::MAX
}

/// The map texture and the grid it is sized for.
#[derive(Debug)]
pub struct MapEngineMap {
    /// The actual texture to be drawn on
    texture: Texture,
    /// Width of map in spaces (texture width = cols × space_width_pixels)
    cols: u32,
    /// Height of map in spaces (texture height = rows × space_height_pixels)
    rows: u32,
    /// Each space must be the same; keeping it here saves us reading it later.
    space_width_pixels: u32,
    /// Each space must be the same; keeping it here saves us reading it later.
    space_height_pixels: u32,
    stage: MapStage,
}

impl MapEngineMap {
    /// The texture as it stands.
    pub closed spec fn spec_texture(&self) -> Texture {
        self.texture
    }

    /// Width of the map in spaces.
    pub closed spec fn spec_cols(&self) -> u32 {
        self.cols
    }

    /// Height of the map in spaces.
    pub closed spec fn spec_rows(&self) -> u32 {
        self.rows
    }

    /// Width of one space in pixels, and 0 while it is not known.
    pub closed spec fn spec_space_width_pixels(&self) -> u32 {
        self.space_width_pixels
    }

    /// Height of one space in pixels, and 0 while it is not known.
    pub closed spec fn spec_space_height_pixels(&self) -> u32 {
        self.space_height_pixels
    }

    /// How far the map has come.
    pub closed spec fn spec_stage(&self) -> MapStage {
        self.stage
    }

    /// The texture is one flat layer that spans exactly the grid, and holds
    /// nothing but transparent pixels until a space is drawn.
    pub open spec fn wf(&self) -> bool {
        &&& self.spec_texture().wf()
        &&& self.spec_texture().spec_depth() == 1
        &&& self.spec_texture().spec_width() == span(
            self.spec_cols() as int,
            self.spec_space_width_pixels() as int,
        )
        &&& self.spec_texture().spec_height() == span(
            self.spec_rows() as int,
            self.spec_space_height_pixels() as int,
        )
        &&& self.spec_stage() is Empty ==> self.spec_space_width_pixels() == 0
            && self.spec_space_height_pixels() == 0
        &&& self.spec_stage() is Empty ==> self.spec_cols() == 0 && self.spec_rows() == 0
        &&& !(self.spec_stage() is Populated) ==> self.spec_texture().blank()
    }

    /// Whether the texture could grow to hold `cols` by `rows` spaces.
    pub open spec fn can_hold(&self, cols: int, rows: int) -> bool {
        holdable(
            larger(self.spec_cols() as int, cols),
            larger(self.spec_rows() as int, rows),
            self.spec_space_width_pixels() as int,
            self.spec_space_height_pixels() as int,
        )
    }

    /// The texture always holds the whole grid: it is at least as wide as
    /// the columns of the map and at least as high as its rows.
    pub proof fn lemma_texture_holds_grid(&self)
        requires
            self.wf(),
        ensures
            self.spec_texture().spec_width() >= self.spec_cols() * self.spec_space_width_pixels(),
            self.spec_texture().spec_height() >= self.spec_rows()
                * self.spec_space_height_pixels(),
    {
    }

    /// A map of no spaces: the minimum possible texture, one transparent
    /// pixel, and a space size that is still unknown.
    pub fn new() -> (map: MapEngineMap)
        ensures
            map.wf(),
            map.spec_stage() is Empty,
            map.spec_cols() == 0,
            map.spec_rows() == 0,
            map.spec_texture().spec_width() == 1,
            map.spec_texture().spec_height() == 1,
    {
        assert(span(0, 0) == 1) by (nonlinear_arith);
        MapEngineMap {
            texture: Texture::placeholder(),
            cols: 0,
            rows: 0,
            space_width_pixels: 0,
            space_height_pixels: 0,
            stage: MapStage::Empty,
        }
    }

    /// The texture as it stands, for whoever shows it.
    pub fn texture(&self) -> (texture: &Texture)
        ensures
            *texture == self.spec_texture(),
    {
        &self.texture
    }

    /// Width of the map in spaces.
    #[verifier::when_used_as_spec(spec_cols)]
    pub fn cols(&self) -> (cols: u32)
        ensures
            cols == self.spec_cols(),
    {
        self.cols
    }

    /// Height of the map in spaces.
    #[verifier::when_used_as_spec(spec_rows)]
    pub fn rows(&self) -> (rows: u32)
        ensures
            rows == self.spec_rows(),
    {
        self.rows
    }

    /// Width of one space in pixels.
    #[verifier::when_used_as_spec(spec_space_width_pixels)]
    pub fn space_width_pixels(&self) -> (pixels: u32)
        ensures
            pixels == self.spec_space_width_pixels(),
    {
        self.space_width_pixels
    }

    /// Height of one space in pixels.
    #[verifier::when_used_as_spec(spec_space_height_pixels)]
    pub fn space_height_pixels(&self) -> (pixels: u32)
        ensures
            pixels == self.spec_space_height_pixels(),
    {
        self.space_height_pixels
    }

    /// How far the map has come.
    #[verifier::when_used_as_spec(spec_stage)]
    pub fn stage(&self) -> (stage: MapStage)
        ensures
            stage == self.spec_stage(),
    {
        self.stage
    }

    /// Fixes the size of a space, once: a map whose space size is already
    /// known keeps it.
    pub fn set_space_size(&mut self, width: u32, height: u32) -> (taken: bool)
        requires
            old(self).wf(),
        ensures
            final(self).wf(),
            taken == (old(self).spec_stage() is Empty),
            taken ==> final(self).spec_stage() is Sized && final(self).spec_space_width_pixels()
                == width && final(self).spec_space_height_pixels() == height,
            taken ==> final(self).spec_texture() == old(self).spec_texture(),
            taken ==> final(self).spec_cols() == 0 && final(self).spec_rows() == 0,
            !taken ==> *final(self) == *old(self),
    {
        match self.stage {
            MapStage::Empty => {
                assert(0 * width == 0 && 0 * height == 0) by (nonlinear_arith);
                self.space_width_pixels = width;
                self.space_height_pixels = height;
                self.stage = MapStage::Sized;
                true
            },
            _ => false,
        }
    }
}

impl MapEngineMap {
    /// Whether the texture could grow to hold `cols` by `rows` spaces.
    pub fn fits(&self, cols: u32, rows: u32) -> (ok: bool)
        requires
            self.wf(),
        ensures
            ok == self.can_hold(cols as int, rows as int),
    {
        let new_cols = if self.cols < cols {
            cols
        } else {
            self.cols
        };
        let new_rows = if self.rows < rows {
            rows
        } else {
            self.rows
        };
        proof {
            lemma_product_fits(new_cols as int, self.space_width_pixels as int);
            lemma_product_fits(new_rows as int, self.space_height_pixels as int);
        }
        let across: u64 = new_cols as u64 * self.space_width_pixels as u64;
        let down: u64 = new_rows as u64 * self.space_height_pixels as u64;
        let width: u64 = if across < 1 {
            1
        } else {
            across
        };
        let height: u64 = if down < 1 {
            1
        } else {
            down
        };
        if width > u32::MAX as u64 || height > u32::MAX as u64 {
            return false;
        }
        proof {
            lemma_product_fits(width as int, height as int);
        }
        let area: u64 = width * height;
        if area > u32::MAX as u64 {
            return false;
        }
        area * 4 <= usize::MAX as u64
    }

    /// Makes room for `cols` by `rows` spaces. A texture that is too small
    /// in either direction is replaced by a transparent one of the needed
    /// size with the old texture copied to its top-left corner; the map
    /// never shrinks.
    pub fn grow_to(&mut self, cols: u32, rows: u32)
        requires
            old(self).wf(),
            !(old(self).spec_stage() is Empty),
            old(self).can_hold(cols as int, rows as int),
        ensures
            final(self).wf(),
            final(self).spec_stage() == old(self).spec_stage(),
            final(self).spec_space_width_pixels() == old(self).spec_space_width_pixels(),
            final(self).spec_space_height_pixels() == old(self).spec_space_height_pixels(),
            final(self).spec_cols() == larger(old(self).spec_cols() as int, cols as int),
            final(self).spec_rows() == larger(old(self).spec_rows() as int, rows as int),
            final(self).spec_texture().spec_width() >= old(self).spec_texture().spec_width(),
            final(self).spec_texture().spec_height() >= old(self).spec_texture().spec_height(),
            final(self).spec_texture().spec_width() == old(self).spec_texture().spec_width()
                && final(self).spec_texture().spec_height() == old(
                self
            ).spec_texture().spec_height() ==> final(self).spec_texture() == old(
                self
            ).spec_texture(),
            forall|x: int, y: int, c: int|
                0 <= x < final(self).spec_texture().spec_width()
                    && 0 <= y < final(self).spec_texture().spec_height()
                    && 0 <= c < 4
                    ==> #[trigger] final(self).spec_texture().byte(x, y, c)
                    == (if x < old(self).spec_texture().spec_width()
                    && y < old(self).spec_texture().spec_height() {
                    old(self).spec_texture().byte(x, y, c)
                } else {
                    0
                }),
    {
        let new_cols = if self.cols < cols {
            cols
        } else {
            self.cols
        };
        let new_rows = if self.rows < rows {
            rows
        } else {
            self.rows
        };
        proof {
            lemma_span_grows(
                self.cols as int,
                new_cols as int,
                self.space_width_pixels as int,
            );
            lemma_span_grows(
                self.rows as int,
                new_rows as int,
                self.space_height_pixels as int,
            );
            lemma_product_fits(new_cols as int, self.space_width_pixels as int);
            lemma_product_fits(new_rows as int, self.space_height_pixels as int);
        }
        let across: u64 = new_cols as u64 * self.space_width_pixels as u64;
        let down: u64 = new_rows as u64 * self.space_height_pixels as u64;
        let width: u32 = if across < 1 {
            1
        } else {
            across as u32
        };
        let height: u32 = if down < 1 {
            1
        } else {
            down as u32
        };
        if self.texture.width() < width || self.texture.height() < height {
            let ghost before = self.texture;
            let mut new_texture = match Texture::new_fill(width, height, TRANSPARENT) {
                Some(texture) => texture,
                None => {
                    assert(false);
                    return ;
                },
            };
            proof {
                new_texture.lemma_filled_is_blank();
            }
            // copy the old texture to the new one — 0,0 for top left
            copy_texture(&mut new_texture, &self.texture, 0, 0);
            // and swap it in.
            self.texture = new_texture;
        }
        self.cols = new_cols;
        self.rows = new_rows;
    }

    /// Draws `tile` on the cell of `space`, and leaves every other pixel as
    /// it is.
    pub fn draw(&mut self, space: MapSpace, tile: &Texture)
        requires
            old(self).wf(),
            !(old(self).spec_stage() is Empty),
            tile.wf(),
            tile.spec_depth() == 1,
            tile.spec_width() == old(self).spec_space_width_pixels(),
            tile.spec_height() == old(self).spec_space_height_pixels(),
            0 <= space.col < old(self).spec_cols(),
            0 <= space.row < old(self).spec_rows(),
        ensures
            final(self).wf(),
            final(self).spec_stage() is Populated,
            final(self).spec_space_width_pixels() == old(self).spec_space_width_pixels(),
            final(self).spec_space_height_pixels() == old(self).spec_space_height_pixels(),
            final(self).spec_cols() == old(self).spec_cols(),
            final(self).spec_rows() == old(self).spec_rows(),
            final(self).spec_texture().spec_width() == old(self).spec_texture().spec_width(),
            final(self).spec_texture().spec_height() == old(self).spec_texture().spec_height(),
            forall|x: int, y: int, c: int|
                0 <= x < old(self).spec_texture().spec_width()
                    && 0 <= y < old(self).spec_texture().spec_height()
                    && 0 <= c < 4
                    ==> #[trigger] final(self).spec_texture().byte(x, y, c) == (if covers(
                    space,
                    tile.spec_width() as int,
                    tile.spec_height() as int,
                    x,
                    y,
                ) {
                    tile.byte(
                        x - space.col * tile.spec_width(),
                        y - space.row * tile.spec_height(),
                        c,
                    )
                } else {
                    old(self).spec_texture().byte(x, y, c)
                }),
    {
        proof {
            lemma_cell_inside(
                space.col as int,
                self.cols as int,
                self.space_width_pixels as int,
            );
            lemma_cell_inside(
                space.row as int,
                self.rows as int,
                self.space_height_pixels as int,
            );
        }
        let rect_x = space.col as usize * self.space_width_pixels as usize;
        let rect_y = space.row as usize * self.space_height_pixels as usize;
        copy_texture(&mut self.texture, tile, rect_x, rect_y);
        self.stage = MapStage::Populated;
    }
}

/// The product of two counts that fit in 32 bits fits in 64.
proof fn lemma_product_fits(a: int, b: int)
    requires
        0 <= a <= u32::MAX,
        0 <= b <= u32::MAX,
    ensures
        0 <= a * b <= 0xffff_ffff * 0xffff_ffff,
{
    assert(0 <= a * b <= 0xffff_ffff * 0xffff_ffff) by (nonlinear_arith)
        requires
            0 <= a <= 0xffff_ffff,
            0 <= b <= 0xffff_ffff,
    ;
}

/// More spaces never make a shorter span.
pub proof fn lemma_span_grows(fewer: int, more: int, pixels: int)
    requires
        0 <= fewer <= more,
        0 <= pixels,
    ensures
        1 <= span(fewer, pixels) <= span(more, pixels),
{
    assert(fewer * pixels <= more * pixels) by (nonlinear_arith)
        requires
            0 <= fewer <= more,
            0 <= pixels,
    ;
}

/// The cell at index `at` of `count` cells lies inside their span.
proof fn lemma_cell_inside(at: int, count: int, pixels: int)
    requires
        0 <= at < count,
        0 <= pixels,
    ensures
        0 <= at * pixels,
        (at + 1) * pixels == at * pixels + pixels,
        at * pixels + pixels <= span(count, pixels),
{
    assert(0 <= at * pixels && (at + 1) * pixels == at * pixels + pixels && (at + 1) * pixels
        <= count * pixels) by (nonlinear_arith)
        requires
            0 <= at < count,
            0 <= pixels,
    ;
}

impl Default for MapEngineMap {
    /// default to an empty texture
    fn default() -> (map: MapEngineMap)
        ensures
            map.wf(),
            map.spec_stage() is Empty,
            map.spec_cols() == 0,
            map.spec_rows() == 0,
            map.spec_texture().spec_width() == 1,
            map.spec_texture().spec_height() == 1,
    {
        MapEngineMap::new()
    }
}

} // verus!
