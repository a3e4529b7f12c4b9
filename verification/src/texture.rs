//! RGBA pixel buffers and the row-by-row copy of one buffer into another.
//!
//! A [`Texture`] holds what the compositing logic reads of an image: its
//! extent in pixels and its bytes, four per pixel, rows from top to bottom.

use bevy::render::render_resource::{Extent3d, TextureDimension, TextureFormat};
use bevy::render::texture::{Image, TextureFormatPixelInfo};
use vstd::prelude::*;

verus! {

/// Bytes of one pixel: red, green, blue, alpha.
pub const BYTES_PER_PIXEL: usize = 4;

/// The fill of a buffer that nothing has been drawn on: transparent black.
pub const TRANSPARENT: [u8; 4] = [0, 0, 0, 0];

/// Where channel `c` of pixel `(x, y)` lies in a row-major buffer whose
/// rows are `width` pixels long.
pub open spec fn byte_index(width: int, x: int, y: int, c: int) -> int {
    (y * width + x) * 4 + c
}

/// An index built from coordinates inside a `width` by `height` image lies
/// inside its first `width * height` pixels.
pub proof fn lemma_byte_index_bound(width: int, height: int, x: int, y: int, c: int)
    requires
        0 <= x < width,
        0 <= y < height,
        0 <= c < 4,
    ensures
        0 <= byte_index(width, x, y, c) < width * height * 4,
{
    assert(0 <= y * width && (y + 1) * width <= height * width && (y + 1) * width == y * width
        + width && height * width == width * height) by (nonlinear_arith)
        requires
            0 <= y < height,
            0 < width,
    ;
}

/// Two coordinates inside the same row length share an index only when they
/// are the same coordinate.
pub proof fn lemma_byte_index_injective(
    width: int,
    x1: int,
    y1: int,
    c1: int,
    x2: int,
    y2: int,
    c2: int,
)
    requires
        0 <= x1 < width,
        0 <= x2 < width,
        0 <= c1 < 4,
        0 <= c2 < 4,
        byte_index(width, x1, y1, c1) == byte_index(width, x2, y2, c2),
    ensures
        x1 == x2,
        y1 == y2,
        c1 == c2,
{
    assert(y1 == y2) by (nonlinear_arith)
        requires
            0 <= x1 < width,
            0 <= x2 < width,
            y1 * width + x1 == y2 * width + x2,
    ;
}

/// Every index among the first `width * height` pixels is the index of one
/// coordinate inside the image.
pub proof fn lemma_byte_index_onto(width: int, height: int, i: int) -> (at: (int, int, int))
    requires
        0 <= width,
        0 <= height,
        0 <= i < width * height * 4,
    ensures
        0 <= at.0 < width,
        0 <= at.1 < height,
        0 <= at.2 < 4,
        byte_index(width, at.0, at.1, at.2) == i,
{
    let p = i / 4;
    let c = i % 4;
    assert(0 < width) by (nonlinear_arith)
        requires
            0 <= width,
            0 < width * height * 4,
    ;
    let y = p / width;
    let x = p % width;
    vstd::arithmetic::div_mod::lemma_fundamental_div_mod(p, width);
    vstd::arithmetic::div_mod::lemma_mod_pos_bound(p, width);
    assert(0 <= y < height) by (nonlinear_arith)
        requires
            0 < width,
            0 <= x < width,
            0 <= p < width * height,
            p == width * y + x,
    ;
    assert(y * width == width * y) by (nonlinear_arith);
    (x, y, c)
}

/// Asks `TextureFormat::pixel_size` of the `bevy` crate for the size of an
/// `Rgba8UnormSrgb` pixel. Believed of it: four bytes, one per channel.
#[verifier::external_body]
fn rgba_pixel_size() -> (size: usize)
    ensures
        size == BYTES_PER_PIXEL,
{
    TextureFormat::Rgba8UnormSrgb.pixel_size()
}

/// Calls `Image::new_fill` of the `bevy` crate for a two-dimensional
/// `Rgba8UnormSrgb` image of `width` by `height` pixels in one layer, and
/// hands back its bytes. Believed of it: the buffer holds four bytes for each
/// pixel, and every pixel is a copy of `pixel`. The call computes the pixel
/// count in `u32` and wants room for at least one pixel, so neither an empty
/// extent nor one beyond `u32::MAX` pixels is handed to it.
#[verifier::external_body]
fn filled_pixels(width: u32, height: u32, pixel: &[u8; 4]) -> (data: Vec<u8>)
    requires
        1 <= width * height <= u32::MAX,
        width * height * 4 <= usize::MAX,
    ensures
        data@.len() == width * height * 4,
        forall|i: int| 0 <= i < data@.len() ==> #[trigger] data@[i] == pixel@[i % 4],
{
    let size = Extent3d { width, height, depth_or_array_layers: 1 };
    Image::new_fill(size, TextureDimension::D2, pixel, TextureFormat::Rgba8UnormSrgb).data
}

/// A decoded image: `width` by `height` pixels in `depth` layers, and its
/// bytes.
#[derive(Debug)]
pub struct Texture {
    width: u32,
    height: u32,
    depth: u32,
    data: Vec<u8>,
}

impl View for Texture {
    type V = Seq<u8>;

    /// The bytes of the image.
    closed spec fn view(&self) -> Seq<u8> {
        self.data@
    }
}

impl Texture {
    /// Pixels per row.
    pub closed spec fn spec_width(&self) -> u32 {
        self.width
    }

    /// Rows per layer.
    pub closed spec fn spec_height(&self) -> u32 {
        self.height
    }

    /// Layers.
    pub closed spec fn spec_depth(&self) -> u32 {
        self.depth
    }

    /// The buffer holds exactly the bytes of its extent.
    pub open spec fn wf(&self) -> bool {
        self@.len() == self.spec_width() * self.spec_height() * self.spec_depth() * 4
    }

    /// Channel `c` of pixel `(x, y)` in the first layer.
    pub open spec fn byte(&self, x: int, y: int, c: int) -> u8 {
        self@[byte_index(self.spec_width() as int, x, y, c)]
    }

    /// Every pixel of the first layer is transparent black.
    pub open spec fn blank(&self) -> bool {
        forall|x: int, y: int, c: int|
            0 <= x < self.spec_width() && 0 <= y < self.spec_height() && 0 <= c < 4
                ==> #[trigger] self.byte(x, y, c) == 0
    }

    /// Every byte of the image is `pixel`'s byte for its channel.
    pub open spec fn filled_with(&self, pixel: [u8; 4]) -> bool {
        forall|i: int| 0 <= i < self@.len() ==> #[trigger] self@[i] == pixel@[i % 4]
    }

    /// Wraps decoded bytes, if there are as many as the extent asks for.
    pub fn new(width: u32, height: u32, depth: u32, data: Vec<u8>) -> (r: Option<Texture>)
        ensures
            r is Some <==> data@.len() == width * height * depth * 4,
            r matches Some(t) ==> t.wf() && t.spec_width() == width && t.spec_height() == height
                && t.spec_depth() == depth && t@ == data@,
    {
        assert(0 <= width * height * depth * 4 <= 0xffff_ffff * 0xffff_ffff * 0xffff_ffff * 4)
            by (nonlinear_arith)
            requires
                0 <= width <= 0xffff_ffff,
                0 <= height <= 0xffff_ffff,
                0 <= depth <= 0xffff_ffff,
        ;
        assert(width * height <= 0xffff_ffff * 0xffff_ffff) by (nonlinear_arith)
            requires
                0 <= width <= 0xffff_ffff,
                0 <= height <= 0xffff_ffff,
        ;
        let area: u128 = width as u128 * height as u128;
        assert(area * depth <= 0xffff_ffff * 0xffff_ffff * 0xffff_ffff) by (nonlinear_arith)
            requires
                0 <= area <= 0xffff_ffff * 0xffff_ffff,
                0 <= depth <= 0xffff_ffff,
        ;
        let bytes: u128 = area * depth as u128 * 4;
        if data.len() as u128 == bytes {
            Some(Texture { width, height, depth, data })
        } else {
            None
        }
    }

    /// A one-layer image of `width` by `height` pixels, each of them `pixel`.
    ///
    /// `None` where the image has more than `u32::MAX` pixels or more bytes
    /// than a buffer can hold.
    pub fn new_fill(width: u32, height: u32, pixel: [u8; 4]) -> (r: Option<Texture>)
        ensures
            r is Some <==> width * height <= u32::MAX && width * height * 4 <= usize::MAX,
            r matches Some(t) ==> t.wf() && t.spec_width() == width && t.spec_height() == height
                && t.spec_depth() == 1 && t.filled_with(pixel),
    {
        assert(0 <= width * height <= 0xffff_ffff * 0xffff_ffff) by (nonlinear_arith)
            requires
                0 <= width <= 0xffff_ffff,
                0 <= height <= 0xffff_ffff,
        ;
        let area: u64 = width as u64 * height as u64;
        if area > u32::MAX as u64 || area * 4 > usize::MAX as u64 {
            return None;
        }
        let data = if area == 0 {
            Vec::new()
        } else {
            filled_pixels(width, height, &pixel)
        };
        assert(width * height * 1 * 4 == width * height * 4);
        Some(Texture { width, height, depth: 1, data })
    }

    /// The smallest image that can be shown: one transparent pixel.
    pub fn placeholder() -> (t: Texture)
        ensures
            t.wf(),
            t.spec_width() == 1,
            t.spec_height() == 1,
            t.spec_depth() == 1,
            t.blank(),
    {
        let data = filled_pixels(1, 1, &TRANSPARENT);
        let t = Texture { width: 1, height: 1, depth: 1, data };
        proof {
            t.lemma_filled_is_blank();
        }
        t
    }

    /// The channels of its pixels are all there is to a flat image: two flat
    /// images of one extent that agree on every channel of every pixel hold
    /// the same bytes.
    pub proof fn lemma_pixels_determine_bytes(&self, other: Texture)
        requires
            self.wf(),
            other.wf(),
            self.spec_depth() == 1,
            other.spec_depth() == 1,
            self.spec_width() == other.spec_width(),
            self.spec_height() == other.spec_height(),
            forall|x: int, y: int, c: int|
                0 <= x < self.spec_width() && 0 <= y < self.spec_height() && 0 <= c < 4
                    ==> #[trigger] self.byte(x, y, c) == other.byte(x, y, c),
        ensures
            self@ == other@,
    {
        let width = self.spec_width() as int;
        let height = self.spec_height() as int;
        assert forall|i: int| 0 <= i < self@.len() implies self@[i] == other@[i] by {
            let at = lemma_byte_index_onto(width, height, i);
            assert(self.byte(at.0, at.1, at.2) == other.byte(at.0, at.1, at.2));
        }
    }

    /// An image filled with the transparent pixel is blank.
    pub proof fn lemma_filled_is_blank(&self)
        requires
            self.wf(),
            self.spec_depth() >= 1,
            self.filled_with(TRANSPARENT),
        ensures
            self.blank(),
    {
        assert forall|x: int, y: int, c: int|
            0 <= x < self.spec_width() && 0 <= y < self.spec_height() && 0 <= c
                < 4 implies #[trigger] self.byte(x, y, c) == 0 by {
            lemma_byte_index_bound(self.spec_width() as int, self.spec_height() as int, x, y, c);
            lemma_layers_hold_first(
                self.spec_width() as int,
                self.spec_height() as int,
                self.spec_depth() as int,
            );
        }
    }

    /// Pixels per row.
    #[verifier::when_used_as_spec(spec_width)]
    pub fn width(&self) -> (w: u32)
        ensures
            w == self.spec_width(),
    {
        self.width
    }

    /// Rows per layer.
    #[verifier::when_used_as_spec(spec_height)]
    pub fn height(&self) -> (h: u32)
        ensures
            h == self.spec_height(),
    {
        self.height
    }

    /// Layers.
    #[verifier::when_used_as_spec(spec_depth)]
    pub fn depth(&self) -> (d: u32)
        ensures
            d == self.spec_depth(),
    {
        self.depth
    }

    /// The bytes, row by row.
    pub fn data(&self) -> (bytes: &Vec<u8>)
        ensures
            bytes@ == self@,
    {
        &self.data
    }
}

/// Copies the whole of `source_texture` into `target_texture`, row by row,
/// with its top-left pixel at `(rect_x, rect_y)`.
///
/// The two buffers have the same layout but different row lengths, so each
/// source row goes to its own offset within the wider target row. Nothing
/// outside the rectangle changes.
pub fn copy_texture(
    target_texture: &mut Texture,
    source_texture: &Texture,
    rect_x: usize,
    rect_y: usize,
)
    requires
        old(target_texture).wf(),
        source_texture.wf(),
        old(target_texture).spec_depth() >= 1,
        source_texture.spec_depth() >= 1,
        rect_x + source_texture.spec_width() <= old(target_texture).spec_width(),
        rect_y + source_texture.spec_height() <= old(target_texture).spec_height(),
    ensures
        final(target_texture).wf(),
        final(target_texture).spec_width() == old(target_texture).spec_width(),
        final(target_texture).spec_height() == old(target_texture).spec_height(),
        final(target_texture).spec_depth() == old(target_texture).spec_depth(),
        forall|x: int, y: int, c: int|
            0 <= x < old(target_texture).spec_width() && 0 <= y < old(target_texture).spec_height()
                && 0 <= c < 4 ==> #[trigger] final(target_texture).byte(x, y, c) == (if rect_x <= x
                < rect_x + source_texture.spec_width() && rect_y <= y < rect_y
                + source_texture.spec_height() {
                source_texture.byte(x - rect_x, y - rect_y, c)
            } else {
                old(target_texture).byte(x, y, c)
            }),
        forall|i: int|
            old(target_texture).spec_width() * old(target_texture).spec_height() * 4 <= i
                < old(target_texture)@.len() ==> #[trigger] final(target_texture)@[i]
                == old(target_texture)@[i],
{
    let rect_width = source_texture.width as usize;
    let rect_height = source_texture.height as usize;
    let target_width = target_texture.width as usize;
    let format_size = rgba_pixel_size();
    let ghost before = *target_texture;
    let ghost tw = target_width as int;
    let ghost th = target_texture.height as int;
    let ghost sw = rect_width as int;
    let ghost sh = rect_height as int;
    proof {
        lemma_layers_hold_first(tw, th, target_texture.depth as int);
        lemma_layers_hold_first(sw, sh, source_texture.depth as int);
        assert(target_texture.data.len() <= usize::MAX);
        assert(source_texture.data.len() <= usize::MAX);
    }

    let mut texture_y: usize = 0;
    while texture_y < rect_height
        invariant
            texture_y <= rect_height,
            format_size == 4,
            rect_width == source_texture.width,
            rect_height == source_texture.height,
            target_width == target_texture.width,
            tw == target_width,
            th == target_texture.height,
            sw == rect_width,
            sh == rect_height,
            source_texture.wf(),
            target_texture.wf(),
            target_texture.width == before.width,
            target_texture.height == before.height,
            target_texture.depth == before.depth,
            target_texture.data@.len() == before.data@.len(),
            tw * th * 4 <= target_texture.data@.len() <= usize::MAX,
            sw * sh * 4 <= source_texture.data@.len() <= usize::MAX,
            rect_x + sw <= tw,
            rect_y + sh <= th,
            forall|x: int, y: int, c: int|
                0 <= x < tw && 0 <= y < th && 0 <= c < 4 ==> #[trigger] target_texture.byte(x, y, c)
                    == (if rect_x <= x < rect_x + sw && rect_y <= y < rect_y + texture_y {
                    source_texture.byte(x - rect_x, y - rect_y, c)
                } else {
                    before.byte(x, y, c)
                }),
            forall|i: int|
                tw * th * 4 <= i < before.data@.len() ==> #[trigger] target_texture.data@[i]
                    == before.data@[i],
        decreases rect_height - texture_y,
    {
        let bound_y = rect_y + texture_y;
        proof {
            lemma_row_bounds(tw, th, rect_x as int, bound_y as int, sw);
            lemma_row_bounds(sw, sh, 0, texture_y as int, sw);
        }
        let begin = (bound_y * target_width + rect_x) * format_size;
        let texture_begin = texture_y * rect_width * format_size;
        let row_bytes = rect_width * format_size;
        let ghost row_start = *target_texture;

        let mut offset: usize = 0;
        while offset < row_bytes
            invariant
                offset <= row_bytes,
                row_bytes == sw * 4,
                texture_y < rect_height,
                bound_y == rect_y + texture_y,
                begin == (bound_y * tw + rect_x) * 4,
                texture_begin == texture_y * sw * 4,
                begin + row_bytes <= tw * th * 4,
                texture_begin + row_bytes <= sw * sh * 4,
                tw == target_texture.width,
                th == target_texture.height,
                sw == source_texture.width,
                sh == source_texture.height,
                source_texture.wf(),
                target_texture.wf(),
                target_texture.width == before.width,
                target_texture.height == before.height,
                target_texture.depth == before.depth,
                target_texture.data@.len() == before.data@.len(),
                tw * th * 4 <= target_texture.data@.len() <= usize::MAX,
                sw * sh * 4 <= source_texture.data@.len() <= usize::MAX,
                rect_x + sw <= tw,
                rect_y + sh <= th,
                forall|x: int, y: int, c: int|
                    0 <= x < tw && 0 <= y < th && 0 <= c < 4 ==> #[trigger] target_texture.byte(
                        x,
                        y,
                        c,
                    ) == (if y == bound_y && rect_x <= x < rect_x + sw && (x - rect_x) * 4 + c
                        < offset {
                        source_texture.byte(x - rect_x, y - rect_y, c)
                    } else {
                        row_start.byte(x, y, c)
                    }),
                forall|i: int|
                    tw * th * 4 <= i < before.data@.len() ==> #[trigger] target_texture.data@[i]
                        == before.data@[i],
            decreases row_bytes - offset,
        {
            let value = source_texture.data[texture_begin + offset];
            let ghost earlier = *target_texture;
            target_texture.data.set(begin + offset, value);
            proof {
                let px = rect_x + offset as int / 4;
                let pc = offset as int % 4;
                assert(begin + offset == byte_index(tw, px, bound_y as int, pc));
                assert(texture_begin + offset == byte_index(sw, px - rect_x, texture_y as int, pc));
                assert forall|x: int, y: int, c: int|
                    0 <= x < tw && 0 <= y < th && 0 <= c < 4 implies #[trigger] target_texture.byte(
                    x,
                    y,
                    c,
                ) == (if y == bound_y && rect_x <= x < rect_x + sw && (x - rect_x) * 4 + c < offset
                    + 1 {
                    source_texture.byte(x - rect_x, y - rect_y, c)
                } else {
                    row_start.byte(x, y, c)
                }) by {
                    lemma_byte_index_bound(tw, th, x, y, c);
                    if byte_index(tw, x, y, c) == begin + offset {
                        lemma_byte_index_injective(tw, x, y, c, px, bound_y as int, pc);
                    }
                    assert(earlier.byte(x, y, c) == earlier.data@[byte_index(tw, x, y, c)]);
                }
            }
            offset += 1;
        }
        texture_y += 1;
    }
}

/// The first layer of an image lies within its bytes.
pub proof fn lemma_layers_hold_first(width: int, height: int, depth: int)
    requires
        0 <= width,
        0 <= height,
        1 <= depth,
    ensures
        0 <= width * height * 4 <= width * height * depth * 4,
{
    assert(0 <= width * height * 4 <= width * height * depth * 4) by (nonlinear_arith)
        requires
            0 <= width,
            0 <= height,
            1 <= depth,
    ;
}

/// A run of `run` pixels that starts at column `x` of row `y` ends inside
/// the image.
proof fn lemma_row_bounds(width: int, height: int, x: int, y: int, run: int)
    requires
        0 <= x,
        0 <= run,
        x + run <= width,
        0 <= y < height,
    ensures
        0 <= (y * width + x) * 4,
        (y * width + x) * 4 + run * 4 <= width * height * 4,
        0 <= y * width,
        y * width <= width * height,
{
    assert(0 <= y * width && (y + 1) * width <= height * width && (y + 1) * width == y * width
        + width && height * width == width * height) by (nonlinear_arith)
        requires
            0 <= y < height,
            0 <= width,
    ;
}

} // verus!
