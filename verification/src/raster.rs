//! The pixel buffer and its filling: every pixel gets the colour of its
//! shade, tile by tile.

use vstd::prelude::*;
use crate::arith::{
    lemma_cell_of_grid, lemma_exact_division, lemma_product_positive, lemma_run_inside,
};
use crate::config::ConfigError;
use crate::gradient::{get_interpolated_color, table_entry, Rgba, ARRAY_SIZE};
use crate::tiles::{TileLayout, BYTES_PER_PIXEL};

verus! {

/// What the escape-time iteration found of one point of the plane.
#[derive(Clone, Copy, Debug, PartialEq, Eq, Structural)]
pub enum Shade {
    /// The orbit stayed bounded: the point counts as a member of the set.
    Member,
    /// The orbit escaped. `level` is the integer part of the smoothed,
    /// scaled iteration depth.
    Escaped { level: u64 },
}

/// The colour that members of the set are drawn in: opaque black.
pub open spec fn member_color() -> Rgba {
    Rgba { r: 0, g: 0, b: 0, a: 255 }
}

/// The colour of a shade under a gradient table.
pub open spec fn shade_color(colors: Seq<Rgba>, shade: Shade) -> Rgba {
    match shade {
        Shade::Member => member_color(),
        Shade::Escaped { level } => table_entry(colors, level),
    }
}

/// One of the four bytes of a colour, in the order red, green, blue, alpha.
pub open spec fn channel(color: Rgba, k: int) -> u8 {
    if k == 0 {
        color.r
    } else if k == 1 {
        color.g
    } else if k == 2 {
        color.b
    } else {
        color.a
    }
}

/// The bytes of the image whose pixels have the given shades.
pub open spec fn image_bytes(colors: Seq<Rgba>, shades: Seq<Shade>) -> Seq<u8> {
    Seq::new(
        shades.len() * BYTES_PER_PIXEL as nat,
        |b: int|
            channel(
                shade_color(colors, shades[b / (BYTES_PER_PIXEL as int)]),
                b % (BYTES_PER_PIXEL as int),
            ),
    )
}

/// Maps what the iteration found of a point to the point's colour: opaque
/// black for a member, and for the others the gradient's entry.
pub fn mandelbrot_color_mapping(shade: Shade, colors: &Vec<Rgba>) -> (color: Rgba)
    requires
        colors.len() == ARRAY_SIZE,
    ensures
        color == shade_color(colors@, shade),
{
    match shade {
        Shade::Member => Rgba { r: 0, g: 0, b: 0, a: 255 },
        Shade::Escaped { level } => get_interpolated_color(colors, level),
    }
}

/// The bytes of `bytes` with the pixel that stands `offset` pixels into it
/// set to `color`.
pub open spec fn with_pixel(bytes: Seq<u8>, offset: int, color: Rgba) -> Seq<u8> {
    bytes.update(offset * BYTES_PER_PIXEL, color.r).update(
        offset * BYTES_PER_PIXEL + 1,
        color.g,
    ).update(offset * BYTES_PER_PIXEL + 2, color.b).update(offset * BYTES_PER_PIXEL + 3, color.a)
}

/// A grid of `width` by `height` pixels, row by row, four bytes each.
#[derive(Debug, PartialEq, Eq)]
pub struct PixelBuffer {
    pub width: usize,
    pub height: usize,
    pub data: Vec<u8>,
}

impl PixelBuffer {
    /// The buffer holds four bytes for each pixel of its grid.
    pub open spec fn wf(self) -> bool {
        self.data.len() == self.width * self.height * BYTES_PER_PIXEL
    }

    /// The number of pixels of the buffer.
    pub open spec fn pixel_count(self) -> int {
        self.width * self.height
    }

    /// The colour of a pixel.
    pub open spec fn pixel(self, index: int) -> Rgba {
        Rgba {
            r: self.data@[index * BYTES_PER_PIXEL],
            g: self.data@[index * BYTES_PER_PIXEL + 1],
            b: self.data@[index * BYTES_PER_PIXEL + 2],
            a: self.data@[index * BYTES_PER_PIXEL + 3],
        }
    }

    /// Whether the buffer fits a layout's grid.
    pub open spec fn fits(self, layout: TileLayout) -> bool {
        &&& self.wf()
        &&& self.width == layout.width
        &&& self.height == layout.height
    }

    /// A buffer of `width` by `height` transparent black pixels. No buffer
    /// can hold more than `isize::MAX` bytes.
    pub fn new(width: usize, height: usize) -> (made: Result<PixelBuffer, ConfigError>)
        ensures
            width * height * BYTES_PER_PIXEL > isize::MAX ==> made == Err::<
                PixelBuffer,
                ConfigError,
            >(ConfigError::ImageTooLarge),
            width * height * BYTES_PER_PIXEL <= isize::MAX ==> (made matches Ok(buffer)
                && buffer.wf() && buffer.width == width && buffer.height == height
                && forall|b: int| 0 <= b < buffer.data.len() ==> buffer.data@[b] == 0),
    {
        let pixels: usize = match width.checked_mul(height) {
            Some(pixels) => pixels,
            None => {
                proof {
                    lemma_product_grows(width as int * height as int);
                }
                return Err(ConfigError::ImageTooLarge);
            },
        };
        let bytes: usize = match pixels.checked_mul(BYTES_PER_PIXEL) {
            Some(bytes) => bytes,
            None => {
                return Err(ConfigError::ImageTooLarge);
            },
        };
        if bytes > isize::MAX as usize {
            return Err(ConfigError::ImageTooLarge);
        }
        let mut data: Vec<u8> = Vec::with_capacity(bytes);
        let mut b: usize = 0;
        while b < bytes
            invariant
                b <= bytes,
                data.len() == b,
                forall|k: int| 0 <= k < b ==> data@[k] == 0,
            decreases bytes - b,
        {
            data.push(0);
            b += 1;
        }
        Ok(PixelBuffer { width, height, data })
    }

    /// Tells whether the buffer holds four bytes for each pixel of its grid.
    pub fn is_whole(&self) -> (ok: bool)
        ensures
            ok == self.wf(),
    {
        match self.width.checked_mul(self.height) {
            Some(pixels) => match pixels.checked_mul(BYTES_PER_PIXEL) {
                Some(bytes) => self.data.len() == bytes,
                None => false,
            },
            None => {
                proof {
                    lemma_product_grows(self.width as int * self.height as int);
                }
                false
            },
        }
    }

    /// Reads the pixel in column `x` of row `y`.
    pub fn get_pixel(&self, x: usize, y: usize) -> (color: Rgba)
        requires
            self.wf(),
            x < self.width,
            y < self.height,
        ensures
            color == self.pixel(y * self.width + x),
    {
        proof {
            lemma_cell_of_grid(x as int, y as int, self.width as int, self.height as int);
        }
        let at: usize = (y * self.width + x) * BYTES_PER_PIXEL;
        Rgba { r: self.data[at], g: self.data[at + 1], b: self.data[at + 2], a: self.data[at + 3] }
    }

    /// Writes the four bytes of one pixel.
    pub fn put_pixel(&mut self, index: usize, color: Rgba)
        requires
            old(self).wf(),
            index < old(self).pixel_count(),
        ensures
            final(self).wf(),
            final(self).width == old(self).width,
            final(self).height == old(self).height,
            final(self).data@ == with_pixel(old(self).data@, index as int, color),
            final(self).pixel(index as int) == color,
            forall|other: int|
                0 <= other < old(self).pixel_count() && other != index ==> final(self).pixel(other)
                    == old(self).pixel(other),
    {
        let at: usize = index * BYTES_PER_PIXEL;
        self.data[at] = color.r;
        self.data[at + 1] = color.g;
        self.data[at + 2] = color.b;
        self.data[at + 3] = color.a;
    }
}

/// Four bytes a pixel are at least as many bytes as pixels.
proof fn lemma_product_grows(pixels: int)
    ensures
        pixels >= 0 ==> pixels * BYTES_PER_PIXEL >= pixels,
{
}

/// Writes the four bytes of the pixel that stands `offset` pixels into a
/// run of pixel bytes.
pub fn write_pixel(bytes: &mut [u8], offset: usize, color: Rgba)
    requires
        (offset + 1) * BYTES_PER_PIXEL <= old(bytes).len(),
    ensures
        final(bytes)@ == with_pixel(old(bytes)@, offset as int, color),
{
    let at: usize = offset * BYTES_PER_PIXEL;
    bytes[at] = color.r;
    bytes[at + 1] = color.g;
    bytes[at + 2] = color.b;
    bytes[at + 3] = color.a;
}

/// Fills the bytes of one tile, handed over as a run of its own, with the
/// colours of the tile's shades.
pub fn paint_chunk(chunk: &mut [u8], colors: &Vec<Rgba>, shades: &[Shade])
    requires
        colors.len() == ARRAY_SIZE,
        old(chunk).len() == shades.len() * BYTES_PER_PIXEL,
    ensures
        final(chunk)@ == image_bytes(colors@, shades@),
{
    let mut offset: usize = 0;
    while offset < shades.len()
        invariant
            colors.len() == ARRAY_SIZE,
            chunk.len() == shades.len() * BYTES_PER_PIXEL,
            offset <= shades.len(),
            forall|b: int|
                0 <= b < offset * BYTES_PER_PIXEL ==> chunk@[b] == image_bytes(
                    colors@,
                    shades@,
                )[b],
        decreases shades.len() - offset,
    {
        let color = mandelbrot_color_mapping(shades[offset], colors);
        write_pixel(chunk, offset, color);
        offset += 1;
    }
    assert(chunk@ =~= image_bytes(colors@, shades@));
}

/// The bytes of a run of whole pixels inside an image are the image of the
/// run's own shades: tiles can be painted one by one, in any order.
pub proof fn lemma_image_of_run(colors: Seq<Rgba>, shades: Seq<Shade>, first: int, count: int)
    requires
        0 <= first,
        0 <= count,
        first + count <= shades.len(),
    ensures
        image_bytes(colors, shades).subrange(
            first * BYTES_PER_PIXEL,
            (first + count) * BYTES_PER_PIXEL,
        ) == image_bytes(colors, shades.subrange(first, first + count)),
{
    let whole = image_bytes(colors, shades);
    let part = image_bytes(colors, shades.subrange(first, first + count));
    let cut = whole.subrange(first * BYTES_PER_PIXEL, (first + count) * BYTES_PER_PIXEL);
    assert(cut.len() == part.len());
    assert forall|b: int| 0 <= b < part.len() implies cut[b] == part[b] by {
        let p = b / (BYTES_PER_PIXEL as int);
        assert(shades.subrange(first, first + count)[p] == shades[first + p]);
        assert((first * BYTES_PER_PIXEL + b) / (BYTES_PER_PIXEL as int) == first + p);
    }
    assert(cut =~= part);
}

/// The chunk of a tile inside an image is the image of the tile's own
/// shades: painting every tile's chunk by itself gives the whole image.
pub proof fn lemma_chunk_of_image(
    layout: TileLayout,
    colors: Seq<Rgba>,
    shades: Seq<Shade>,
    tile: int,
)
    requires
        layout.wf(),
        0 <= tile < layout.tiles,
        shades.len() == layout.pixel_count(),
    ensures
        image_bytes(colors, shades).subrange(
            tile * layout.tile_bytes(),
            (tile + 1) * layout.tile_bytes(),
        ) == image_bytes(
            colors,
            shades.subrange(
                layout.first_pixel(tile),
                layout.first_pixel(tile) + layout.tile_pixels(),
            ),
        ),
{
    let per_tile = layout.tile_pixels();
    let first = layout.first_pixel(tile);
    lemma_product_positive(layout.width as int, layout.height as int);
    lemma_exact_division(layout.pixel_count(), layout.tiles as int);
    lemma_run_inside(tile, per_tile, layout.tiles as int);
    assert(tile * (per_tile * 4) == first * 4) by (nonlinear_arith)
        requires
            first == tile * per_tile,
    ;
    assert((tile + 1) * (per_tile * 4) == (first + per_tile) * 4) by (nonlinear_arith)
        requires
            first == tile * per_tile,
    ;
    lemma_image_of_run(colors, shades, first, per_tile);
}

/// Whether a buffer holds the image of the given shades under the given
/// gradient table.
pub open spec fn rendered(buffer: PixelBuffer, colors: Seq<Rgba>, shades: Seq<Shade>) -> bool {
    buffer.data@ == image_bytes(colors, shades)
}

/// Fills the pixels of one tile with the colours of their shades, and leaves
/// the other tiles as they are. `shades` holds the shade of every pixel of
/// the grid.
pub fn paint_tile(
    buffer: &mut PixelBuffer,
    layout: &TileLayout,
    tile: usize,
    colors: &Vec<Rgba>,
    shades: &Vec<Shade>,
)
    requires
        layout.wf(),
        old(buffer).fits(*layout),
        tile < layout.tiles,
        colors.len() == ARRAY_SIZE,
        shades.len() == layout.pixel_count(),
    ensures
        final(buffer).fits(*layout),
        forall|p: int|
            layout.in_tile(tile as int, p) ==> #[trigger] final(buffer).pixel(p) == shade_color(
                colors@,
                shades@[p],
            ),
        forall|p: int|
            0 <= p < layout.pixel_count() && !layout.in_tile(tile as int, p)
                ==> #[trigger] final(buffer).pixel(p) == old(buffer).pixel(p),
{
    let per_tile = layout.pixels_per_tile();
    let first = layout.chunk_start_pixel_index(tile);
    let mut offset: usize = 0;
    while offset < per_tile
        invariant
            layout.wf(),
            buffer.fits(*layout),
            tile < layout.tiles,
            colors.len() == ARRAY_SIZE,
            shades.len() == layout.pixel_count(),
            per_tile == layout.tile_pixels(),
            first == layout.first_pixel(tile as int),
            first + per_tile <= layout.pixel_count(),
            offset <= per_tile,
            forall|p: int|
                first <= p < first + offset ==> #[trigger] buffer.pixel(p) == shade_color(
                    colors@,
                    shades@[p],
                ),
            forall|p: int|
                0 <= p < layout.pixel_count() && !(first <= p < first + offset)
                    ==> #[trigger] buffer.pixel(p) == old(buffer).pixel(p),
        decreases per_tile - offset,
    {
        let pixel = layout.pixel_index(tile, offset);
        let color = mandelbrot_color_mapping(shades[pixel], colors);
        buffer.put_pixel(pixel, color);
        offset += 1;
    }
}

/// Fills the whole buffer, tile after tile: every pixel gets the colour of
/// its shade, whatever the buffer held before.
pub fn render(
    buffer: &mut PixelBuffer,
    layout: &TileLayout,
    colors: &Vec<Rgba>,
    shades: &Vec<Shade>,
)
    requires
        layout.wf(),
        old(buffer).fits(*layout),
        colors.len() == ARRAY_SIZE,
        shades.len() == layout.pixel_count(),
    ensures
        final(buffer).fits(*layout),
        rendered(*final(buffer), colors@, shades@),
        forall|p: int|
            0 <= p < layout.pixel_count() ==> #[trigger] final(buffer).pixel(p) == shade_color(
                colors@,
                shades@[p],
            ),
{
    let per_tile = layout.pixels_per_tile();
    let mut tile: usize = 0;
    while tile < layout.tiles
        invariant
            layout.wf(),
            buffer.fits(*layout),
            colors.len() == ARRAY_SIZE,
            shades.len() == layout.pixel_count(),
            per_tile == layout.tile_pixels(),
            per_tile > 0,
            layout.tiles * per_tile == layout.pixel_count(),
            tile <= layout.tiles,
            layout.first_pixel(tile as int) <= layout.pixel_count(),
            forall|p: int|
                0 <= p < layout.first_pixel(tile as int) ==> #[trigger] buffer.pixel(p)
                    == shade_color(colors@, shades@[p]),
        decreases layout.tiles - tile,
    {
        proof {
            lemma_run_inside(tile as int, per_tile as int, layout.tiles as int);
        }
        paint_tile(buffer, layout, tile, colors, shades);
        tile += 1;
    }
    proof {
        let bytes = image_bytes(colors@, shades@);
        assert(buffer.data@.len() == bytes.len());
        assert forall|b: int| 0 <= b < bytes.len() implies buffer.data@[b] == bytes[b] by {
            let p = b / (BYTES_PER_PIXEL as int);
            assert(buffer.pixel(p) == shade_color(colors@, shades@[p]));
        }
        assert(buffer.data@ =~= bytes);
    }
}

/// Rendering is repeatable: two buffers that were rendered from the same
/// shades under the same gradient table hold the same bytes, whatever each
/// held before.
pub proof fn lemma_render_repeatable(
    first: PixelBuffer,
    second: PixelBuffer,
    colors: Seq<Rgba>,
    shades: Seq<Shade>,
)
    requires
        rendered(first, colors, shades),
        rendered(second, colors, shades),
    ensures
        first.data@ == second.data@,
{
}

} // verus!

