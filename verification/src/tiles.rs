//! The tiling of the pixel grid: the pixels, counted row by row, are cut into
//! equal runs, one for each unit of work.

use vstd::prelude::*;
use crate::arith::{
    lemma_exact_division, lemma_grid_of_cell, lemma_product_positive, lemma_quotient_below,
    lemma_quotient_run, lemma_run_inside, lemma_run_is_quotient,
};
use crate::config::ConfigError;

verus! {

/// Bytes that one pixel takes in a buffer: red, green, blue, alpha.
pub const BYTES_PER_PIXEL: usize = 4;

/// A pixel grid and the number of tiles it is cut into.
#[derive(Clone, Copy, Debug, PartialEq, Eq)]
pub struct TileLayout {
    pub width: usize,
    pub height: usize,
    pub tiles: usize,
}

impl TileLayout {
    /// The number of pixels of the grid.
    pub open spec fn pixel_count(self) -> int {
        self.width * self.height
    }

    /// The number of pixels of one tile.
    pub open spec fn tile_pixels(self) -> int {
        self.pixel_count() / (self.tiles as int)
    }

    /// The number of bytes of one tile.
    pub open spec fn tile_bytes(self) -> int {
        self.tile_pixels() * BYTES_PER_PIXEL
    }

    /// A layout that can be rendered: the grid has pixels, its bytes can be
    /// counted, and the tiles divide the pixels evenly.
    pub open spec fn wf(self) -> bool {
        &&& self.width > 0
        &&& self.height > 0
        &&& self.pixel_count() * BYTES_PER_PIXEL <= usize::MAX
        &&& self.tiles > 0
        &&& self.pixel_count() % (self.tiles as int) == 0
    }

    /// The index of the first pixel of a tile.
    pub open spec fn first_pixel(self, tile: int) -> int {
        tile * self.tile_pixels()
    }

    /// The index of the pixel that stands `offset` pixels into a tile.
    pub open spec fn pixel_at(self, tile: int, offset: int) -> int {
        self.first_pixel(tile) + offset
    }

    /// Whether a pixel belongs to a tile.
    pub open spec fn in_tile(self, tile: int, pixel: int) -> bool {
        self.first_pixel(tile) <= pixel < self.first_pixel(tile) + self.tile_pixels()
    }

    /// The pixels of a tile.
    pub open spec fn tile_set(self, tile: int) -> Set<int> {
        Set::new(|pixel: int| self.in_tile(tile, pixel))
    }

    /// The pixels of all tiles together.
    pub open spec fn all_tiles(self) -> Set<int> {
        Set::new(
            |pixel: int| exists|tile: int| 0 <= tile < self.tiles && self.in_tile(tile, pixel),
        )
    }

    /// The pixels of the grid.
    pub open spec fn all_pixels(self) -> Set<int> {
        Set::new(|pixel: int| 0 <= pixel < self.pixel_count())
    }

    /// Column and row of a pixel, the pixels being counted row by row.
    pub open spec fn point_of(self, pixel: int) -> (int, int) {
        (pixel % (self.width as int), pixel / (self.width as int))
    }

    /// What is wrong with cutting a grid of `width` by `height` pixels into
    /// `tiles` tiles, if anything is: the first of the faults in the order
    /// empty image, image too large, no tiles, uneven tiles.
    pub open spec fn fault(width: usize, height: usize, tiles: usize) -> Option<ConfigError> {
        if width == 0 || height == 0 {
            Some(ConfigError::EmptyImage)
        } else if width * height * BYTES_PER_PIXEL > usize::MAX {
            Some(ConfigError::ImageTooLarge)
        } else if tiles == 0 {
            Some(ConfigError::NoTiles)
        } else if (width * height) % (tiles as int) != 0 {
            Some(ConfigError::UnevenTiles)
        } else {
            None
        }
    }

    /// Checks a layout: it is fit for rendering exactly when nothing is
    /// wrong with it.
    pub fn validate(&self) -> (checked: Result<(), ConfigError>)
        ensures
            checked is Ok <==> self.wf(),
            match checked {
                Ok(_) => Self::fault(self.width, self.height, self.tiles) is None,
                Err(e) => Self::fault(self.width, self.height, self.tiles) == Some(e),
            },
    {
        if self.width == 0 || self.height == 0 {
            return Err(ConfigError::EmptyImage);
        }
        let pixels: usize = match self.width.checked_mul(self.height) {
            Some(pixels) => pixels,
            None => {
                return Err(ConfigError::ImageTooLarge);
            },
        };
        if pixels.checked_mul(BYTES_PER_PIXEL).is_none() {
            return Err(ConfigError::ImageTooLarge);
        }
        if self.tiles == 0 {
            return Err(ConfigError::NoTiles);
        }
        if pixels % self.tiles != 0 {
            return Err(ConfigError::UnevenTiles);
        }
        Ok(())
    }

    /// Cuts a grid of `width` by `height` pixels into `tiles` tiles, or says
    /// what is wrong with doing so.
    pub fn new(width: usize, height: usize, tiles: usize) -> (made: Result<TileLayout, ConfigError>)
        ensures
            match made {
                Ok(layout) => Self::fault(width, height, tiles) is None && layout.wf()
                    && layout.width == width && layout.height == height && layout.tiles
                    == tiles,
                Err(e) => Self::fault(width, height, tiles) == Some(e),
            },
    {
        let layout = TileLayout { width, height, tiles };
        match layout.validate() {
            Ok(_) => Ok(layout),
            Err(e) => Err(e),
        }
    }

    /// The number of pixels of the grid.
    pub fn total_pixels(&self) -> (n: usize)
        requires
            self.wf(),
        ensures
            n == self.pixel_count(),
            n > 0,
    {
        proof {
            lemma_product_positive(self.width as int, self.height as int);
        }
        self.width * self.height
    }

    /// The number of pixels of one tile.
    pub fn pixels_per_tile(&self) -> (n: usize)
        requires
            self.wf(),
        ensures
            n == self.tile_pixels(),
            n > 0,
            self.tiles * n == self.pixel_count(),
    {
        let total = self.total_pixels();
        proof {
            lemma_exact_division(total as int, self.tiles as int);
        }
        total / self.tiles
    }

    /// The number of bytes of one tile.
    pub fn chunk_size_bytes(&self) -> (n: usize)
        requires
            self.wf(),
        ensures
            n == self.tile_bytes(),
            n > 0,
            self.tiles * n == self.pixel_count() * BYTES_PER_PIXEL,
    {
        let per_tile = self.pixels_per_tile();
        proof {
            lemma_run_inside(0, per_tile as int, self.tiles as int);
            assert(self.tiles * (per_tile * 4) == (self.tiles * per_tile) * 4) by (nonlinear_arith);
        }
        per_tile * BYTES_PER_PIXEL
    }

    /// The index of the first pixel of a tile, found from the tile's number
    /// and the bytes of a tile.
    pub fn chunk_start_pixel_index(&self, tile: usize) -> (pixel: usize)
        requires
            self.wf(),
            tile < self.tiles,
        ensures
            pixel == self.first_pixel(tile as int),
            pixel + self.tile_pixels() <= self.pixel_count(),
    {
        let bytes = self.chunk_size_bytes();
        let per_tile = self.pixels_per_tile();
        proof {
            lemma_run_inside(tile as int, per_tile as int, self.tiles as int);
            assert(tile * (per_tile * 4) == (tile * per_tile) * 4) by (nonlinear_arith);
        }
        (tile * bytes) / BYTES_PER_PIXEL
    }

    /// The index of the pixel that stands `offset` pixels into a tile.
    pub fn pixel_index(&self, tile: usize, offset: usize) -> (pixel: usize)
        requires
            self.wf(),
            tile < self.tiles,
            offset < self.tile_pixels(),
        ensures
            pixel == self.pixel_at(tile as int, offset as int),
            pixel < self.pixel_count(),
            self.in_tile(tile as int, pixel as int),
    {
        self.chunk_start_pixel_index(tile) + offset
    }

    /// Column and row of a pixel, the pixels being counted row by row.
    pub fn pixel_point(&self, pixel: usize) -> (point: (usize, usize))
        requires
            self.wf(),
            pixel < self.pixel_count(),
        ensures
            point.0 == self.point_of(pixel as int).0,
            point.1 == self.point_of(pixel as int).1,
            point.0 < self.width,
            point.1 < self.height,
            point.1 * self.width + point.0 == pixel,
    {
        proof {
            lemma_grid_of_cell(pixel as int, self.width as int, self.height as int);
        }
        (pixel % self.width, pixel / self.width)
    }

    /// The tile that a pixel belongs to, and how far into it the pixel stands.
    pub fn tile_of(&self, pixel: usize) -> (place: (usize, usize))
        requires
            self.wf(),
            pixel < self.pixel_count(),
        ensures
            place.0 < self.tiles,
            place.1 < self.tile_pixels(),
            self.pixel_at(place.0 as int, place.1 as int) == pixel,
    {
        let per_tile = self.pixels_per_tile();
        proof {
            lemma_quotient_run(pixel as int, per_tile as int);
            lemma_quotient_below(pixel as int, per_tile as int, self.tiles as int);
        }
        (pixel / per_tile, pixel % per_tile)
    }
}

/// Every tile lies inside the grid.
pub proof fn lemma_tile_in_grid(layout: TileLayout, tile: int)
    requires
        layout.wf(),
        0 <= tile < layout.tiles,
    ensures
        layout.tile_set(tile).subset_of(layout.all_pixels()),
{
    lemma_product_positive(layout.width as int, layout.height as int);
    lemma_exact_division(layout.pixel_count(), layout.tiles as int);
    lemma_run_inside(tile, layout.tile_pixels(), layout.tiles as int);
}

/// No pixel belongs to two tiles.
pub proof fn lemma_tiles_disjoint(layout: TileLayout, first: int, second: int)
    requires
        layout.wf(),
        first != second,
    ensures
        layout.tile_set(first).disjoint(layout.tile_set(second)),
{
    lemma_product_positive(layout.width as int, layout.height as int);
    lemma_exact_division(layout.pixel_count(), layout.tiles as int);
    assert forall|pixel: int|
        !(layout.tile_set(first).contains(pixel) && layout.tile_set(second).contains(
            pixel,
        )) by {
        if layout.in_tile(first, pixel) && layout.in_tile(second, pixel) {
            lemma_run_is_quotient(first, pixel, layout.tile_pixels());
            lemma_run_is_quotient(second, pixel, layout.tile_pixels());
        }
    }
}

/// The tiles together are the grid: every pixel belongs to a tile, and no
/// tile holds anything else.
pub proof fn lemma_tiles_cover_grid(layout: TileLayout)
    requires
        layout.wf(),
    ensures
        layout.all_tiles() == layout.all_pixels(),
{
    lemma_product_positive(layout.width as int, layout.height as int);
    lemma_exact_division(layout.pixel_count(), layout.tiles as int);
    let per_tile = layout.tile_pixels();
    assert forall|pixel: int| layout.all_tiles().contains(pixel) implies layout.all_pixels().contains(
        pixel,
    ) by {
        let tile = choose|tile: int| 0 <= tile < layout.tiles && layout.in_tile(tile, pixel);
        lemma_run_inside(tile, per_tile, layout.tiles as int);
    }
    assert forall|pixel: int| layout.all_pixels().contains(pixel) implies layout.all_tiles().contains(
        pixel,
    ) by {
        let tile = pixel / per_tile;
        lemma_quotient_run(pixel, per_tile);
        lemma_quotient_below(pixel, per_tile, layout.tiles as int);
        assert(0 <= tile < layout.tiles && layout.in_tile(tile, pixel));
    }
    assert(layout.all_tiles() =~= layout.all_pixels());
}

/// The tiles cover every pixel of the grid exactly once: together they are
/// the grid, and no two of them share a pixel.
pub proof fn lemma_tiles_partition_grid(layout: TileLayout)
    requires
        layout.wf(),
    ensures
        layout.all_tiles() == layout.all_pixels(),
        forall|first: int, second: int|
            first != second ==> #[trigger] layout.tile_set(first).disjoint(
                #[trigger] layout.tile_set(second),
            ),
{
    lemma_tiles_cover_grid(layout);
    assert forall|first: int, second: int| first != second implies #[trigger] layout.tile_set(
        first,
    ).disjoint(#[trigger] layout.tile_set(second)) by {
        lemma_tiles_disjoint(layout, first, second);
    }
}

/// The bytes of a tile's pixels are the bytes of the tile's chunk: a pixel
/// belongs to a tile exactly when its four bytes lie in the tile's run of
/// `tile_bytes` bytes.
pub proof fn lemma_chunk_holds_tile(layout: TileLayout, tile: int, pixel: int)
    requires
        layout.wf(),
    ensures
        layout.in_tile(tile, pixel) <==> tile * layout.tile_bytes() <= pixel * BYTES_PER_PIXEL
            && (pixel + 1) * BYTES_PER_PIXEL <= (tile + 1) * layout.tile_bytes(),
{
    let per_tile = layout.tile_pixels();
    assert(tile * (per_tile * 4) == (tile * per_tile) * 4) by (nonlinear_arith);
    assert((tile + 1) * (per_tile * 4) == (tile * per_tile + per_tile) * 4) by (nonlinear_arith);
}

} // verus!
