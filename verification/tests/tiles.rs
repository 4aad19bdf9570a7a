use mandelbrot::config::ConfigError;
use mandelbrot::tiles::{TileLayout, BYTES_PER_PIXEL};

fn layout(width: usize, height: usize, tiles: usize) -> TileLayout {
    TileLayout::new(width, height, tiles).unwrap()
}

/// Counts how often each pixel is reached from the tiles.
fn visits(l: &TileLayout) -> Vec<u32> {
    let mut seen = vec![0u32; l.total_pixels()];
    for tile in 0..l.tiles {
        for offset in 0..l.pixels_per_tile() {
            seen[l.pixel_index(tile, offset)] += 1;
        }
    }
    seen
}

#[test]
fn one_tile_covers_every_pixel_once() {
    let l = layout(1920, 1080, 1);
    assert!(visits(&l).iter().all(|&n| n == 1));
}

#[test]
fn four_tiles_cover_every_pixel_once() {
    let l = layout(1920, 1080, 4);
    assert!(visits(&l).iter().all(|&n| n == 1));
}

#[test]
fn nine_tiles_cover_every_pixel_once() {
    let l = layout(1920, 1080, 9);
    assert_eq!(l.pixels_per_tile(), 230_400);
    assert!(visits(&l).iter().all(|&n| n == 1));
}

#[test]
fn eight_tiles_of_full_hd() {
    let l = layout(1920, 1080, 8);
    assert_eq!(l.total_pixels(), 2_073_600);
    assert_eq!(l.pixels_per_tile(), 259_200);
    assert_eq!(l.chunk_size_bytes(), 1_036_800);
    assert_eq!(l.chunk_start_pixel_index(0), 0);
    assert_eq!(l.chunk_start_pixel_index(1), 259_200);
    assert_eq!(l.chunk_start_pixel_index(7), 1_814_400);
    assert_eq!(l.pixel_index(3, 17), 777_617);
    assert_eq!(BYTES_PER_PIXEL, 4);
}

#[test]
fn pixel_points_run_row_by_row() {
    let l = layout(1920, 1080, 8);
    assert_eq!(l.pixel_point(0), (0, 0));
    assert_eq!(l.pixel_point(1919), (1919, 0));
    assert_eq!(l.pixel_point(1920), (0, 1));
    assert_eq!(l.pixel_point(540 * 1920 + 960), (960, 540));
    assert_eq!(l.pixel_point(2_073_599), (1919, 1079));
}

#[test]
fn tile_of_inverts_pixel_index() {
    let l = layout(6, 4, 3);
    for pixel in 0..24 {
        let (tile, offset) = l.tile_of(pixel);
        assert!(tile < 3 && offset < 8);
        assert_eq!(l.pixel_index(tile, offset), pixel);
    }
    assert_eq!(l.tile_of(0), (0, 0));
    assert_eq!(l.tile_of(7), (0, 7));
    assert_eq!(l.tile_of(8), (1, 0));
    assert_eq!(l.tile_of(23), (2, 7));
}

#[test]
fn tiles_that_do_not_divide_the_pixels_are_refused() {
    assert_eq!(TileLayout::new(1920, 1080, 7), Err(ConfigError::UnevenTiles));
    assert_eq!(TileLayout::new(3, 3, 2), Err(ConfigError::UnevenTiles));
    assert_eq!(TileLayout::new(3, 3, 10), Err(ConfigError::UnevenTiles));
}

#[test]
fn no_tiles_are_refused() {
    assert_eq!(TileLayout::new(1920, 1080, 0), Err(ConfigError::NoTiles));
}

#[test]
fn an_empty_image_is_refused() {
    assert_eq!(TileLayout::new(0, 1080, 8), Err(ConfigError::EmptyImage));
    assert_eq!(TileLayout::new(1920, 0, 8), Err(ConfigError::EmptyImage));
    assert_eq!(TileLayout::new(0, 0, 0), Err(ConfigError::EmptyImage));
}

#[test]
fn an_image_too_large_to_count_is_refused() {
    assert_eq!(TileLayout::new(usize::MAX, 2, 1), Err(ConfigError::ImageTooLarge));
    assert_eq!(TileLayout::new(usize::MAX / 4 + 1, 1, 1), Err(ConfigError::ImageTooLarge));
    assert!(TileLayout::new(usize::MAX / 4, 1, 1).is_ok());
}

#[test]
fn as_many_tiles_as_pixels() {
    let l = layout(5, 3, 15);
    assert_eq!(l.pixels_per_tile(), 1);
    assert_eq!(l.chunk_size_bytes(), 4);
    assert!(visits(&l).iter().all(|&n| n == 1));
}

#[test]
fn validate_agrees_with_new() {
    assert_eq!(TileLayout { width: 1920, height: 1080, tiles: 8 }.validate(), Ok(()));
    assert_eq!(
        TileLayout { width: 1920, height: 1080, tiles: 7 }.validate(),
        Err(ConfigError::UnevenTiles)
    );
    assert_eq!(TileLayout { width: 0, height: 0, tiles: 0 }.validate(), Err(ConfigError::EmptyImage));
    assert_eq!(TileLayout { width: 2, height: 2, tiles: 0 }.validate(), Err(ConfigError::NoTiles));
    assert_eq!(
        TileLayout { width: usize::MAX, height: usize::MAX, tiles: 0 }.validate(),
        Err(ConfigError::ImageTooLarge)
    );
}
