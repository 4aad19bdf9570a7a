use mandelbrot::config::ConfigError;
use mandelbrot::gradient::{create_color_array, Rgba};
use mandelbrot::raster::{
    mandelbrot_color_mapping, paint_chunk, paint_tile, render, write_pixel, PixelBuffer, Shade,
};
use mandelbrot::tiles::TileLayout;

const BLACK: Rgba = Rgba { r: 0, g: 0, b: 0, a: 255 };

fn shades_for(pixels: usize) -> Vec<Shade> {
    (0..pixels)
        .map(|p| if p % 5 == 0 { Shade::Member } else { Shade::Escaped { level: 37 * p as u64 + 700 } })
        .collect()
}

#[test]
fn members_are_opaque_black() {
    let colors = create_color_array();
    assert_eq!(mandelbrot_color_mapping(Shade::Member, &colors), BLACK);
}

#[test]
fn escaped_points_take_the_gradient_entry_of_their_level() {
    let colors = create_color_array();
    let color = mandelbrot_color_mapping(Shade::Escaped { level: 785 }, &colors);
    assert_eq!(color, Rgba { r: 181, g: 244, b: 255, a: 255 });
    assert_ne!(color, BLACK);
    assert_eq!(mandelbrot_color_mapping(Shade::Escaped { level: 826 }, &colors), colors[826]);
    assert_eq!(mandelbrot_color_mapping(Shade::Escaped { level: 4096 + 3 }, &colors), colors[3]);
}

#[test]
fn new_buffer_is_zeroed() {
    let buffer = PixelBuffer::new(3, 2).unwrap();
    assert_eq!(buffer.width, 3);
    assert_eq!(buffer.height, 2);
    assert_eq!(buffer.data, vec![0u8; 24]);
}

#[test]
fn new_buffer_may_be_empty() {
    let buffer = PixelBuffer::new(0, 7).unwrap();
    assert!(buffer.data.is_empty());
}

#[test]
fn new_buffer_too_large_is_refused() {
    assert_eq!(PixelBuffer::new(usize::MAX, 2), Err(ConfigError::ImageTooLarge));
    assert_eq!(PixelBuffer::new(usize::MAX / 2, 1), Err(ConfigError::ImageTooLarge));
    assert_eq!(PixelBuffer::new(usize::MAX / 8 + 1, 1), Err(ConfigError::ImageTooLarge));
    assert_eq!(PixelBuffer::new(1 << 31, 1 << 31), Err(ConfigError::ImageTooLarge));
}

#[test]
fn a_buffer_is_whole_when_it_holds_four_bytes_a_pixel() {
    assert!(PixelBuffer::new(3, 2).unwrap().is_whole());
    assert!(PixelBuffer { width: 3, height: 2, data: vec![0; 24] }.is_whole());
    assert!(!PixelBuffer { width: 3, height: 2, data: vec![0; 23] }.is_whole());
    assert!(!PixelBuffer { width: usize::MAX, height: 2, data: vec![] }.is_whole());
}

#[test]
fn put_pixel_writes_four_bytes_and_no_others() {
    let mut buffer = PixelBuffer::new(3, 2).unwrap();
    buffer.put_pixel(4, Rgba { r: 1, g: 2, b: 3, a: 4 });
    let mut expected = vec![0u8; 24];
    expected[16..20].copy_from_slice(&[1, 2, 3, 4]);
    assert_eq!(buffer.data, expected);
    assert_eq!(buffer.get_pixel(1, 1), Rgba { r: 1, g: 2, b: 3, a: 4 });
    assert_eq!(buffer.get_pixel(0, 1), Rgba { r: 0, g: 0, b: 0, a: 0 });
}

#[test]
fn write_pixel_writes_at_the_offset() {
    let mut bytes = [9u8; 12];
    write_pixel(&mut bytes, 1, Rgba { r: 1, g: 2, b: 3, a: 255 });
    assert_eq!(bytes, [9, 9, 9, 9, 1, 2, 3, 255, 9, 9, 9, 9]);
}

#[test]
fn render_colors_every_pixel_by_its_shade() {
    let colors = create_color_array();
    let layout = TileLayout::new(4, 3, 3).unwrap();
    let shades = shades_for(12);
    let mut buffer = PixelBuffer::new(4, 3).unwrap();
    render(&mut buffer, &layout, &colors, &shades);
    for y in 0..3 {
        for x in 0..4 {
            let p = y * 4 + x;
            let expected = match shades[p] {
                Shade::Member => BLACK,
                Shade::Escaped { level } => colors[(level % 2048) as usize],
            };
            assert_eq!(buffer.get_pixel(x, y), expected);
            assert_eq!(&buffer.data[4 * p..4 * p + 4], &[expected.r, expected.g, expected.b, expected.a]);
        }
    }
}

#[test]
fn render_twice_gives_the_same_bytes() {
    let colors = create_color_array();
    let layout = TileLayout::new(8, 4, 4).unwrap();
    let shades = shades_for(32);
    let mut buffer = PixelBuffer::new(8, 4).unwrap();
    render(&mut buffer, &layout, &colors, &shades);
    let first = buffer.data.clone();
    render(&mut buffer, &layout, &colors, &shades);
    assert_eq!(buffer.data, first);
}

#[test]
fn render_overwrites_what_the_buffer_held() {
    let colors = create_color_array();
    let layout = TileLayout::new(8, 4, 2).unwrap();
    let shades = shades_for(32);
    let mut clean = PixelBuffer::new(8, 4).unwrap();
    render(&mut clean, &layout, &colors, &shades);
    let mut dirty = PixelBuffer { width: 8, height: 4, data: vec![0xAB; 128] };
    render(&mut dirty, &layout, &colors, &shades);
    assert_eq!(dirty, clean);
}

#[test]
fn render_does_not_depend_on_the_number_of_tiles() {
    let colors = create_color_array();
    let shades = shades_for(36);
    let mut images = Vec::new();
    for tiles in [1, 4, 9, 36] {
        let layout = TileLayout::new(6, 6, tiles).unwrap();
        let mut buffer = PixelBuffer::new(6, 6).unwrap();
        render(&mut buffer, &layout, &colors, &shades);
        images.push(buffer.data);
    }
    assert!(images.iter().all(|image| *image == images[0]));
}

#[test]
fn paint_tile_leaves_other_tiles_alone() {
    let colors = create_color_array();
    let layout = TileLayout::new(4, 2, 4).unwrap();
    let shades = shades_for(8);
    let mut buffer = PixelBuffer { width: 4, height: 2, data: vec![7; 32] };
    paint_tile(&mut buffer, &layout, 2, &colors, &shades);
    assert_eq!(&buffer.data[..16], &[7u8; 16]);
    assert_eq!(&buffer.data[24..], &[7u8; 8]);
    assert_eq!(buffer.get_pixel(0, 1), mandelbrot_color_mapping(shades[4], &colors));
    assert_eq!(buffer.get_pixel(1, 1), mandelbrot_color_mapping(shades[5], &colors));
}

#[test]
fn chunks_painted_one_by_one_make_the_rendered_image() {
    let colors = create_color_array();
    let layout = TileLayout::new(6, 4, 3).unwrap();
    let shades = shades_for(24);
    let mut whole = PixelBuffer::new(6, 4).unwrap();
    render(&mut whole, &layout, &colors, &shades);

    let mut pieces = PixelBuffer::new(6, 4).unwrap();
    let per_tile = layout.pixels_per_tile();
    for (tile, chunk) in pieces.data.chunks_mut(layout.chunk_size_bytes()).enumerate().rev() {
        let first = layout.chunk_start_pixel_index(tile);
        paint_chunk(chunk, &colors, &shades[first..first + per_tile]);
    }
    assert_eq!(pieces, whole);
}

#[test]
fn a_member_pixel_renders_black_and_an_escaped_one_does_not() {
    let colors = create_color_array();
    let layout = TileLayout::new(2, 1, 1).unwrap();
    let shades = vec![Shade::Member, Shade::Escaped { level: 785 }];
    let mut buffer = PixelBuffer::new(2, 1).unwrap();
    render(&mut buffer, &layout, &colors, &shades);
    assert_eq!(buffer.data, vec![0, 0, 0, 255, 181, 244, 255, 255]);
}
