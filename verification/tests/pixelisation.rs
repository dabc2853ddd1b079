use hexpxl::error::PixelError;
use hexpxl::geometry::Point;
use hexpxl::hexagon::HexTiler;
use hexpxl::pixelise::{
    hexagon_pixelisation, pixel_coordinates, pixelise, square_pixelisation, PixelMode,
};
use hexpxl::raster::{fits_in_memory, Color, OutputRaster};
use hexpxl::square::SquareTiler;
use image::{
    DynamicImage, GenericImageView, GrayImage, ImageBuffer, Luma, LumaA, Rgb, Rgb32FImage, Rgba,
    Rgba32FImage, RgbaImage,
};

fn color_of(px: Rgba<u8>) -> Color {
    Color { red: px.0[0], green: px.0[1], blue: px.0[2], alpha: px.0[3] }
}

fn gradient(width: u32, height: u32) -> DynamicImage {
    DynamicImage::ImageRgba8(RgbaImage::from_fn(width, height, |x, y| {
        Rgba([(x % 251) as u8, (y % 241) as u8, ((x * 7 + y * 13) % 256) as u8, 255])
    }))
}

fn checkerboard(width: u32, height: u32) -> DynamicImage {
    DynamicImage::ImageRgba8(RgbaImage::from_fn(width, height, |x, y| {
        if (x + y) % 2 == 0 {
            Rgba([0, 0, 0, 255])
        } else {
            Rgba([255, 255, 255, 255])
        }
    }))
}

fn assert_same_image(out: &OutputRaster, img: &DynamicImage) {
    assert_eq!((out.width(), out.height()), img.dimensions());
    for x in 0..img.width() {
        for y in 0..img.height() {
            assert_eq!(out.pixel(x, y), Some(color_of(img.get_pixel(x, y))));
        }
    }
}

#[test]
fn solid_red_image_is_unchanged_by_squares() {
    let red = Rgba([255, 0, 0, 255]);
    let img = DynamicImage::ImageRgba8(RgbaImage::from_pixel(4, 4, red));
    let out = pixelise(PixelMode::Square, &img, 2).unwrap();
    assert_eq!((out.width(), out.height()), (4, 4));
    for x in 0..4 {
        for y in 0..4 {
            assert_eq!(out.pixel(x, y), Some(Color { red: 255, green: 0, blue: 0, alpha: 255 }));
        }
    }
}

#[test]
fn solid_image_is_unchanged_by_hexagons() {
    let img = DynamicImage::ImageRgba8(RgbaImage::from_pixel(30, 20, Rgba([9, 8, 7, 6])));
    let out = pixelise(PixelMode::Hexagon, &img, 5).unwrap();
    assert_same_image(&out, &img);
}

#[test]
fn single_pixel_image_is_unchanged() {
    let img = DynamicImage::ImageRgba8(RgbaImage::from_pixel(1, 1, Rgba([12, 34, 56, 78])));
    for radius in [1u32, 2, 3, 20, 1000, u32::MAX] {
        let out = pixelise(PixelMode::Square, &img, radius).unwrap();
        assert_same_image(&out, &img);
    }
    for radius in [2u32, 3, 20, 1000, u32::MAX] {
        let out = pixelise(PixelMode::Hexagon, &img, radius).unwrap();
        assert_same_image(&out, &img);
    }
}

#[test]
fn checkerboard_is_constant_within_a_hexagon() {
    let img = checkerboard(100, 100);
    let out = pixelise(PixelMode::Hexagon, &img, 20).unwrap();
    // All of these lie in the hexagon around (17, 30), which is white.
    let white = Some(Color { red: 255, green: 255, blue: 255, alpha: 255 });
    for (x, y) in [(17u32, 30u32), (18, 25), (16, 29), (10, 30), (24, 31), (17, 40), (3, 31)] {
        assert_eq!(out.pixel(x, y), white);
    }
    // All of these lie in the hexagon around (34, 0), which is black.
    let black = Some(Color { red: 0, green: 0, blue: 0, alpha: 255 });
    for (x, y) in [(34u32, 0u32), (20, 5), (30, 9), (41, 3), (35, 1)] {
        assert_eq!(out.pixel(x, y), black);
    }
}

#[test]
fn checkerboard_pixels_take_the_color_of_their_center() {
    let img = checkerboard(100, 100);
    let tiler = HexTiler::new(20).unwrap();
    let out = hexagon_pixelisation(&img, 20).unwrap();
    for x in 0..100u32 {
        for y in 0..100u32 {
            let source = tiler.map(x, y, 100, 100);
            assert_eq!(out.pixel(x, y), Some(color_of(img.get_pixel(source.x, source.y))));
        }
    }
}

#[test]
fn hexagons_of_a_gradient_read_their_centers() {
    let img = gradient(64, 48);
    let out = hexagon_pixelisation(&img, 7).unwrap();
    assert_eq!((out.width(), out.height()), (64, 48));
    // Radius 7 gives columns 6 apart and rows 10 apart.
    assert_eq!(out.pixel(0, 0), Some(color_of(img.get_pixel(0, 0))));
    assert_eq!(out.pixel(4, 8), Some(color_of(img.get_pixel(6, 10))));
    assert_eq!(out.pixel(13, 2), Some(color_of(img.get_pixel(12, 0))));
    assert_eq!(out.pixel(40, 33), Some(color_of(img.get_pixel(42, 30))));
    // Not a copy of the input: (4, 8) differs from its centre (6, 10).
    assert_ne!(out.pixel(4, 8), Some(color_of(img.get_pixel(4, 8))));
}

#[test]
fn last_pixel_reads_the_clamped_corner() {
    // In a 16 by 16 image the centre nearest to (15, 15) is (17, 30),
    // outside the image on both axes.
    let img = gradient(16, 16);
    let out = pixelise(PixelMode::Hexagon, &img, 20).unwrap();
    assert_eq!(out.pixel(15, 15), Some(color_of(img.get_pixel(15, 15))));
    // (12, 14) has the same centre and so the same colour.
    assert_eq!(out.pixel(12, 14), Some(color_of(img.get_pixel(15, 15))));
}

#[test]
fn center_beyond_one_edge_is_clamped_on_that_axis() {
    let img = gradient(40, 16);
    let out = pixelise(PixelMode::Hexagon, &img, 20).unwrap();
    // Centre (17, 30): inside horizontally, below the last row.
    assert_eq!(out.pixel(15, 15), Some(color_of(img.get_pixel(17, 15))));
}

#[test]
fn squares_of_a_gradient_read_their_corners() {
    let img = gradient(10, 7);
    let out = square_pixelisation(&img, 4).unwrap();
    assert_eq!((out.width(), out.height()), (10, 7));
    for x in 0..10u32 {
        for y in 0..7u32 {
            assert_eq!(out.pixel(x, y), Some(color_of(img.get_pixel(x / 4 * 4, y / 4 * 4))));
        }
    }
    assert_eq!(out.pixel(9, 6), Some(Color { red: 8, green: 4, blue: 108, alpha: 255 }));
}

#[test]
fn pixels_of_one_square_tile_have_one_color() {
    let img = gradient(32, 32);
    let out = pixelise(PixelMode::Square, &img, 5).unwrap();
    for x1 in 0..32u32 {
        for y1 in 0..32u32 {
            let x2 = x1 / 5 * 5 + 4;
            let y2 = y1 / 5 * 5 + 2;
            if x2 < 32 && y2 < 32 {
                assert_eq!(out.pixel(x1, y1), out.pixel(x2, y2));
            }
        }
    }
}

#[test]
fn squares_of_radius_one_copy_the_image() {
    let img = gradient(9, 5);
    let out = pixelise(PixelMode::Square, &img, 1).unwrap();
    assert_same_image(&out, &img);
}

#[test]
fn square_tiler_and_pixelisation_agree() {
    let img = gradient(20, 20);
    let tiler = SquareTiler::new(6).unwrap();
    let out = pixelise(PixelMode::Square, &img, 6).unwrap();
    for x in 0..20u32 {
        for y in 0..20u32 {
            let source = tiler.map(x, y);
            assert_eq!(out.pixel(x, y), Some(color_of(img.get_pixel(source.x, source.y))));
        }
    }
}

#[test]
fn zero_radius_is_refused() {
    let img = gradient(4, 4);
    assert_eq!(pixelise(PixelMode::Square, &img, 0).err(), Some(PixelError::InvalidRadius));
    assert_eq!(pixelise(PixelMode::Hexagon, &img, 0).err(), Some(PixelError::InvalidRadius));
    assert_eq!(square_pixelisation(&img, 0).err(), Some(PixelError::InvalidRadius));
    assert_eq!(hexagon_pixelisation(&img, 0).err(), Some(PixelError::InvalidRadius));
}

#[test]
fn hexagon_radius_one_is_refused() {
    let img = gradient(4, 4);
    assert_eq!(pixelise(PixelMode::Hexagon, &img, 1).err(), Some(PixelError::InvalidRadius));
    assert!(pixelise(PixelMode::Square, &img, 1).is_ok());
    assert!(pixelise(PixelMode::Hexagon, &img, 2).is_ok());
}

#[test]
fn invalid_radius_is_refused_for_an_empty_image_too() {
    let img = DynamicImage::new_rgba8(0, 0);
    assert_eq!(pixelise(PixelMode::Square, &img, 0).err(), Some(PixelError::InvalidRadius));
    assert_eq!(pixelise(PixelMode::Hexagon, &img, 1).err(), Some(PixelError::InvalidRadius));
}

#[test]
fn empty_image_gives_empty_raster() {
    for (width, height) in [(0u32, 0u32), (0, 5), (5, 0)] {
        let img = DynamicImage::new_rgba8(width, height);
        for mode in [PixelMode::Square, PixelMode::Hexagon] {
            let out = pixelise(mode, &img, 3).unwrap();
            assert_eq!((out.width(), out.height()), (width, height));
            assert_eq!(out.pixel(0, 0), None);
            assert_eq!(out.into_raw().len(), 0);
        }
    }
}

#[test]
fn oversized_raster_does_not_fit() {
    assert!(fits_in_memory(0, 0));
    assert!(fits_in_memory(100, 100));
    assert!(!fits_in_memory(u32::MAX, u32::MAX));
    let limit = usize::MAX as u128;
    assert_eq!(fits_in_memory(1 << 31, 1 << 31), 4 * (1u128 << 62) <= limit);
    assert_eq!(fits_in_memory(1 << 15, 1 << 15), 4 * (1u128 << 30) <= limit);
}

#[test]
fn row_that_overflows_does_not_fit_even_without_rows() {
    // The row length in bytes is judged by itself, before the height.
    let limit = usize::MAX as u128;
    assert_eq!(fits_in_memory(u32::MAX, 0), 4 * (u32::MAX as u128) <= limit);
    assert_eq!(fits_in_memory(0x4000_0000, 0), 4 * 0x4000_0000u128 <= limit);
    assert_eq!(fits_in_memory(0x4000_0000, 1), 4 * 0x4000_0000u128 <= limit);
    assert!(fits_in_memory(0, u32::MAX));
    assert!(fits_in_memory(0x3fff_ffff, 1));
}

#[test]
fn float_source_is_refused() {
    let rgb = DynamicImage::ImageRgb32F(Rgb32FImage::from_pixel(4, 4, Rgb([0.25, 0.5, 1.0])));
    let rgba = DynamicImage::ImageRgba32F(Rgba32FImage::from_pixel(4, 4, Rgba([0.25, 0.5, 1.0, 1.0])));
    for img in [rgb, rgba] {
        for mode in [PixelMode::Square, PixelMode::Hexagon] {
            assert_eq!(pixelise(mode, &img, 2).err(), Some(PixelError::UnsupportedSamples));
        }
        assert_eq!(square_pixelisation(&img, 2).err(), Some(PixelError::UnsupportedSamples));
        assert_eq!(hexagon_pixelisation(&img, 2).err(), Some(PixelError::UnsupportedSamples));
    }
}

#[test]
fn float_source_with_a_sample_that_is_no_number_is_refused() {
    let mut buf = Rgb32FImage::from_pixel(3, 3, Rgb([0.0, 0.0, 0.0]));
    buf.put_pixel(0, 0, Rgb([f32::NAN, 0.5, 0.5]));
    let img = DynamicImage::ImageRgb32F(buf);
    assert_eq!(pixelise(PixelMode::Square, &img, 1).err(), Some(PixelError::UnsupportedSamples));
    assert_eq!(pixelise(PixelMode::Hexagon, &img, 2).err(), Some(PixelError::UnsupportedSamples));
}

#[test]
fn empty_float_source_is_refused_too() {
    let img = DynamicImage::ImageRgba32F(Rgba32FImage::new(0, 0));
    assert_eq!(pixelise(PixelMode::Square, &img, 3).err(), Some(PixelError::UnsupportedSamples));
}

#[test]
fn radius_is_judged_before_the_samples() {
    let img = DynamicImage::ImageRgb32F(Rgb32FImage::from_pixel(2, 2, Rgb([0.5, 0.5, 0.5])));
    assert_eq!(pixelise(PixelMode::Square, &img, 0).err(), Some(PixelError::InvalidRadius));
    assert_eq!(pixelise(PixelMode::Hexagon, &img, 1).err(), Some(PixelError::InvalidRadius));
}

#[test]
fn every_integer_source_is_accepted() {
    let sources = [
        DynamicImage::ImageLuma8(ImageBuffer::from_pixel(3, 3, Luma([200u8]))),
        DynamicImage::ImageLumaA8(ImageBuffer::from_pixel(3, 3, LumaA([200u8, 100]))),
        DynamicImage::ImageRgb8(ImageBuffer::from_pixel(3, 3, Rgb([1u8, 2, 3]))),
        DynamicImage::ImageRgba8(ImageBuffer::from_pixel(3, 3, Rgba([1u8, 2, 3, 4]))),
        DynamicImage::ImageLuma16(ImageBuffer::from_pixel(3, 3, Luma([65535u16]))),
        DynamicImage::ImageLumaA16(ImageBuffer::from_pixel(3, 3, LumaA([65535u16, 0]))),
        DynamicImage::ImageRgb16(ImageBuffer::from_pixel(3, 3, Rgb([0u16, 32768, 65535]))),
        DynamicImage::ImageRgba16(ImageBuffer::from_pixel(3, 3, Rgba([0u16, 257, 514, 65535]))),
    ];
    let expected = [
        Color { red: 200, green: 200, blue: 200, alpha: 255 },
        Color { red: 200, green: 200, blue: 200, alpha: 100 },
        Color { red: 1, green: 2, blue: 3, alpha: 255 },
        Color { red: 1, green: 2, blue: 3, alpha: 4 },
        Color { red: 255, green: 255, blue: 255, alpha: 255 },
        Color { red: 255, green: 255, blue: 255, alpha: 0 },
        Color { red: 0, green: 128, blue: 255, alpha: 255 },
        Color { red: 0, green: 1, blue: 2, alpha: 255 },
    ];
    for (img, color) in sources.iter().zip(expected) {
        for mode in [PixelMode::Square, PixelMode::Hexagon] {
            let out = pixelise(mode, img, 2).unwrap();
            assert_eq!(out.pixel(2, 2), Some(color));
        }
    }
}

#[test]
fn gray_source_is_read_as_rgba() {
    let img = DynamicImage::ImageLuma8(GrayImage::from_fn(6, 6, |x, y| Luma([(10 * x + y) as u8])));
    let out = pixelise(PixelMode::Square, &img, 3).unwrap();
    assert_eq!(out.pixel(0, 0), Some(Color { red: 0, green: 0, blue: 0, alpha: 255 }));
    assert_eq!(out.pixel(5, 4), Some(Color { red: 33, green: 33, blue: 33, alpha: 255 }));
    let out = pixelise(PixelMode::Hexagon, &img, 2).unwrap();
    // Radius 2 gives columns 1 apart and rows 3 apart; (4, 1) belongs to (4, 0).
    assert_eq!(out.pixel(4, 1), Some(Color { red: 40, green: 40, blue: 40, alpha: 255 }));
}

#[test]
fn pixel_outside_the_raster_is_none() {
    let img = gradient(3, 2);
    let out = pixelise(PixelMode::Square, &img, 1).unwrap();
    assert_eq!(out.width(), 3);
    assert_eq!(out.height(), 2);
    assert_eq!(out.pixel(2, 1), Some(color_of(img.get_pixel(2, 1))));
    assert_eq!(out.pixel(3, 1), None);
    assert_eq!(out.pixel(2, 2), None);
    assert_eq!(out.pixel(u32::MAX, u32::MAX), None);
}

#[test]
fn raw_bytes_are_rows_of_rgba() {
    let img = gradient(3, 2);
    let out = pixelise(PixelMode::Square, &img, 1).unwrap();
    let raw = out.into_raw();
    assert_eq!(
        raw,
        vec![
            0, 0, 0, 255, 1, 0, 7, 255, 2, 0, 14, 255, //
            0, 1, 13, 255, 1, 1, 20, 255, 2, 1, 27, 255,
        ]
    );
    let rebuilt = RgbaImage::from_raw(3, 2, raw).unwrap();
    assert_eq!(DynamicImage::ImageRgba8(rebuilt), img);
}

#[test]
fn raw_bytes_of_a_hexagon_pixelisation_rebuild_the_image() {
    let img = checkerboard(50, 30);
    let tiler = HexTiler::new(6).unwrap();
    let out = pixelise(PixelMode::Hexagon, &img, 6).unwrap();
    let rebuilt = RgbaImage::from_raw(50, 30, out.into_raw()).unwrap();
    for x in 0..50u32 {
        for y in 0..30u32 {
            let source = tiler.map(x, y, 50, 30);
            assert_eq!(*rebuilt.get_pixel(x, y), img.get_pixel(source.x, source.y));
        }
    }
}

#[test]
fn coordinates_run_down_the_columns() {
    assert_eq!(
        pixel_coordinates(2, 3),
        vec![
            Point { x: 0, y: 0 },
            Point { x: 0, y: 1 },
            Point { x: 0, y: 2 },
            Point { x: 1, y: 0 },
            Point { x: 1, y: 1 },
            Point { x: 1, y: 2 },
        ]
    );
    assert_eq!(pixel_coordinates(0, 3), vec![]);
    assert_eq!(pixel_coordinates(3, 0), vec![]);
    let all = pixel_coordinates(7, 5);
    assert_eq!(all.len(), 35);
    assert_eq!(all[3 * 5 + 4], Point { x: 3, y: 4 });
}

#[test]
fn source_image_is_left_untouched() {
    let img = gradient(12, 12);
    let before = img.clone();
    let _ = pixelise(PixelMode::Hexagon, &img, 4).unwrap();
    let _ = pixelise(PixelMode::Square, &img, 4).unwrap();
    assert_eq!(img, before);
}
