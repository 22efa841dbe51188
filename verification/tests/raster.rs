use image::{imageops::FilterType, DynamicImage, RgbImage};
use retropixel::raster::{
    encode_image, load_image, palette_from_image, shrink_image, ImageFileError, Rgb8, RgbPixels,
};

fn raster(width: u32, height: u32) -> (RgbPixels, Vec<u8>) {
    let bytes: Vec<u8> = (0..(3 * width * height)).map(|i| (i * 7 % 251) as u8).collect();
    (RgbPixels::from_raw(width, height, bytes.clone()).unwrap(), bytes)
}

#[test]
fn from_raw_checks_the_length() {
    assert!(RgbPixels::from_raw(2, 2, vec![0; 12]).is_some());
    assert!(RgbPixels::from_raw(2, 2, vec![0; 11]).is_none());
    assert!(RgbPixels::from_raw(2, 2, vec![0; 13]).is_none());
    assert!(RgbPixels::from_raw(0, 5, vec![]).is_some());
    assert!(RgbPixels::from_raw(u32::MAX, u32::MAX, vec![]).is_none());
}

#[test]
fn raster_round_trips() {
    let (p, bytes) = raster(3, 2);
    assert_eq!(p.width(), 3);
    assert_eq!(p.height(), 2);
    assert_eq!(p.into_raw(), bytes);
}

#[test]
fn palette_has_one_colour_per_pixel() {
    let p = RgbPixels::from_raw(2, 1, vec![10, 20, 30, 40, 50, 60]).unwrap();
    let colours = palette_from_image(&p);
    assert_eq!(
        colours,
        vec![
            Rgb8 { red: 10, green: 20, blue: 30 },
            Rgb8 { red: 40, green: 50, blue: 60 },
        ]
    );
    let empty = RgbPixels::from_raw(0, 0, vec![]).unwrap();
    assert!(palette_from_image(&empty).is_empty());
}

#[test]
fn shrink_matches_the_image_library() {
    for (w, h, scale) in [(8, 8, 2), (9, 5, 4), (4, 4, 1), (3, 3, 4), (16, 4, 3)] {
        let (p, bytes) = raster(w, h);
        let expected = DynamicImage::ImageRgb8(RgbImage::from_raw(w, h, bytes).unwrap())
            .resize(w / scale, h / scale, FilterType::Nearest)
            .into_rgb8();
        let shrunk = shrink_image(&p, scale);
        assert_eq!((shrunk.width(), shrunk.height()), expected.dimensions());
        assert_eq!(shrunk.into_raw(), expected.into_raw());
    }
}

#[test]
fn shrink_by_two_halves_the_size() {
    let (p, _) = raster(8, 6);
    let shrunk = shrink_image(&p, 2);
    assert_eq!(shrunk.width(), 4);
    assert_eq!(shrunk.height(), 3);
    assert_eq!(shrunk.into_raw().len(), 36);
}

#[test]
fn shrink_keeps_a_uniform_colour() {
    let p = RgbPixels::from_raw(4, 4, [1u8, 2, 3].repeat(16)).unwrap();
    let shrunk = shrink_image(&p, 2);
    assert_eq!(shrunk.into_raw(), [1u8, 2, 3].repeat(4));
}

#[test]
fn shrink_by_one_keeps_the_raster() {
    let (p, bytes) = raster(5, 3);
    let shrunk = shrink_image(&p, 1);
    assert_eq!((shrunk.width(), shrunk.height()), (5, 3));
    assert_eq!(shrunk.into_raw(), bytes);
}

#[test]
fn shrink_of_a_tiny_raster_keeps_one_pixel() {
    let (p, _) = raster(3, 2);
    let shrunk = shrink_image(&p, 4);
    assert_eq!((shrunk.width(), shrunk.height()), (1, 1));
}

#[test]
fn shrink_by_a_divisor_gives_the_exact_size() {
    let (p, _) = raster(4, 4);
    let shrunk = shrink_image(&p, 2);
    assert_eq!((shrunk.width(), shrunk.height()), (2, 2));
    let (p, _) = raster(12, 6);
    let shrunk = shrink_image(&p, 3);
    assert_eq!((shrunk.width(), shrunk.height()), (4, 2));
}

#[test]
fn encoded_png_decodes_to_the_same_raster() {
    let (p, bytes) = raster(5, 4);
    let png = encode_image(&p, b"png").unwrap();
    assert_eq!(&png[..8], b"\x89PNG\r\n\x1a\n");
    let back = load_image(&png, b"PNG").unwrap();
    assert_eq!((back.width(), back.height()), (5, 4));
    assert_eq!(back.into_raw(), bytes);
}

#[test]
fn load_matches_the_image_library() {
    let (_, bytes) = raster(3, 3);
    let buffer = RgbImage::from_raw(3, 3, bytes).unwrap();
    let mut bmp = std::io::Cursor::new(Vec::new());
    buffer.write_to(&mut bmp, image::ImageFormat::Bmp).unwrap();
    let bmp = bmp.into_inner();
    let expected = image::load_from_memory_with_format(&bmp, image::ImageFormat::Bmp)
        .unwrap()
        .into_rgb8();
    let loaded = load_image(&bmp, b"bmp").unwrap();
    assert_eq!((loaded.width(), loaded.height()), expected.dimensions());
    assert_eq!(loaded.into_raw(), expected.into_raw());
}

#[test]
fn unknown_extensions_neither_load_nor_encode() {
    let (p, _) = raster(2, 2);
    let png = encode_image(&p, b"png").unwrap();
    assert!(matches!(load_image(&png, b"txt"), Err(ImageFileError::UnknownFormat)));
    assert!(matches!(load_image(&png, b""), Err(ImageFileError::UnknownFormat)));
    assert!(matches!(encode_image(&p, b"txt"), Err(ImageFileError::UnknownFormat)));
    assert!(matches!(encode_image(&p, b""), Err(ImageFileError::UnknownFormat)));
}

#[test]
fn bytes_that_are_no_image_give_the_decoder_error() {
    assert!(matches!(load_image(b"not an image", b"png"), Err(ImageFileError::Codec(_))));
    assert!(matches!(load_image(&[], b"jpg"), Err(ImageFileError::Codec(_))));
}

#[test]
fn formats_that_cannot_hold_rgb8_give_the_encoder_error() {
    let (p, _) = raster(2, 2);
    assert!(matches!(encode_image(&p, b"exr"), Err(ImageFileError::Codec(_))));
}

#[test]
fn shrink_keeps_the_aspect_ratio() {
    // 10 x 4 into bounds 3 x 1: the height bound is the tighter one
    let (p, _) = raster(10, 4);
    let shrunk = shrink_image(&p, 3);
    assert_eq!(shrunk.height(), 1);
    let w = shrunk.width() as i64;
    assert!((w - 1) * 4 <= 10 * 1 && 10 * 1 <= (w + 1) * 4);
    assert!(w <= 3);
}
