use gba_tile_manager::color::Color;
use gba_tile_manager::palette::Palette;
use gba_tile_manager::error::Error;
use gba_tile_manager::png::palette_to_png;
use gba_tile_manager::project::RgbImage;
use std::io::Cursor;

fn png_of(width: u32, height: u32, pixels: &[u8]) -> Vec<u8> {
    let image = image::RgbImage::from_raw(width, height, pixels.to_vec()).unwrap();
    let mut bytes = Vec::new();
    image::DynamicImage::ImageRgb8(image)
        .write_to(&mut Cursor::new(&mut bytes), image::ImageFormat::Png)
        .unwrap();
    bytes
}

#[test]
fn decode_reads_png_pixels() {
    let pixels = [255u8, 0, 0, 0, 255, 0, 0, 0, 255, 8, 16, 24, 1, 2, 3, 250, 251, 252];
    let image = RgbImage::decode(&png_of(3, 2, &pixels)).unwrap();
    assert_eq!(image.width(), 3);
    assert_eq!(image.height(), 2);
    assert_eq!(image.data(), &pixels.to_vec());
}

#[test]
fn decode_refuses_other_bytes() {
    match RgbImage::decode(&[1, 2, 3, 4]) {
        Err(Error::ImageDecode(message)) => assert!(!message.is_empty()),
        _ => panic!("expected a decoding error"),
    }
    assert!(matches!(RgbImage::decode(&[]), Err(Error::ImageDecode(_))));
}

#[test]
fn decode_reads_palette_png_back() {
    let palette = Palette::with_colors(
        "p",
        vec![Color::new(31, 0, 0).unwrap(), Color::new(0, 31, 0).unwrap()],
    );
    let image = RgbImage::decode(&palette_to_png(&palette)).unwrap();
    assert_eq!(image.width(), 128);
    assert_eq!(image.height(), 128);
    assert_eq!(&image.data()[0..3], &[248, 0, 0]);
}
