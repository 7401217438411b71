use gba_tile_manager::error::Error;
use gba_tile_manager::png_util::read_png_to_rgb_255;

fn encode(
    width: u32,
    height: u32,
    color: png::ColorType,
    depth: png::BitDepth,
    palette: Option<Vec<u8>>,
    data: &[u8],
) -> Vec<u8> {
    let mut bytes = Vec::new();
    let mut encoder = png::Encoder::new(&mut bytes, width, height);
    encoder.set_color(color);
    encoder.set_depth(depth);
    if let Some(p) = palette {
        encoder.set_palette(p);
    }
    let mut writer = encoder.write_header().unwrap();
    writer.write_image_data(data).unwrap();
    writer.finish().unwrap();
    bytes
}

#[test]
fn rgb_png_reads_as_is() {
    let data = [1u8, 2, 3, 4, 5, 6];
    let png = encode(2, 1, png::ColorType::Rgb, png::BitDepth::Eight, None, &data);
    assert_eq!(read_png_to_rgb_255(&png).unwrap(), data.to_vec());
}

#[test]
fn rgba_png_drops_alpha() {
    let data = [1u8, 2, 3, 255, 4, 5, 6, 0];
    let png = encode(2, 1, png::ColorType::Rgba, png::BitDepth::Eight, None, &data);
    assert_eq!(read_png_to_rgb_255(&png).unwrap(), vec![1, 2, 3, 4, 5, 6]);
}

#[test]
fn indexed_png_looks_up_palette() {
    let palette = vec![10u8, 11, 12, 20, 21, 22, 30, 31, 32];
    let png = encode(2, 1, png::ColorType::Indexed, png::BitDepth::Eight, Some(palette.clone()), &[2, 0]);
    assert_eq!(read_png_to_rgb_255(&png).unwrap(), vec![30, 31, 32, 10, 11, 12]);
    // 4 bits per pixel: two pixels in one byte, the low nibble read first.
    let png = encode(2, 1, png::ColorType::Indexed, png::BitDepth::Four, Some(palette), &[0x12]);
    assert_eq!(read_png_to_rgb_255(&png).unwrap(), vec![30, 31, 32, 20, 21, 22]);
}

#[test]
fn unreadable_frames_are_refused() {
    let png = encode(2, 1, png::ColorType::Grayscale, png::BitDepth::Eight, None, &[1, 2]);
    assert!(matches!(
        read_png_to_rgb_255(&png),
        Err(Error::PngNotRead { color_type: 0, bit_depth: 8 })
    ));
    let png = encode(1, 1, png::ColorType::Indexed, png::BitDepth::Eight, Some(vec![1, 2, 3]), &[5]);
    assert!(matches!(
        read_png_to_rgb_255(&png),
        Err(Error::PngNotRead { color_type: 3, bit_depth: 8 })
    ));
    assert!(matches!(read_png_to_rgb_255(&[0, 1, 2, 3]), Err(Error::ImageDecode(_))));
}
