use gba_tile_manager::character::Character;
use gba_tile_manager::color::Color;
use gba_tile_manager::domain::palette::Palette;
use gba_tile_manager::domain::screen::ScreenData;
use gba_tile_manager::map::TileMap;
use gba_tile_manager::png::{palette_to_png, screen_to_png, tile_to_png};
use gba_tile_manager::png_util::{BitDepth, ColorType, read_4_bit, read_rgba, read_to_rgb_255};
use gba_tile_manager::render::image::{ImageData, get_color};
use gba_tile_manager::render::layer::{Layers, VRamData, border};
use gba_tile_manager::render::render::{
    from_dimensions, render_background, render_cursor, render_screen, render_tile, render_tiles,
    scaled_palette_index,
};
use gba_tile_manager::render::{ImageData as _, render_palette};
use gba_tile_manager::tile::Tile;

fn palette() -> Palette {
    Palette::with_colors("p", vec![Color::black(), Color::new(31, 0, 0).unwrap(), Color::new(0, 31, 0).unwrap()])
}

fn marked_tile() -> Tile {
    let mut p = [0u8; 64];
    p[0] = 1;
    p[7] = 2;
    Tile::new(p)
}

fn vram() -> VRamData {
    let tiles = TileMap::new(vec![Tile::default(), marked_tile()]);
    let mut screen = ScreenData::new("s0");
    screen.set_character(Character::new(1, false, false, 0), 0, 0);
    screen.set_character(Character::new(1, true, false, 0), 1, 0);
    screen.set_character(Character::new(1, false, true, 0), 0, 1);
    VRamData {
        bg0_character_data: TileMap::new(vec![Tile::default(), marked_tile()]),
        bg0_screen_data: screen,
        bg1_character_data: tiles,
        bg1_screen_data: ScreenData::new("s1"),
    }
}

#[test]
fn scaled_index_formula() {
    assert_eq!(scaled_palette_index(8, 0, &(128, 128)), 0);
    assert_eq!(scaled_palette_index(8, 9, &(128, 128)), 1);
    assert_eq!(scaled_palette_index(8, 1024, &(128, 128)), 8);
    assert_eq!(scaled_palette_index(8, 1024 + 130, &(128, 128)), 8);
    assert_eq!(scaled_palette_index(2, 9, &(4, 4)), 2);
    assert_eq!(scaled_palette_index(2, 7, &(4, 4)), 1);
}

#[test]
fn from_dimensions_maps_every_pixel() {
    let data = from_dimensions(&(3, 2), |i| (i * 2) as u8);
    assert_eq!(data, vec![0, 2, 4, 6, 8, 10]);
}

#[test]
fn tile_and_background_images() {
    let t = render_tile(&palette(), &marked_tile());
    assert_eq!(t.dimensions, (8, 8));
    assert_eq!(t.data[0], 1);
    assert_eq!(t.data[7], 2);
    assert_eq!(t.palette.len(), 3);
    let map = TileMap::new(vec![marked_tile(), Tile::default()]);
    let ts = render_tiles(&palette(), &map);
    assert_eq!(ts.len(), 2);
    assert_eq!(ts[1].data, vec![0u8; 64]);
    let bg = render_background(&palette(), (3, 2));
    assert_eq!(bg.data, vec![0u8; 6]);
    assert!(!bg.transparent);
}

#[test]
fn screen_image_shows_flipped_tiles() {
    let v = vram();
    let img = render_screen(&palette(), &v.bg0_character_data, &v.bg0_screen_data);
    assert_eq!(img.dimensions, (240, 160));
    assert_eq!(img.data.len(), 240 * 160);
    assert_eq!(img.data[0], 1);
    assert_eq!(img.data[7], 2);
    // horizontally flipped at entry (1, 0)
    assert_eq!(img.data[8], 2);
    assert_eq!(img.data[15], 1);
    // vertically flipped at entry (0, 1): its last row holds the marks
    assert_eq!(img.data[(8 + 7) * 240], 1);
    assert_eq!(img.data[(8 + 7) * 240 + 7], 2);
    assert_eq!(img.data[8 * 240], 0);
}

#[test]
fn cursor_frames_one_cell() {
    let c = render_cursor((2, 2), 1, 0);
    assert_eq!(c.dimensions, (16, 16));
    assert_eq!(c.palette.len(), 2);
    assert!(c.transparent);
    assert_eq!(c.data[8], 1);
    assert_eq!(c.data[15], 1);
    assert_eq!(c.data[16 + 9], 0);
    assert_eq!(c.data[16 + 8], 1);
    assert_eq!(c.data[7 * 16 + 12], 1);
    assert_eq!(c.data[0], 0);
    assert_eq!(c.data.iter().filter(|&&v| v == 1).count(), 28);
}

#[test]
fn border_frames_with_zero() {
    let img = ImageData { palette: vec![Color::black()], data: vec![1, 2, 3, 4], dimensions: (2, 2), transparent: false };
    let b = border(img);
    assert_eq!(b.dimensions, (4, 4));
    assert_eq!(b.data, vec![0, 0, 0, 0, 0, 1, 2, 0, 0, 3, 4, 0, 0, 0, 0, 0]);
}

#[test]
fn layers_merge_and_cursor() {
    let layers = Layers::new_screen(&palette(), &vram());
    let png = layers.to_png();
    assert_eq!(&png.bytes()[..8], &[137, 80, 78, 71, 13, 10, 26, 10]);
    let pngs = layers.to_pngs();
    assert_eq!(pngs.len(), 3);
    let bg = render_background(&palette(), (4, 2));
    let with_cursor = Layers::new_background(bg).set_cursor(0, 0);
    let pngs = with_cursor.to_pngs();
    assert_eq!(pngs.len(), 2);
    let again = with_cursor.set_cursor(1, 0);
    assert_eq!(again.to_pngs().len(), 2);
}

#[test]
fn rgba_of_entries() {
    let colors = vec![Color::black(), Color::new(1, 2, 3).unwrap()];
    assert_eq!(get_color(&colors, 0, true), [0, 0, 0, 0]);
    assert_eq!(get_color(&colors, 0, false), [0, 0, 0, 255]);
    assert_eq!(get_color(&colors, 1, true), [8, 16, 24, 255]);
    assert_eq!(get_color(&colors, 9, true), [0, 0, 0, 0]);
    let img = ImageData { palette: colors, data: vec![1, 0], dimensions: (2, 1), transparent: true };
    assert_eq!(img.to_rgba(), vec![8, 16, 24, 255, 0, 0, 0, 0]);
}

#[test]
fn png_files_start_with_signature() {
    let live = gba_tile_manager::palette::Palette::with_colors("p", vec![Color::new(3, 3, 3).unwrap()]);
    let pal = palette_to_png(&live);
    assert_eq!(&pal[..8], &[137, 80, 78, 71, 13, 10, 26, 10]);
    let tile = tile_to_png(&live, &marked_tile());
    assert_eq!(&tile[..8], &[137, 80, 78, 71, 13, 10, 26, 10]);
    let v = vram();
    let screen = screen_to_png(&live, &v.bg0_character_data, &v.bg0_screen_data);
    assert_eq!(&screen[..8], &[137, 80, 78, 71, 13, 10, 26, 10]);
    let img = render_palette(&live);
    assert_eq!(img.data()[0], 0);
    assert_eq!(img.data()[8], 0);
    assert_eq!(img.dimensions(), &(128, 128));
}

#[test]
fn png_decoding_helpers() {
    assert_eq!(read_rgba(vec![1, 2, 3, 255, 4, 5, 6, 0, 7]), vec![1, 2, 3, 4, 5, 6, 7]);
    assert_eq!(read_4_bit(vec![0x21, 0x43]), vec![1, 2, 3, 4]);
    let palette = [0, 0, 0, 10, 20, 30, 40, 50, 60];
    assert_eq!(
        read_to_rgb_255(ColorType::Indexed, BitDepth::Four, Some(&palette), vec![0x12]),
        vec![40, 50, 60, 10, 20, 30]
    );
    assert_eq!(
        read_to_rgb_255(ColorType::Indexed, BitDepth::Eight, Some(&palette), vec![1, 0]),
        vec![10, 20, 30, 0, 0, 0]
    );
    assert_eq!(read_to_rgb_255(ColorType::Rgb, BitDepth::Eight, None, vec![9, 8, 7]), vec![9, 8, 7]);
    assert_eq!(read_to_rgb_255(ColorType::Rgba, BitDepth::Eight, None, vec![9, 8, 7, 6]), vec![9, 8, 7]);
}
