use gba_tile_manager::character::Character;
use gba_tile_manager::color::Color;
use gba_tile_manager::domain::map::CharacterData;
use gba_tile_manager::domain::palette::Palette;
use gba_tile_manager::domain::screen::ScreenData;
use gba_tile_manager::map::TileMap;
use gba_tile_manager::savable::Savable;
use gba_tile_manager::tile::Tile;

#[test]
fn palette_round_trip() {
    let mut palette = Palette::new("test");
    palette.set_color(0, Color::new(31, 0, 0).unwrap());
    palette.set_color(1, Color::new(0, 31, 0).unwrap());
    palette.set_color(2, Color::new(0, 0, 31).unwrap());
    palette.set_color(3, Color::new(31, 31, 31).unwrap());
    palette.set_color(4, Color::new(0, 0, 0).unwrap());

    let data = palette.as_data();
    let palette = Palette::create(palette.name(), &data);

    assert_eq!(palette.len(), 5);
    assert_eq!(palette.get(0), Some(&Color::new(31, 0, 0).unwrap()));
    assert_eq!(palette.get(1), Some(&Color::new(0, 31, 0).unwrap()));
    assert_eq!(palette.get(2), Some(&Color::new(0, 0, 31).unwrap()));
    assert_eq!(palette.get(3), Some(&Color::new(31, 31, 31).unwrap()));
    assert_eq!(palette.get(4), Some(&Color::new(0, 0, 0).unwrap()));
    assert_eq!(palette.name(), "test");
}

#[test]
fn set_color_pads_with_black() {
    let mut palette = Palette::new("p");
    palette.set_color(3, Color::new(1, 2, 3).unwrap());
    assert_eq!(palette.len(), 4);
    assert_eq!(palette.get(0), Some(&Color::black()));
    assert_eq!(palette.get(2), Some(&Color::black()));
    assert_eq!(palette.get(3), Some(&Color::new(1, 2, 3).unwrap()));
    palette.set_color(1, Color::new(4, 5, 6).unwrap());
    assert_eq!(palette.len(), 4);
    assert_eq!(palette.get(1), Some(&Color::new(4, 5, 6).unwrap()));
    assert_eq!(palette.get(4), None);
    assert_eq!(Palette::suffix(), "_palette.bin");
}

#[test]
fn palette_create_ignores_odd_byte() {
    let palette = Palette::create("x", &[0x1f, 0x00, 0xff]);
    assert_eq!(palette.len(), 1);
    assert_eq!(palette.as_data(), vec![0x1f, 0x00]);
}

#[test]
fn screen_round_trip() {
    let mut screen = ScreenData::default();
    screen.set_character(Character::new(0, false, false, 0), 0, 0);
    screen.set_character(Character::new(1, false, false, 1), 1, 0);
    screen.set_character(Character::new(2, false, false, 2), 2, 0);
    screen.set_character(Character::new(3, false, false, 3), 3, 0);
    screen.set_character(Character::new(4, false, false, 4), 4, 0);
    screen.set_character(Character::new(5, false, false, 5), 0, 1);

    let data = screen.as_data();
    assert_eq!(data.len(), 2 * 33);
    let screen = ScreenData::create("screen", &data);

    assert_eq!(screen.get_character(0, 0), &Character::new(0, false, false, 0));
    assert_eq!(screen.get_character(1, 0), &Character::new(1, false, false, 1));
    assert_eq!(screen.get_character(2, 0), &Character::new(2, false, false, 2));
    assert_eq!(screen.get_character(3, 0), &Character::new(3, false, false, 3));
    assert_eq!(screen.get_character(4, 0), &Character::new(4, false, false, 4));
    assert_eq!(screen.get_character(0, 1), &Character::new(5, false, false, 5));

    for x in 0..30 {
        for y in 0..20 {
            match (x, y) {
                (x, 0) if x < 5 => continue,
                (0, 1) => continue,
                _ => assert_eq!(screen.get_character(x, y), &Character::new(0, false, false, 0)),
            }
        }
    }
    assert_eq!(ScreenData::suffix(), "_screen_data.bin");
}

#[test]
fn empty_screen_has_no_data() {
    let screen = ScreenData::new("blank");
    assert!(screen.as_data().is_empty());
    assert_eq!(screen.name(), "blank");
}

#[test]
fn character_data_round_trip() {
    let mut p = [0u8; 64];
    p[0] = 15;
    p[63] = 3;
    let tiles = TileMap::new(vec![Tile::new(p), Tile::default()]);
    let bytes = tiles.as_bytes();
    assert_eq!(bytes.len(), 64);
    let data = CharacterData::create("chars", &bytes);
    assert_eq!(data.len(), 2);
    assert_eq!(data.get(0).unwrap().palette_indexes, p);
    assert!(data.get(1).unwrap().is_blank());
    assert_eq!(data.as_data(), bytes);
    assert_eq!(CharacterData::new("n").len(), 0);
    assert_eq!(CharacterData::suffix(), "_character_data.bin");
}

#[test]
fn tile_map_reads_whole_tiles_only() {
    let bytes = vec![0x21u8; 32 + 5];
    let map = TileMap::from(&bytes);
    assert_eq!(map.len(), 1);
    assert_eq!(map.get(0).unwrap().get(0), 1);
    assert_eq!(map.get(0).unwrap().get(1), 2);
    assert!(map.get(1).is_none());
}

#[test]
fn palette_pictures() {
    let palette = Palette::with_colors("p", vec![Color::black(), Color::new(3, 4, 5).unwrap()]);
    let square = palette.render_square();
    assert_eq!(square.dimensions, (16, 16));
    assert_eq!(square.data.len(), 256);
    assert_eq!(&square.data[..3], &[0, 1, 0]);
    let wide = palette.render_with_dimensions((4, 1));
    assert_eq!(wide.data, vec![0, 1, 0, 0]);
    let swatches = palette.render_colors();
    assert_eq!(swatches.len(), 2);
    assert_eq!(swatches[1].data, vec![1]);
    assert_eq!(swatches[1].dimensions, (1, 1));
    assert_eq!(swatches[1].to_rgba(), vec![24, 32, 40, 255]);
}
