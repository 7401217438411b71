use gba_tile_manager::character::Character;
use gba_tile_manager::character_data::CharacterData;
use gba_tile_manager::color::Color;
use gba_tile_manager::error::Error;
use gba_tile_manager::palette::Palette;
use gba_tile_manager::project::boop::BoopNode;
use gba_tile_manager::project::character::CharacterNode;
use gba_tile_manager::project::digest::Digests;
use gba_tile_manager::project::palette::PaletteNode;
use gba_tile_manager::project::screen::ScreenNode;
use gba_tile_manager::project::{Project, RgbImage, ScreenConfig, screens_to_dep_graph};
use gba_tile_manager::savable::Savable;
use gba_tile_manager::screen::ScreenData;

/// The colors of the background palette image, at 5 bits per channel; the rest of its 256
/// pixels are black.
const PALETTE: [(u8, u8, u8); 6] = [(5, 6, 6), (9, 9, 13), (14, 13, 16), (27, 26, 27), (2, 5, 13), (21, 23, 21)];

/// A pixel of palette color `index`, with low bits that the reduction to 5 bits drops.
fn pixel(index: usize) -> [u8; 3] {
    let (r, g, b) = PALETTE[index];
    [r * 8 + 3, g * 8 + 5, b * 8 + 7]
}

fn background_palette_image() -> RgbImage {
    let mut data = Vec::new();
    for k in 0..256 {
        if k < PALETTE.len() {
            data.extend_from_slice(&pixel(k));
        } else {
            data.extend_from_slice(&[0, 0, 0]);
        }
    }
    RgbImage::new(16, 16, data).unwrap()
}

/// A 256 by 256 image of palette entries `f(x, y)`.
fn indexed_image(f: impl Fn(usize, usize) -> usize) -> RgbImage {
    let mut data = Vec::with_capacity(256 * 256 * 3);
    for y in 0..256 {
        for x in 0..256 {
            data.extend_from_slice(&pixel(f(x, y)));
        }
    }
    RgbImage::new(256, 256, data).unwrap()
}

/// The top-left pixel of tile `t` (in tile order) of a 256 pixel wide image.
fn tile_origin(t: usize) -> (usize, usize) {
    ((t % 32) * 8, (t / 32) * 8)
}

/// Tile 14 holds a 2x2 square of entry 3 at pixels 41, 42, 49 and 50; tile 99 is the last
/// tile that is not blank.
fn bg1_characters() -> RgbImage {
    let (x14, y14) = tile_origin(14);
    let (x99, y99) = tile_origin(99);
    indexed_image(move |x, y| {
        if (x == x14 + 1 || x == x14 + 2) && (y == y14 + 5 || y == y14 + 6) {
            3
        } else if x == x99 + 4 && y == y99 + 4 {
            1
        } else {
            0
        }
    })
}

/// Tile 0 is blank; tile 1 has a single pixel of entry 1 in its top-left corner.
fn bg0_characters() -> RgbImage {
    indexed_image(|x, y| if x == 8 && y == 0 { 1 } else { 0 })
}

/// A screen that shows tile 1 at entry 0, mirrored horizontally at entry 29, vertically at
/// entry 19 * 32, both ways at entry 19 * 32 + 29, and (when `last` is set) unflipped at the
/// last entry; every other entry shows the blank tile.
fn bg0_screen(last: bool) -> RgbImage {
    let marks: Vec<(usize, usize)> = {
        let mut m = vec![];
        let (x, y) = tile_origin(0);
        m.push((x, y));
        let (x, y) = tile_origin(29);
        m.push((x + 7, y));
        let (x, y) = tile_origin(19 * 32);
        m.push((x, y + 7));
        let (x, y) = tile_origin(19 * 32 + 29);
        m.push((x + 7, y + 7));
        if last {
            let (x, y) = tile_origin(1023);
            m.push((x, y));
        }
        m
    };
    indexed_image(move |x, y| if marks.contains(&(x, y)) { 1 } else { 0 })
}

fn read_palette() -> Palette {
    let palette = PaletteNode::new("background_palette.png".into(), background_palette_image());
    palette.as_palette().unwrap()
}

fn read_character_data(file_name: &str, image: RgbImage, palette: &Palette) -> CharacterData {
    let character_data = CharacterNode::new(file_name.to_string(), image);
    character_data.as_character_data(palette).unwrap()
}

fn read_screen_data(image: RgbImage, palette: &Palette, character_data: &CharacterData) -> ScreenData {
    let screen_data = ScreenNode::new("screen.png".to_string(), image);
    screen_data.as_screen_data(palette, character_data).unwrap()
}

fn assert_palette(palette: &Palette) {
    assert_eq!(palette.len(), 6);
    assert_eq!(palette.first(), Some(&Color::new(5, 6, 6).unwrap()));
    assert_eq!(palette.get(0), Some(&Color::new(5, 6, 6).unwrap()));
    assert_eq!(palette.get(1), Some(&Color::new(9, 9, 13).unwrap()));
    assert_eq!(palette.get(2), Some(&Color::new(14, 13, 16).unwrap()));
    assert_eq!(palette.get(3), Some(&Color::new(27, 26, 27).unwrap()));
    assert_eq!(palette.get(4), Some(&Color::new(2, 5, 13).unwrap()));
    assert_eq!(palette.get(5), Some(&Color::new(21, 23, 21).unwrap()));
}

fn assert_character_data(character_data: &CharacterData) {
    assert_eq!(character_data.len(), 100);
    let tile = character_data.get(14).unwrap();
    for idx in 0..63 {
        if idx == 49 || idx == 50 || idx == 41 || idx == 42 {
            assert_eq!(tile.palette_indexes[idx], 3, "{idx}");
        } else {
            assert_eq!(tile.palette_indexes[idx], 0, "{idx}");
        }
    }
}

fn assert_screen_corners(screen_data: &ScreenData) {
    let top_left = screen_data.first().unwrap();
    let top_right = screen_data.get(29).unwrap();
    let bottom_left = screen_data.get(19 * 32).unwrap();
    let bottom_right = screen_data.get(19 * 32 + 29).unwrap();

    assert_eq!(
        &Character { tile_number: 1, horizontal_flip: false, vertical_flip: false, palette_number: 0 },
        top_left
    );
    assert_eq!(
        &Character { tile_number: 1, horizontal_flip: true, vertical_flip: false, palette_number: 0 },
        top_right
    );
    assert_eq!(
        &Character { tile_number: 1, horizontal_flip: false, vertical_flip: true, palette_number: 0 },
        bottom_left
    );
    assert_eq!(
        &Character { tile_number: 1, horizontal_flip: true, vertical_flip: true, palette_number: 0 },
        bottom_right
    );
}

#[test]
fn project_palette_from_image() {
    let palette = read_palette();
    assert_palette(&palette);
}

#[test]
fn mod_palette_from_image() {
    let palette = read_palette();
    assert_palette(&palette);
    assert_eq!(palette.name(), "background_palette.png");
}

#[test]
fn project_character_data_from_image() {
    let palette = read_palette();
    let character_data = read_character_data("bg1_empty_art.png", bg1_characters(), &palette);
    assert_character_data(&character_data);
}

#[test]
fn mod_character_data_from_image() {
    let palette = read_palette();
    let character_data = read_character_data("empty_art/bg1/characters.png", bg1_characters(), &palette);
    assert_character_data(&character_data);
}

#[test]
fn project_screen_data_from_image() {
    let palette = read_palette();
    let character_data = read_character_data("bg0_empty_art.png", bg0_characters(), &palette);
    let screen_data = read_screen_data(bg0_screen(true), &palette, &character_data);
    assert_eq!(screen_data.len(), 1024);
    assert_screen_corners(&screen_data);
}

#[test]
fn mod_screen_data_from_image() {
    let palette = read_palette();
    let character_data = read_character_data("empty_art/bg0/characters.png", bg0_characters(), &palette);
    let screen_data = read_screen_data(bg0_screen(false), &palette, &character_data);
    assert_eq!(screen_data.len(), 32 * 20 - 2);
    assert_screen_corners(&screen_data);
}

#[test]
fn missing_color_is_reported() {
    let palette = read_palette();
    let image = indexed_image(|x, y| if x == 3 && y == 2 { 0 } else { 0 });
    let mut data = image.data().clone();
    let k = 3 * (2 * 256 + 3);
    data[k] = 255;
    data[k + 1] = 255;
    data[k + 2] = 255;
    let image = RgbImage::new(256, 256, data).unwrap();
    let node = CharacterNode::new("c".to_string(), image);
    match node.as_character_data(&palette) {
        Err(Error::ColorNotFound(c)) => assert_eq!(c, Color::new(31, 31, 31).unwrap()),
        _ => panic!("expected a missing color"),
    }
}

#[test]
fn missing_tile_is_reported() {
    let palette = read_palette();
    let character_data = read_character_data("blank", indexed_image(|_, _| 0), &palette);
    assert_eq!(character_data.len(), 0);
    let screen = ScreenNode::new("s".to_string(), bg0_screen(false));
    match screen.as_screen_data(&palette, &character_data) {
        Err(Error::TileNotFound { character_data, tile }) => {
            assert_eq!(character_data, "blank");
            assert_eq!(tile[0], 1);
        }
        _ => panic!("expected a missing tile"),
    }
}

#[test]
fn image_needs_three_bytes_per_pixel() {
    assert!(RgbImage::new(2, 2, vec![0; 12]).is_some());
    assert!(RgbImage::new(2, 2, vec![0; 11]).is_none());
}

#[test]
fn dimensions_are_checked() {
    let small = RgbImage::new(8, 8, vec![0; 8 * 8 * 3]).unwrap();
    assert!(matches!(
        PaletteNode::new("p".into(), RgbImage::new(8, 16, vec![0; 8 * 16 * 3]).unwrap()).verify(),
        Err(Error::PaletteDimensions { width: 8, height: 16 })
    ));
    assert!(matches!(
        CharacterNode::new("c".into(), small).verify(),
        Err(Error::CharacterDataDimensions { width: 8, height: 8 })
    ));
    let mut c = CharacterNode::new("c".into(), bg0_characters());
    c.screens_mut().push(ScreenNode::new("s".into(), RgbImage::new(256, 8, vec![0; 256 * 8 * 3]).unwrap()));
    assert!(matches!(c.verify(), Err(Error::ScreenDataDimensions { width: 256, height: 8 })));
    let mut p = PaletteNode::new("p".into(), background_palette_image());
    p.character_maps_mut().push(c);
    assert!(matches!(p.verify(), Err(Error::ScreenDataDimensions { width: 256, height: 8 })));
}

fn sample_project(boop_lines: Vec<String>) -> Result<Project, Error> {
    let mut character = CharacterNode::new("characters".into(), bg0_characters());
    character.screens_mut().push(ScreenNode::new("screen".into(), bg0_screen(false)));
    let mut palette = PaletteNode::new("palette".into(), background_palette_image());
    palette.character_maps_mut().push(character);
    let boops = BoopNode::new("level".into(), boop_lines);
    Project::new("demo".into(), vec![palette], vec![boops])
}

#[test]
fn project_digest_order_and_contents() {
    let lines = vec![
        "x, y, w, h, callback, args".to_string(),
        "10,10,10,10,,".to_string(),
        "10,0,10,10,1,2|3".to_string(),
    ];
    let mut project = sample_project(lines).unwrap();
    assert_eq!(project.name(), "demo");
    let mut digests: Digests = project.digest().unwrap();
    assert_eq!(digests.palettes_mut().len(), 1);
    assert_eq!(digests.palettes_mut()[0].name(), "palette");
    assert_eq!(digests.characters_mut().len(), 1);
    assert_eq!(digests.characters_mut()[0].len(), 2);
    assert_eq!(digests.screens_mut().len(), 1);
    assert_eq!(digests.screens_mut()[0].len(), 32 * 20 - 2);
    assert_eq!(digests.screens_mut()[0].as_data().len(), 2 * (32 * 20 - 2));
    assert_eq!(digests.boops_mut().len(), 1);
    let (bin, args) = digests.boops_mut()[0].as_data();
    assert_eq!(bin.len(), 22);
    assert_eq!(args, vec![2, 3]);
}

#[test]
fn project_checks_boops_header() {
    let lines = vec!["x,y,w,h".to_string()];
    assert!(matches!(sample_project(lines), Err(Error::BoopsHeader)));
}

#[test]
fn project_digest_stops_at_bad_record() {
    let lines = vec!["x,y,w,h,callback,args".to_string(), "1,2,3".to_string()];
    let mut project = sample_project(lines).unwrap();
    assert!(matches!(project.digest(), Err(Error::RecordFormat)));
}

#[test]
fn dep_graph_groups_screens() {
    let configs = vec![
        ScreenConfig { palette: "p.png".into(), character: "c.png".into(), screen: "s1.png".into() },
        ScreenConfig { palette: "q.png".into(), character: "d.png".into(), screen: "s2.png".into() },
        ScreenConfig { palette: "p.png".into(), character: "c.png".into(), screen: "s3.png".into() },
        ScreenConfig { palette: "p.png".into(), character: "e.png".into(), screen: "s4.png".into() },
    ];
    let graph = screens_to_dep_graph(configs).unwrap();
    assert_eq!(graph.len(), 2);
    assert_eq!(graph[0].0, "p");
    assert_eq!(graph[0].1.len(), 2);
    assert_eq!(graph[0].1[0], ("c".to_string(), vec!["s1".to_string(), "s3".to_string()]));
    assert_eq!(graph[0].1[1], ("e".to_string(), vec!["s4".to_string()]));
    assert_eq!(graph[1].0, "q");
    let bad = vec![ScreenConfig { palette: "p.png".into(), character: "c.bmp".into(), screen: "s.png".into() }];
    assert!(matches!(screens_to_dep_graph(bad), Err(Error::NotPng(n)) if n == "c.bmp"));
}

#[test]
fn digested_screen_reads_back_in_the_editor() {
    let lines = vec!["x,y,w,h,callback,args".to_string()];
    let mut project = sample_project(lines).unwrap();
    let mut digests = project.digest().unwrap();
    let screen = &digests.screens_mut()[0];
    let data = screen.as_data();
    let grid = gba_tile_manager::domain::screen::ScreenData::create("screen", &data);
    assert_eq!(grid.get_character(0, 0), &Character::new(1, false, false, 0));
    assert_eq!(grid.get_character(29, 0), &Character::new(1, true, false, 0));
    assert_eq!(grid.get_character(0, 19), &Character::new(1, false, true, 0));
    assert_eq!(grid.get_character(29, 19), &Character::new(1, true, true, 0));
    assert_eq!(grid.get_character(31, 31), &Character::new(0, false, false, 0));
    let palette_data = digests.palettes_mut()[0].as_data();
    let palette = gba_tile_manager::domain::palette::Palette::create("palette", &palette_data);
    assert_eq!(palette.len(), 6);
    assert_eq!(palette.get(3), Some(&Color::new(27, 26, 27).unwrap()));
    assert_eq!(gba_tile_manager::domain::project::name_of_saved_file("a_palette.bin", "_palette.bin"), Some("a".to_string()));
    assert_eq!(gba_tile_manager::domain::project::name_of_saved_file("a.bin", "_palette.bin"), None);
}

#[test]
fn screen_entries_draw_the_image_again() {
    let palette = read_palette();
    let character_data = read_character_data("chars", bg0_characters(), &palette);
    let screen_data = read_screen_data(bg0_screen(false), &palette, &character_data);
    for (entry, corner) in [(0usize, 0usize), (29, 7), (19 * 32, 56), (19 * 32 + 29, 63)] {
        let c = screen_data.get(entry).unwrap();
        let tile = character_data.get(c.tile_number).unwrap();
        let drawn = gba_tile_manager::tile::flip_tile(tile, c.horizontal_flip, c.vertical_flip);
        for p in 0..64 {
            assert_eq!(drawn.get(p), if p == corner { 1 } else { 0 }, "entry {entry} pixel {p}");
        }
    }
}

#[test]
fn palette_entries_give_back_pixel_colors() {
    let palette = read_palette();
    let image = bg1_characters();
    let idx = gba_tile_manager::project::colors_to_palette_index(image.data(), &palette).unwrap();
    assert_eq!(idx.len(), 256 * 256);
    for k in [0usize, 5 * 256 + 113, 99] {
        let c = palette.get(idx[k] as usize).unwrap();
        let d = image.data();
        assert_eq!((c.r(), c.g(), c.b()), (d[3 * k] / 8, d[3 * k + 1] / 8, d[3 * k + 2] / 8));
    }
}

#[test]
fn boops_files_must_be_csv() {
    assert_eq!(gba_tile_manager::project::determine_boop_file("level.csv".to_string()).unwrap(), "level");
    assert!(matches!(
        gba_tile_manager::project::determine_boop_file("level.txt".to_string()),
        Err(Error::NotCsv(n)) if n == "level.txt"
    ));
    assert_eq!(gba_tile_manager::project::verify_is_png_get_file_name("a.png.png".to_string()).unwrap(), "a");
}

/// The bytes of a PNG file holding `image`, as a project directory would.
fn png_file(image: &RgbImage) -> Vec<u8> {
    let raw = image::RgbImage::from_raw(image.width(), image.height(), image.data().clone()).unwrap();
    let mut bytes = Vec::new();
    image::DynamicImage::ImageRgb8(raw)
        .write_to(&mut std::io::Cursor::new(&mut bytes), image::ImageFormat::Png)
        .unwrap();
    bytes
}

/// A project like the example one: a background palette, two character maps with their
/// screens and a boops file, its images read from PNG file contents.
fn example_project() -> Project {
    let decode = |image: RgbImage| RgbImage::decode(&png_file(&image)).expect("Could not open project");
    let mut bg0 = CharacterNode::new("bg0_characters".into(), decode(bg0_characters()));
    bg0.screens_mut().push(ScreenNode::new("bg0_screen".into(), decode(bg0_screen(true))));
    let mut bg1 = CharacterNode::new("bg1_characters".into(), decode(bg1_characters()));
    bg1.screens_mut().push(ScreenNode::new("bg1_screen".into(), decode(indexed_image(|_, _| 0))));
    let mut palette = PaletteNode::new("background_palette".into(), decode(background_palette_image()));
    palette.character_maps_mut().push(bg0);
    palette.character_maps_mut().push(bg1);
    let boops = BoopNode::new(
        "boops".into(),
        vec![
            "x, y, w, h, callback, args".to_string(),
            "0,0,16,16,0,1|2".to_string(),
            "32,0,16,16,,".to_string(),
        ],
    );
    Project::new("example".into(), vec![palette], vec![boops]).expect("Could not open project")
}

#[test]
fn project_read_project() {
    let mut project = example_project();
    project.digest().expect("Could not digest project");
}

#[test]
fn mod_read_project() {
    let mut project = example_project();
    let mut digests = project.digest().expect("Could not digest project");
    assert_eq!(digests.palettes_mut().len(), 1);
    assert_eq!(digests.characters_mut().len(), 2);
    assert_eq!(digests.screens_mut().len(), 2);
    assert_eq!(digests.boops_mut().len(), 1);
}
