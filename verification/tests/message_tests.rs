use gba_tile_manager::color::Color;
use gba_tile_manager::error::Error;

#[test]
fn dimension_messages() {
    let e = Error::PaletteDimensions { width: 17, height: 16 };
    assert_eq!(e.message(), "Palette dimensions off (17x16) != (16x16)");
    let e = Error::CharacterDataDimensions { width: 256, height: 0 };
    assert_eq!(e.message(), "Character data dimensions off (256x0) != (256x256)");
    let e = Error::ScreenDataDimensions { width: 4294967295, height: 10 };
    assert_eq!(e.message(), "Screen data dimensions off (4294967295x10) != (256x256)");
}

#[test]
fn color_and_file_messages() {
    let e = Error::ColorNotFound(Color::new(1, 20, 31).unwrap());
    assert_eq!(e.message(), "Palette color (1, 20, 31) not found");
    assert_eq!(Error::NotPng("a.jpg".to_string()).message(), "File `a.jpg` is not a png file.");
    assert_eq!(Error::NotCsv("b.txt".to_string()).message(), "Expected boops file to be .csv. b.txt");
    assert_eq!(
        Error::BoopsHeader.message(),
        "Boops csv header should be \"x,y,w,h,callback,args\" (spaces allowed)."
    );
    assert_eq!(Error::RecordFormat.message(), "No capture group found");
    assert_eq!(Error::ArgsIndexOverflow.message(), "args_index overflowed u8");
    assert_eq!(Error::BoopsFileSize(13).message(), "boops file size 13 is not a multiple of 12");
    assert_eq!(Error::ImageDecode("bad".to_string()).message(), "bad");
}

#[test]
fn boops_file_name_message_quotes_the_name() {
    for name in ["level.bin", "a \"b\"\\c\n\t.bin", ""] {
        let expected = format!("file name {name:?} does not end with `_boops.bin`");
        assert_eq!(Error::BoopsFileName(name.to_string()).message(), expected);
    }
}

#[test]
fn tile_not_found_message_lists_rows() {
    let mut tile = [0u8; 64];
    for (i, v) in tile.iter_mut().enumerate() {
        *v = (i % 16) as u8;
    }
    let text_tile = tile
        .chunks_exact(8)
        .map(|chunk| format!("{chunk:?}"))
        .reduce(|a, b| format!("{a:?}\n{b:?}"))
        .unwrap_or_else(|| String::from(""));
    let expected = format!("Tile not found in character data chars{text_tile}");
    let e = Error::TileNotFound { character_data: "chars".to_string(), tile };
    assert_eq!(e.message(), expected);
}
