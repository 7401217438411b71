use gba_tile_manager::color::Color;

#[test]
fn red_into() {
    let color = Color::new(31, 0, 0).unwrap();
    let bytes: [u8; 2] = (&color).into();
    assert_eq!(bytes, [0x1f, 0x00])
}

#[test]
fn green_into() {
    let color = Color::new(0, 31, 0).unwrap();
    let bytes: [u8; 2] = (&color).into();
    assert_eq!(bytes, [0xe0, 0x03])
}

#[test]
fn blue_into() {
    let color = Color::new(0, 0, 31).unwrap();
    let bytes: [u8; 2] = (&color).into();
    assert_eq!(bytes, [0x00, 0x7c])
}

#[test]
fn white_into() {
    let color = Color::new(31, 31, 31).unwrap();
    let bytes: [u8; 2] = (&color).into();
    assert_eq!(bytes, [0xff, 0x7f])
}

#[test]
fn black_into() {
    let color = Color::new(0, 0, 0).unwrap();
    let bytes: [u8; 2] = (&color).into();
    assert_eq!(bytes, [0x00, 0x00])
}

#[test]
fn from_red() {
    let bytes = [0x1f, 0x00];
    let color = Color::from(bytes);
    assert_eq!(color.r(), 31);
    assert_eq!(color.g(), 0);
    assert_eq!(color.b(), 0);
}

#[test]
fn from_green() {
    let bytes = [0xe0, 0x03];
    let color = Color::from(bytes);
    assert_eq!(color.r(), 0);
    assert_eq!(color.g(), 31);
    assert_eq!(color.b(), 0);
}

#[test]
fn from_blue() {
    let bytes = [0x00, 0x7c];
    let color = Color::from(bytes);
    assert_eq!(color.r(), 0);
    assert_eq!(color.g(), 0);
    assert_eq!(color.b(), 31);
}

#[test]
fn from_white() {
    let bytes = [0xff, 0x7f];
    let color = Color::from(bytes);
    assert_eq!(color.r(), 31);
    assert_eq!(color.g(), 31);
    assert_eq!(color.b(), 31);
}

#[test]
fn from_black() {
    let bytes = [0x00, 0x00];
    let color = Color::from(bytes);
    assert_eq!(color.r(), 0);
    assert_eq!(color.g(), 0);
    assert_eq!(color.b(), 0);
}

#[test]
fn new_refuses_channels_above_31() {
    assert_eq!(Color::new(32, 0, 0), Err("Invalid color values".to_string()));
    assert_eq!(Color::new(0, 0, 255), Err("Invalid color values".to_string()));
    assert!(Color::new(31, 31, 31).is_ok());
}

#[test]
fn color_bytes_round_trip_law() {
    for r in [0u8, 1, 15, 31] {
        for g in [0u8, 7, 31] {
            for b in [0u8, 16, 31] {
                let c = Color::new(r, g, b).unwrap();
                let bytes: [u8; 2] = (&c).into();
                assert_eq!(Color::from(bytes), c);
            }
        }
    }
}

#[test]
fn bytes_color_round_trip_drops_top_bit() {
    let c = Color::from([0x34, 0xd2]);
    let bytes: [u8; 2] = (&c).into();
    assert_eq!(bytes, [0x34, 0x52]);
}

#[test]
fn png_rgb_and_rgba() {
    let c = Color::new(1, 2, 31).unwrap();
    assert_eq!(c.as_png_rgb(), [8, 16, 248]);
    assert_eq!(c.as_rgba(true), [8, 16, 248, 255]);
    assert_eq!(Color::black().as_rgba(true), [0, 0, 0, 0]);
    assert_eq!(Color::black().as_rgba(false), [0, 0, 0, 255]);
}
