use gba_tile_manager::character::Character;

#[test]
fn text_round_trip() {
    let text = Character::new(1023, true, true, 15);
    let bytes: [u8; 2] = (&text).into();
    assert_eq!(bytes, [0xff, 0xff]);

    let text = Character::new(0, false, false, 0);
    let bytes: [u8; 2] = (&text).into();
    assert_eq!(bytes, [0x00, 0x00]);

    let text = Character::new(16, false, false, 0);
    let bytes: [u8; 2] = (&text).into();
    assert_eq!(bytes, [0x10, 0x00]);

    let text = Character::new(0, true, false, 0);
    let bytes: [u8; 2] = (&text).into();
    assert_eq!(bytes, [0x00, 0x04]);

    let text = Character::new(0, false, true, 0);
    let bytes: [u8; 2] = (&text).into();
    assert_eq!(bytes, [0x00, 0x08]);

    let text = Character::new(0, false, false, 7);
    let bytes: [u8; 2] = (&text).into();
    assert_eq!(bytes, [0x00, 0x70]);
}

#[test]
fn character_bytes_round_trip_law() {
    for tile in [0usize, 1, 512, 1023] {
        for h in [false, true] {
            for v in [false, true] {
                for p in [0usize, 9, 15] {
                    let c = Character::new(tile, h, v, p);
                    let bytes: [u8; 2] = (&c).into();
                    assert_eq!(Character::from(bytes), c);
                }
            }
        }
    }
}

#[test]
fn character_from_bytes_fields() {
    let c = Character::from([0x2a, 0x97]);
    assert_eq!(c.tile_number(), 0x32a);
    assert!(c.horizontal_flip());
    assert!(!c.vertical_flip());
    assert_eq!(c.palette_number(), 9);
    assert_eq!(Character::default(), Character::new(0, false, false, 0));
}

#[test]
fn bytes_character_round_trip_law() {
    for bytes in [[0x00u8, 0x00], [0xff, 0xff], [0x2a, 0x97], [0x01, 0x10]] {
        let c = Character::from(bytes);
        let again: [u8; 2] = (&c).into();
        assert_eq!(again, bytes);
    }
}
