use gba_tile_manager::tile::{Tile, flip_tile};
use gba_tile_manager::tile_iter::TiledIterExt;

#[test]
fn tile_round_trip() {
    let mut palette_indexes: [u8; 64] = [0u8; 64];
    for it in 1..=8 {
        palette_indexes[it] = it as u8;
    }

    let tile = Tile::new(palette_indexes);
    let bytes: [u8; 32] = (&tile).into();

    assert_eq!(&bytes[..5], &[0x10, 0x32, 0x54, 0x76, 0x08]);
    assert_eq!(&bytes[5..], &[0u8; 27]);

    let tile = Tile::from(bytes);

    assert_eq!(&tile.palette_indexes[..9], &[0, 1, 2, 3, 4, 5, 6, 7, 8]);
    assert_eq!(&tile.palette_indexes[9..], &[0u8; 55]);
}

#[test]
fn flip_tile_moves_pixels_and_undoes_itself() {
    let mut p = [0u8; 64];
    p[1] = 5;
    p[8 * 2] = 7;
    let t = Tile::new(p);
    let h = flip_tile(&t, true, false);
    assert_eq!(h.get(6), 5);
    assert_eq!(h.get(8 * 2 + 7), 7);
    let v = flip_tile(&t, false, true);
    assert_eq!(v.get(8 * 7 + 1), 5);
    assert_eq!(v.get(8 * 5), 7);
    let hv = flip_tile(&t, true, true);
    assert_eq!(hv.get(8 * 7 + 6), 5);
    for (hf, vf) in [(false, false), (true, false), (false, true), (true, true)] {
        assert_eq!(flip_tile(&flip_tile(&t, hf, vf), hf, vf), t);
    }
}

#[test]
fn blank_and_same_pixels() {
    assert!(Tile::default().is_blank());
    let mut p = [0u8; 64];
    p[63] = 1;
    let t = Tile::new(p);
    assert!(!t.is_blank());
    assert!(t.same_pixels(&Tile::new(p)));
    assert!(!t.same_pixels(&Tile::default()));
}

#[test]
fn bytes_tile_round_trip_law() {
    let bytes: [u8; 32] = core::array::from_fn(|i| (i * 37 + 11) as u8);
    let tile = Tile::from(bytes);
    let again: [u8; 32] = (&tile).into();
    assert_eq!(again, bytes);
}

#[test]
fn tile_order_visits_each_pixel_once() {
    // a band of 8 rows, 256 pixels wide; pixel (x, y) holds x / 8 + 32 * (y % 2)
    let mut image = vec![0u8; 256 * 8];
    for y in 0..8 {
        for x in 0..256 {
            image[y * 256 + x] = (x / 8 + 32 * (y % 2)) as u8;
        }
    }
    let tiled = image.tiled();
    assert_eq!(tiled.len(), 2048);
    for tile in 0..32 {
        for p in 0..64 {
            let y = p / 8;
            assert_eq!(tiled[tile * 64 + p] as usize, tile + 32 * (y % 2));
        }
    }
    let chunks = tiled.tile_chunked();
    assert_eq!(chunks.len(), 32);
    assert_eq!(chunks[3][8], 35);
}
