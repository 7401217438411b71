//! Pictures of a project's data: palettes, tiles, screens and the editing cursor, as images of
//! palette entries, and their PNG files.
use vstd::prelude::*;
use crate::character::Character;
use crate::color::{Color, copy_colors};
use crate::domain::screen::ScreenData;
use crate::map::TileMap;
use crate::palette::Palette;
use crate::render::render::{screen_pixel, screen_tiles_present};
use crate::tile::Tile;

pub mod image;
pub mod layer;
pub mod png;
pub mod render;

verus! {

/// An image of palette entries, row by row, with its palette and one transparency byte per
/// entry of its trns table.
pub trait ImageData {
    spec fn palette_view(&self) -> Seq<Color>;

    spec fn data_view(&self) -> Seq<u8>;

    spec fn trns_view(&self) -> Seq<u8>;

    spec fn dims(&self) -> (usize, usize);

    fn palette(&self) -> (p: &Vec<Color>)
        ensures
            p@ == self.palette_view(),
    ;

    fn data(&self) -> (d: &Vec<u8>)
        ensures
            d@ == self.data_view(),
    ;

    fn trns(&self) -> (t: Vec<u8>)
        ensures
            t@ == self.trns_view(),
    ;

    fn dimensions(&self) -> (d: &(usize, usize))
        ensures
            *d == self.dims(),
    ;
}

/// An opaque image of `N` pixels: its trns table is `N` bytes of 255.
pub struct OpaqueImageData<const N: usize> {
    pub palette: Vec<Color>,
    pub data: Vec<u8>,
    pub dimensions: (usize, usize),
}

impl<const N: usize> ImageData for OpaqueImageData<N> {
    open spec fn palette_view(&self) -> Seq<Color> {
        self.palette@
    }

    open spec fn data_view(&self) -> Seq<u8> {
        self.data@
    }

    open spec fn trns_view(&self) -> Seq<u8> {
        Seq::new(N as nat, |i: int| 255u8)
    }

    open spec fn dims(&self) -> (usize, usize) {
        self.dimensions
    }

    fn palette(&self) -> (p: &Vec<Color>) {
        &self.palette
    }

    fn data(&self) -> (d: &Vec<u8>) {
        &self.data
    }

    fn trns(&self) -> (t: Vec<u8>) {
        let mut t: Vec<u8> = Vec::new();
        let mut i: usize = 0;
        while i < N
            invariant
                i <= N,
                t@ == Seq::new(i as nat, |k: int| 255u8),
            decreases N - i,
        {
            t.push(255);
            assert(t@ =~= Seq::new((i + 1) as nat, |k: int| 255u8));
            i += 1;
        }
        t
    }

    fn dimensions(&self) -> (d: &(usize, usize)) {
        &self.dimensions
    }
}

/// An image with a trns table of its own.
pub struct TransparencyImageData<const N: usize> {
    pub opaque: OpaqueImageData<N>,
    pub trns: Vec<u8>,
}

impl<const N: usize> ImageData for TransparencyImageData<N> {
    open spec fn palette_view(&self) -> Seq<Color> {
        self.opaque.palette@
    }

    open spec fn data_view(&self) -> Seq<u8> {
        self.opaque.data@
    }

    open spec fn trns_view(&self) -> Seq<u8> {
        self.trns@
    }

    open spec fn dims(&self) -> (usize, usize) {
        self.opaque.dimensions
    }

    fn palette(&self) -> (p: &Vec<Color>) {
        &self.opaque.palette
    }

    fn data(&self) -> (d: &Vec<u8>) {
        &self.opaque.data
    }

    fn trns(&self) -> (t: Vec<u8>) {
        let mut t: Vec<u8> = Vec::new();
        let mut i: usize = 0;
        while i < self.trns.len()
            invariant
                i <= self.trns@.len(),
                t@ == self.trns@.take(i as int),
            decreases self.trns@.len() - i,
        {
            t.push(self.trns[i]);
            assert(t@ =~= self.trns@.take(i + 1));
            i += 1;
        }
        assert(t@ =~= self.trns@);
        t
    }

    fn dimensions(&self) -> (d: &(usize, usize)) {
        &self.opaque.dimensions
    }
}

/// The pixel of a picture `width` by `height`, enlarged `factor` times, that pixel
/// `pixel_index` shows.
pub open spec fn enlarged(factor: int, pixel_index: int, width: int, height: int) -> int {
    (pixel_index / (height * factor)) * factor + (pixel_index % width) / factor
}

/// Entry `p` if the palette has it, else entry 0.
pub open spec fn entry_or_zero(p: int, len: int) -> u8 {
    if p < len {
        p as u8
    } else {
        0u8
    }
}

/// A palette as a 128 by 128 image: pixel `i` shows entry `enlarged(8, i, 128, 128)` when the
/// palette has it, else entry 0.
pub fn render_palette(palette: &Palette) -> (img: OpaqueImageData<16384>)
    ensures
        img.palette@ == palette.colors(),
        img.dimensions == (128usize, 128usize),
        img.data@ == Seq::new(16384, |i: int| entry_or_zero(enlarged(8, i, 128, 128), palette.colors().len() as int)),
{
    let len = palette.len();
    let mut data: Vec<u8> = Vec::new();
    let mut i: usize = 0;
    while i < 16384
        invariant
            len == palette.colors().len(),
            i <= 16384,
            data@ == Seq::new(i as nat, |k: int| entry_or_zero(enlarged(8, k, 128, 128), len as int)),
        decreases 16384 - i,
    {
        let p = crate::render::render::scaled_palette_index(8, i, &(128, 128));
        let v = if p < len { p as u8 } else { 0u8 };
        data.push(v);
        assert(data@ =~= Seq::new((i + 1) as nat, |k: int| entry_or_zero(enlarged(8, k, 128, 128), len as int)));
        i += 1;
    }
    OpaqueImageData { palette: copy_colors(palette.as_slice()), data, dimensions: (128, 128) }
}

/// A tile enlarged 8 times, as a 64 by 64 image: pixel `i` shows tile pixel
/// `enlarged(8, i, 64, 64)` when the palette has that entry, else entry 0.
pub fn render_tile(palette: &Palette, tile: &Tile) -> (img: OpaqueImageData<4096>)
    ensures
        img.palette@ == palette.colors(),
        img.dimensions == (64usize, 64usize),
        img.data@ == Seq::new(4096, |i: int| entry_or_zero(tile@[enlarged(8, i, 64, 64)] as int, palette.colors().len() as int)),
{
    let len = palette.len();
    let mut data: Vec<u8> = Vec::new();
    let mut i: usize = 0;
    while i < 4096
        invariant
            len == palette.colors().len(),
            tile@.len() == 64,
            i <= 4096,
            data@ == Seq::new(i as nat, |k: int| entry_or_zero(tile@[enlarged(8, k, 64, 64)] as int, len as int)),
        decreases 4096 - i,
    {
        let t = crate::render::render::scaled_palette_index(8, i, &(64, 64));
        assert(t < 64) by (nonlinear_arith)
            requires
                i < 4096,
                t == (i as int / 512) * 8 + (i as int % 64) / 8,
        ;
        let p = tile.get(t) as usize;
        let v = if p < len { p as u8 } else { 0u8 };
        data.push(v);
        assert(data@ =~= Seq::new((i + 1) as nat, |k: int| entry_or_zero(tile@[enlarged(8, k, 64, 64)] as int, len as int)));
        i += 1;
    }
    OpaqueImageData { palette: copy_colors(palette.as_slice()), data, dimensions: (64, 64) }
}

/// Every tile of a tile map, each as `render_tile` draws it.
pub fn render_tiles(palette: &Palette, tile_map: &TileMap) -> (imgs: Vec<OpaqueImageData<4096>>)
    ensures
        imgs@.len() == tile_map.tiles().len(),
        forall|k: int|
            0 <= k < imgs@.len() ==> {
                &&& (#[trigger] imgs@[k]).palette@ == palette.colors()
                &&& imgs@[k].dimensions == (64usize, 64usize)
                &&& imgs@[k].data@ == Seq::new(4096, |i: int| entry_or_zero(tile_map.tiles()[k][enlarged(8, i, 64, 64)] as int, palette.colors().len() as int))
            },
{
    let mut imgs: Vec<OpaqueImageData<4096>> = Vec::new();
    let mut k: usize = 0;
    while k < tile_map.len()
        invariant
            k <= tile_map.tiles().len(),
            imgs@.len() == k,
            forall|j: int|
                0 <= j < k ==> {
                    &&& (#[trigger] imgs@[j]).palette@ == palette.colors()
                    &&& imgs@[j].dimensions == (64usize, 64usize)
                    &&& imgs@[j].data@ == Seq::new(4096, |i: int| entry_or_zero(tile_map.tiles()[j][enlarged(8, i, 64, 64)] as int, palette.colors().len() as int))
                },
        decreases tile_map.tiles().len() - k,
    {
        let tile = tile_map.get(k).unwrap();
        imgs.push(render_tile(palette, tile));
        k += 1;
    }
    imgs
}

/// The visible 240 by 160 pixels of a screen, each entry of its 30 by 20 part showing its tile
/// flipped as the entry says; a pixel is transparent exactly where it shows entry 0.
pub fn render_screen(palette: &Palette, character_data: &TileMap, screen_data: &ScreenData) -> (img:
    TransparencyImageData<38400>)
    requires
        screen_tiles_present(character_data.tiles(), screen_data.characters()),
    ensures
        img.opaque.palette@ == palette.colors(),
        img.opaque.dimensions == (240usize, 160usize),
        img.opaque.data@ == Seq::new(38400, |i: int| screen_pixel(character_data.tiles(), screen_data.characters(), i)),
        img.trns@ == Seq::new(38400, |i: int| if screen_pixel(character_data.tiles(), screen_data.characters(), i) != 0 { 255u8 } else { 0u8 }),
{
    let shown = crate::render::render::screen_pixels(character_data, screen_data);
    let mut trns: Vec<u8> = Vec::new();
    let mut i: usize = 0;
    while i < 38400
        invariant
            shown@.len() == 38400,
            i <= 38400,
            trns@ == Seq::new(i as nat, |k: int| if shown@[k] != 0 { 255u8 } else { 0u8 }),
        decreases 38400 - i,
    {
        let t = if shown[i] != 0 { 255u8 } else { 0u8 };
        trns.push(t);
        assert(trns@ =~= Seq::new((i + 1) as nat, |k: int| if shown@[k] != 0 { 255u8 } else { 0u8 }));
        i += 1;
    }
    TransparencyImageData {
        opaque: OpaqueImageData { palette: copy_colors(palette.as_slice()), data: shown, dimensions: (240, 160) },
        trns,
    }
}

} // verus!
