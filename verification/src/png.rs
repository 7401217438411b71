//! PNG files of a palette, a tile and a screen.
use vstd::prelude::*;
use crate::domain::screen::ScreenData;
use crate::map::TileMap;
use crate::palette::Palette;
use crate::render::image::views;
use crate::render::png::{encode_indexed_png, indexed_png, packed_pairs, png_palette};
use crate::render::render::{screen_pixel, screen_tiles_present};
use crate::render::{ImageData, entry_or_zero, enlarged, render_palette, render_screen, render_tile};
use crate::tile::Tile;

verus! {

/// The PNG file of an image: 4 bits per pixel, its palette, its trns table, its entries two
/// per byte.
pub open spec fn image_png<I: ImageData>(img: I) -> Seq<u8> {
    indexed_png(
        img.dims().0 as u32,
        img.dims().1 as u32,
        png_palette(views(img.palette_view())),
        img.trns_view(),
        packed_pairs(img.data_view()),
    )
}

/// The PNG file of an image whose entries fill whole rows of packed bytes.
fn image_data_to_png<I: ImageData>(image_data: I) -> (png: Vec<u8>)
    requires
        image_data.dims().0 as u32 > 0,
        image_data.dims().1 as u32 > 0,
        ((image_data.dims().0 as u32 + 1) / 2) * (image_data.dims().1 as u32) == image_data.data_view().len() / 2,
    ensures
        png@ == image_png(image_data),
{
    let colors = image_data.palette();
    let ghost cv = views(colors@);
    let mut palette: Vec<u8> = Vec::new();
    let mut i: usize = 0;
    while i < colors.len()
        invariant
            cv == views(colors@),
            i <= colors@.len(),
            palette@ == png_palette(cv.take(i as int)),
        decreases colors@.len() - i,
    {
        let rgb = colors[i].as_png_rgb();
        palette.push(rgb[0]);
        palette.push(rgb[1]);
        palette.push(rgb[2]);
        assert(palette@ =~= png_palette(cv.take(i + 1)));
        i += 1;
    }
    assert(cv.take(i as int) =~= cv);
    let data = image_data.data();
    let len = data.len();
    let n = len / 2;
    let mut packed: Vec<u8> = Vec::new();
    let mut k: usize = 0;
    while k < n
        invariant
            len == data@.len(),
            n == data@.len() / 2,
            k <= n,
            packed@ == packed_pairs(data@).take(k as int),
        decreases n - k,
    {
        assert(2 * k + 1 < data@.len()) by (nonlinear_arith)
            requires
                k < n,
                n == data@.len() / 2,
        ;
        let b = (data[2 * k] << 4u8) | data[2 * k + 1];
        packed.push(b);
        assert(packed@ =~= packed_pairs(data@).take(k + 1));
        k += 1;
    }
    assert(packed_pairs(data@).take(n as int) =~= packed_pairs(data@));
    let dims = image_data.dimensions();
    let width = #[verifier::truncate] (dims.0 as u32);
    let height = #[verifier::truncate] (dims.1 as u32);
    encode_indexed_png(width, height, palette, image_data.trns(), packed.as_slice())
}

/// The PNG file of a palette as `render_palette` draws it.
pub fn palette_to_png(palette: &Palette) -> (png: Vec<u8>)
    ensures
        png@ == indexed_png(
            128,
            128,
            png_palette(views(palette.colors())),
            Seq::new(16384, |i: int| 255u8),
            packed_pairs(Seq::new(16384, |i: int| entry_or_zero(enlarged(8, i, 128, 128), palette.colors().len() as int))),
        ),
{
    image_data_to_png(render_palette(palette))
}

/// The PNG file of a tile as `render_tile` draws it.
pub fn tile_to_png(palette: &Palette, tile: &Tile) -> (png: Vec<u8>)
    ensures
        png@ == indexed_png(
            64,
            64,
            png_palette(views(palette.colors())),
            Seq::new(4096, |i: int| 255u8),
            packed_pairs(Seq::new(4096, |i: int| entry_or_zero(tile@[enlarged(8, i, 64, 64)] as int, palette.colors().len() as int))),
        ),
{
    image_data_to_png(render_tile(palette, tile))
}

/// The PNG file of a screen as `render_screen` draws it.
pub fn screen_to_png(palette: &Palette, tile_map: &TileMap, screen: &ScreenData) -> (png: Vec<u8>)
    requires
        screen_tiles_present(tile_map.tiles(), screen.characters()),
    ensures
        png@ == indexed_png(
            240,
            160,
            png_palette(views(palette.colors())),
            Seq::new(38400, |i: int| if screen_pixel(tile_map.tiles(), screen.characters(), i) != 0 { 255u8 } else { 0u8 }),
            packed_pairs(Seq::new(38400, |i: int| screen_pixel(tile_map.tiles(), screen.characters(), i))),
        ),
{
    image_data_to_png(render_screen(palette, tile_map, screen))
}

} // verus!
