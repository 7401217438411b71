//! Rendering of tiles, screens, backgrounds and the editing cursor as images of palette
//! entries.
use vstd::prelude::*;
use crate::character::Character;
use crate::color::{Color, copy_colors};
use crate::domain::palette::Palette;
use crate::domain::screen::ScreenData;
use crate::map::TileMap;
use crate::render::image::ImageData;
use crate::tile::{Tile, flipped_index};

verus! {

/// The side of the square that the cursor frames, in pixels.
pub const DIM_CURSOR: usize = 8;

/// The colors the cursor is drawn with: entry 0 (black) around it, entry 1 (cyan) for the
/// frame.
pub fn cursor_palette() -> (p: Vec<Color>)
    ensures
        p@.len() == 2,
        p@[0]@ == (0u8, 0u8, 0u8),
        p@[1]@ == (0u8, 31u8, 31u8),
{
    let mut p: Vec<Color> = Vec::new();
    p.push(Color::black());
    p.push(Color::new(0, 31, 31).unwrap());
    p
}

/// The entries `map(0)`, `map(1)`, ... for every pixel of an image of `dimensions`.
pub fn from_dimensions(dimensions: &(usize, usize), map: impl Fn(usize) -> u8) -> (data: Vec<u8>)
    requires
        dimensions.0 * dimensions.1 <= usize::MAX,
        forall|i: usize| i < dimensions.0 * dimensions.1 ==> call_requires(map, (i,)),
    ensures
        data@.len() == dimensions.0 * dimensions.1,
        forall|i: int| 0 <= i < data@.len() ==> call_ensures(map, (i as usize,), #[trigger] data@[i]),
{
    let n = dimensions.0 * dimensions.1;
    let mut data: Vec<u8> = Vec::new();
    let mut i: usize = 0;
    while i < n
        invariant
            n == dimensions.0 * dimensions.1,
            forall|j: usize| j < n ==> call_requires(map, (j,)),
            i <= n,
            data@.len() == i,
            forall|j: int| 0 <= j < i ==> call_ensures(map, (j as usize,), #[trigger] data@[j]),
        decreases n - i,
    {
        let v = map(i);
        data.push(v);
        i += 1;
    }
    data
}

/// The pixel of a picture of `dimensions`, enlarged `factor` times, that pixel `pixel_index`
/// shows: `(pixel_index / (height * factor)) * factor + (pixel_index % width) / factor`.
pub fn scaled_palette_index(factor: usize, pixel_index: usize, dimensions: &(usize, usize)) -> (idx: usize)
    requires
        factor > 0,
        dimensions.0 > 0,
        0 < dimensions.1 * factor <= usize::MAX,
        (pixel_index as int / (dimensions.1 * factor)) * factor + (pixel_index as int % dimensions.0 as int) / factor as int <= usize::MAX,
    ensures
        idx == (pixel_index as int / (dimensions.1 * factor)) * factor + (pixel_index as int % dimensions.0 as int) / factor as int,
{
    let (width, height) = *dimensions;
    let row = pixel_index / (height * factor);
    let column = (pixel_index % width) / factor;
    row * factor + column
}

/// A tile as an 8 by 8 image.
pub fn render_tile(palette: &Palette, tile: &Tile) -> (img: ImageData)
    ensures
        img.palette@ == palette.color_list(),
        img.data@ == tile@,
        img.dimensions == (8usize, 8usize),
        !img.transparent,
{
    let mut data: Vec<u8> = Vec::new();
    let mut i: usize = 0;
    while i < 64
        invariant
            i <= 64,
            tile@.len() == 64,
            data@ == tile@.take(i as int),
        decreases 64 - i,
    {
        data.push(tile.get(i));
        assert(data@ =~= tile@.take(i + 1));
        i += 1;
    }
    assert(tile@.take(64) =~= tile@);
    ImageData { palette: copy_colors(palette.as_slice()), data, dimensions: (8, 8), transparent: false }
}

/// Every tile of a tile map as an 8 by 8 image.
pub fn render_tiles(palette: &Palette, tile_map: &TileMap) -> (imgs: Vec<ImageData>)
    ensures
        imgs@.len() == tile_map.tiles().len(),
        forall|k: int|
            0 <= k < imgs@.len() ==> {
                &&& (#[trigger] imgs@[k]).data@ == tile_map.tiles()[k]
                &&& imgs@[k].palette@ == palette.color_list()
                &&& imgs@[k].dimensions == (8usize, 8usize)
                &&& !imgs@[k].transparent
            },
{
    let mut imgs: Vec<ImageData> = Vec::new();
    let mut k: usize = 0;
    while k < tile_map.len()
        invariant
            k <= tile_map.tiles().len(),
            imgs@.len() == k,
            forall|j: int|
                0 <= j < k ==> {
                    &&& (#[trigger] imgs@[j]).data@ == tile_map.tiles()[j]
                    &&& imgs@[j].palette@ == palette.color_list()
                    &&& imgs@[j].dimensions == (8usize, 8usize)
                    &&& !imgs@[j].transparent
                },
        decreases tile_map.tiles().len() - k,
    {
        let tile = tile_map.get(k).unwrap();
        imgs.push(render_tile(palette, tile));
        k += 1;
    }
    imgs
}

/// The entry of the screen shown at pixel `i` of the 240 by 160 picture.
pub open spec fn entry_at(chars: Seq<Character>, i: int) -> Character {
    chars[32 * ((i / 240) / 8) + (i % 240) / 8]
}

/// Pixel `i` of the 240 by 160 picture of a screen: the pixel of the entry's tile, flipped as
/// the entry says, that lands there.
pub open spec fn screen_pixel(tiles: Seq<Seq<u8>>, chars: Seq<Character>, i: int) -> u8 {
    let c = entry_at(chars, i);
    tiles[c.tile_number as int][flipped_index(8 * ((i / 240) % 8) + (i % 240) % 8, c.horizontal_flip, c.vertical_flip)]
}

/// Every entry of the visible 30 by 20 part of a screen names a tile of the tile map.
pub open spec fn screen_tiles_present(tiles: Seq<Seq<u8>>, chars: Seq<Character>) -> bool {
    forall|x: int, y: int| 0 <= x < 30 && 0 <= y < 20 ==> (#[trigger] chars[32 * y + x]).tile_number < tiles.len()
}

/// The entries of the visible 240 by 160 pixels of a screen, as `screen_pixel` gives them.
pub fn screen_pixels(character_data: &TileMap, screen_data: &ScreenData) -> (data: Vec<u8>)
    requires
        screen_tiles_present(character_data.tiles(), screen_data.characters()),
    ensures
        data@ == Seq::new(38400, |i: int| screen_pixel(character_data.tiles(), screen_data.characters(), i)),
{
    let ghost tiles = character_data.tiles();
    let ghost chars = screen_data.characters();
    let mut data: Vec<u8> = Vec::new();
    let mut i: usize = 0;
    while i < 38400
        invariant
            tiles == character_data.tiles(),
            chars == screen_data.characters(),
            screen_tiles_present(tiles, chars),
            i <= 38400,
            data@ == Seq::new(i as nat, |k: int| screen_pixel(tiles, chars, k)),
        decreases 38400 - i,
    {
        let px = i % 240;
        let py = i / 240;
        let x = px / 8;
        let y = py / 8;
        assert(x < 30 && y < 20);
        let character = screen_data.get_character(x, y);
        assert(*character == chars[32 * y + x]);
        assert(character.tile_number < tiles.len());
        let tile = character_data.get(character.tile_number).unwrap();
        let ty = py % 8;
        let tx = px % 8;
        let src_y = if character.vertical_flip { 7 - ty } else { ty };
        let src_x = if character.horizontal_flip { 7 - tx } else { tx };
        assert((8 * ty + tx) / 8 == ty && (8 * ty + tx) % 8 == tx);
        let v = tile.get(src_y * 8 + src_x);
        data.push(v);
        assert(data@ =~= Seq::new((i + 1) as nat, |k: int| screen_pixel(tiles, chars, k)));
        i += 1;
    }
    data
}

/// The visible 240 by 160 pixels of a screen: each entry of its 30 by 20 part shows its tile,
/// flipped as the entry says. It is drawn transparent.
pub fn render_screen(palette: &Palette, character_data: &TileMap, screen_data: &ScreenData) -> (img: ImageData)
    requires
        screen_tiles_present(character_data.tiles(), screen_data.characters()),
    ensures
        img.palette@ == palette.color_list(),
        img.data@ == Seq::new(38400, |i: int| screen_pixel(character_data.tiles(), screen_data.characters(), i)),
        img.dimensions == (240usize, 160usize),
        img.transparent,
{
    let data = screen_pixels(character_data, screen_data);
    ImageData { palette: copy_colors(palette.as_slice()), data, dimensions: (240, 160), transparent: true }
}

/// A background of entry 0 only.
pub fn render_background(palette: &Palette, dimensions: (usize, usize)) -> (img: ImageData)
    requires
        dimensions.0 * dimensions.1 <= usize::MAX,
    ensures
        img.palette@ == palette.color_list(),
        img.data@ == Seq::new((dimensions.0 * dimensions.1) as nat, |i: int| 0u8),
        img.dimensions == dimensions,
        !img.transparent,
{
    let n = dimensions.0 * dimensions.1;
    let mut data: Vec<u8> = Vec::new();
    let mut i: usize = 0;
    while i < n
        invariant
            i <= n,
            data@ == Seq::new(i as nat, |k: int| 0u8),
        decreases n - i,
    {
        data.push(0);
        assert(data@ =~= Seq::new((i + 1) as nat, |k: int| 0u8));
        i += 1;
    }
    ImageData { palette: copy_colors(palette.as_slice()), data, dimensions, transparent: false }
}

/// Pixel `i` of an image `width` wide lies on the frame of the cursor square whose top left
/// pixel is at row `row`, column `col`.
pub open spec fn on_cursor(width: int, row: int, col: int, i: int) -> bool {
    exists|a: int, b: int|
        0 <= a < 8 && 0 <= b < 8 && (a == 0 || b == 0 || a == 7 || b == 7) && #[trigger] ((row + a) * width
            + col + b) == i
}

/// The cursor over a grid of `dimensions` cells of 8 by 8 pixels: the frame of cell
/// (`cursor_x`, `cursor_y`) in entry 1, everything else entry 0, drawn transparent.
pub fn render_cursor(dimensions: (usize, usize), cursor_x: usize, cursor_y: usize) -> (img: ImageData)
    requires
        dimensions.0 * 8 * (dimensions.1 * 8) <= usize::MAX,
        (cursor_y * 8 + 7) * (dimensions.0 * 8) + cursor_x * 8 + 7 < dimensions.0 * 8 * (dimensions.1 * 8),
    ensures
        img.palette@.len() == 2,
        img.palette@[0]@ == (0u8, 0u8, 0u8),
        img.palette@[1]@ == (0u8, 31u8, 31u8),
        img.dimensions.0 == dimensions.0 * 8 && img.dimensions.1 == dimensions.1 * 8,
        img.data@.len() == dimensions.0 * 8 * (dimensions.1 * 8),
        forall|i: int|
            0 <= i < img.data@.len() ==> #[trigger] img.data@[i] == (if on_cursor(
                (dimensions.0 * 8) as int,
                cursor_y * 8,
                cursor_x * 8,
                i,
            ) {
                1u8
            } else {
                0u8
            }),
        img.transparent,
{
    let (w, h) = dimensions;
    assert(w * 8 <= w * 8 * (h * 8) && h * 8 <= w * 8 * (h * 8) && cursor_y * 8 + 7 < w * 8 * (h * 8)
        && cursor_x * 8 + 7 < w * 8 * (h * 8)) by (nonlinear_arith)
        requires
            w * 8 * (h * 8) <= usize::MAX,
            (cursor_y * 8 + 7) * (w * 8) + cursor_x * 8 + 7 < w * 8 * (h * 8),
    ;
    let width = w * DIM_CURSOR;
    let height = h * DIM_CURSOR;
    let n = width * height;
    let row = cursor_y * DIM_CURSOR;
    let col = cursor_x * DIM_CURSOR;
    let mut data: Vec<u8> = Vec::new();
    let mut i: usize = 0;
    while i < n
        invariant
            i <= n,
            data@ == Seq::new(i as nat, |k: int| 0u8),
        decreases n - i,
    {
        data.push(0);
        assert(data@ =~= Seq::new((i + 1) as nat, |k: int| 0u8));
        i += 1;
    }
    assert((row + 7) * width + col + 7 < n);
    assert(row + 7 < n) by (nonlinear_arith)
        requires
            (row + 7) * width + col + 7 < n,
            n == width * height,
    ;
    let mut idy: usize = 0;
    while idy < DIM_CURSOR
        invariant
            n == width * height,
            (row + 7) * width + col + 7 < n,
            row + 7 < n,
            idy <= 8,
            data@.len() == n,
            forall|i: int|
                0 <= i < n ==> #[trigger] data@[i] == (if exists|a: int, b: int|
                    0 <= a < idy && 0 <= b < 8 && (a == 0 || b == 0 || a == 7 || b == 7) && #[trigger] ((row
                        + a) * width + col + b) == i {
                    1u8
                } else {
                    0u8
                }),
        decreases 8 - idy,
    {
        let mut idx: usize = 0;
        while idx < DIM_CURSOR
            invariant
                n == width * height,
                (row + 7) * width + col + 7 < n,
                row + 7 < n,
                idy < 8,
                idx <= 8,
                data@.len() == n,
                forall|i: int|
                    0 <= i < n ==> #[trigger] data@[i] == (if (exists|a: int, b: int|
                        0 <= a < idy && 0 <= b < 8 && (a == 0 || b == 0 || a == 7 || b == 7) && #[trigger] ((
                        row + a) * width + col + b) == i) || (exists|b: int|
                        0 <= b < idx && (idy == 0 || b == 0 || idy == 7 || b == 7) && #[trigger] ((row + idy)
                            * width + col + b) == i) {
                        1u8
                    } else {
                        0u8
                    }),
            decreases 8 - idx,
        {
            let is_border = idy == 0 || idx == 0 || idx == DIM_CURSOR - 1 || idy == DIM_CURSOR - 1;
            assert((row + idy) * width <= (row + 7) * width) by (nonlinear_arith)
                requires
                    idy <= 7,
            ;
            if is_border {
                let r = row + idy;
                let p = r * width + col + idx;
                data.set(p, 1);
            }
            idx += 1;
        }
        idy += 1;
    }
    ImageData { palette: cursor_palette(), data, dimensions: (width, height), transparent: true }
}

} // verus!
