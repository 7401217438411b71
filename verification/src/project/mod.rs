//! Turning a project's images and boops files into the data the GBA reads.
use vstd::prelude::*;
use crate::character::Character;
use crate::character_data::{CharacterData, tile_blank};
use crate::trim::trim_trailing;
use crate::color::Color;
use crate::error::{Error, ErrorV};
use crate::palette::Palette;
use crate::savable::Savable;
use crate::text::{chars_of, ends_with, ends_with_chars, replace_all, replace_chars, string_of};
use crate::tile::{Tile, flipped};
use crate::tile_iter::{TiledIterExt, chunk_of, tiled_len, tiled_seq};
use crate::project::boop::{BoopNode, boop_node_result, boop_verify};
use crate::project::digest::{Digests, DigestsV, empty_digests};
use crate::project::palette::{
    PaletteNode, characters_digest, lemma_palette_tiles_fit, palette_digest, palette_result, palette_tiles_fit,
    palette_verify,
};
use crate::project::character::{CharacterNode, character_result, screens_digest};
use crate::project::screen::ScreenNode;

pub mod csv;
pub mod digest;
pub mod screen;
pub mod character;
pub mod palette;
pub mod boop;

verus! {

broadcast use crate::color::lemma_color_of, crate::color::Color::lemma_view_eq;

/// What the `image` crate makes of an image file's bytes: the width, height and 8-bit RGB
/// pixels (3 bytes each, row by row) it decodes, or the text of the error it reports.
pub uninterp spec fn decoded_rgb8(bytes: Seq<u8>) -> Result<(u32, u32, Seq<u8>), Seq<char>>;

/// Decodes an image file's bytes with the `image` crate's `load_from_memory`, which guesses the
/// format from the bytes, and converts the image to 8-bit RGB with `to_rgb8`; on failure it
/// gives the `Debug` text of the crate's error. The outcome depends on the bytes alone, and is
/// given by the name `decoded_rgb8`.
#[verifier::external_body]
fn decode_rgb8(bytes: &[u8]) -> (r: Result<(u32, u32, Vec<u8>), String>)
    ensures
        match decoded_rgb8(bytes@) {
            Ok((w, h, d)) => r matches Ok(x) && x.0 == w && x.1 == h && x.2@ == d,
            Err(m) => r matches Err(t) && t@ == m,
        },
{
    match ::image::load_from_memory(bytes) {
        Ok(decoded) => {
            let rgb = decoded.to_rgb8();
            Ok((rgb.width(), rgb.height(), rgb.into_raw()))
        },
        Err(e) => Err(format!("{:?}", e)),
    }
}

/// A decoded image: `width` by `height` pixels, 3 bytes (red, green, blue) per pixel, row by
/// row.
pub struct RgbImage {
    width: u32,
    height: u32,
    data: Vec<u8>,
}

impl RgbImage {
    /// Every image holds 3 bytes per pixel.
    #[verifier::type_invariant]
    pub open spec fn sized(&self) -> bool {
        self.bytes().len() == 3 * self.width_view() * self.height_view()
    }

    pub closed spec fn width_view(&self) -> nat {
        self.width as nat
    }

    pub closed spec fn height_view(&self) -> nat {
        self.height as nat
    }

    pub closed spec fn bytes(&self) -> Seq<u8> {
        self.data@
    }

    /// The image of `width` by `height` pixels with bytes `data`, when `data` holds exactly 3
    /// bytes per pixel.
    pub fn new(width: u32, height: u32, data: Vec<u8>) -> (r: Option<RgbImage>)
        ensures
            (data@.len() == 3 * width * height) <==> r is Some,
            r matches Some(img) ==> img.width_view() == width && img.height_view() == height
                && img.bytes() == data@,
    {
        let w = width as u128;
        let h = height as u128;
        assert(w * h <= 0xffff_ffff * 0xffff_ffff) by (nonlinear_arith)
            requires
                w <= 0xffff_ffff,
                h <= 0xffff_ffff,
        ;
        let expected = 3 * (w * h);
        assert(3 * width * height == expected) by (nonlinear_arith)
            requires
                w == width,
                h == height,
                expected == 3 * (w * h),
        ;
        if (data.len() as u128) == expected {
            Some(RgbImage { width, height, data })
        } else {
            None
        }
    }

    /// Decodes an image file's bytes with the `image` crate into 8-bit RGB pixels. Fails with
    /// the decoder's message when the bytes are not an image it reads, and when the decoded
    /// pixels do not hold 3 bytes each.
    pub fn decode(bytes: &[u8]) -> (r: Result<RgbImage, Error>)
        ensures
            match decoded_rgb8(bytes@) {
                Ok((w, h, d)) => if d.len() == 3 * w * h {
                    r matches Ok(img) && img.width_view() == w && img.height_view() == h
                        && img.bytes() == d
                } else {
                    r matches Err(e) && e@ == ErrorV::ImageSize { width: w, height: h, len: d.len() }
                },
                Err(m) => r matches Err(e) && e@ == ErrorV::ImageDecode(m),
            },
    {
        match decode_rgb8(bytes) {
            Ok((w, h, d)) => {
                let len = d.len();
                match RgbImage::new(w, h, d) {
                    Some(img) => Ok(img),
                    None => Err(Error::ImageSize { width: w, height: h, len }),
                }
            },
            Err(m) => Err(Error::ImageDecode(m)),
        }
    }

    pub fn width(&self) -> (w: u32)
        ensures
            w == self.width_view(),
    {
        self.width
    }

    pub fn height(&self) -> (h: u32)
        ensures
            h == self.height_view(),
    {
        self.height
    }

    /// The bytes, 3 per pixel.
    pub fn data(&self) -> (d: &Vec<u8>)
        ensures
            d@ == self.bytes(),
    {
        &self.data
    }
}

/// The color of pixel `k` at 5 bits per channel.
pub open spec fn pixel_color(data: Seq<u8>, k: int) -> (u8, u8, u8) {
    ((data[3 * k] / 8) as u8, (data[3 * k + 1] / 8) as u8, (data[3 * k + 2] / 8) as u8)
}

/// The channels of each color of a list.
pub open spec fn color_views(cs: Seq<Color>) -> Seq<(u8, u8, u8)> {
    cs.map_values(|c: Color| c@)
}

/// The first of the first `n` colors equal to `c`.
pub open spec fn find_color(colors: Seq<(u8, u8, u8)>, c: (u8, u8, u8), n: int) -> Option<int>
    decreases n,
{
    if n <= 0 {
        None
    } else {
        match find_color(colors, c, n - 1) {
            Some(j) => Some(j),
            None => if colors[n - 1] == c {
                Some(n - 1)
            } else {
                None
            },
        }
    }
}

/// The palette entry of each of the first `n` pixels, or the first pixel color missing from
/// the palette.
pub open spec fn palette_indexes(data: Seq<u8>, colors: Seq<(u8, u8, u8)>, n: int) -> Result<
    Seq<u8>,
    (u8, u8, u8),
>
    decreases n,
{
    if n <= 0 {
        Ok(Seq::empty())
    } else {
        match palette_indexes(data, colors, n - 1) {
            Err(c) => Err(c),
            Ok(s) => match find_color(colors, pixel_color(data, n - 1), colors.len() as int) {
                Some(j) => Ok(s.push(j as u8)),
                None => Err(pixel_color(data, n - 1)),
            },
        }
    }
}

/// The palette entries of all pixels of an image, or the first missing color.
pub open spec fn image_palette_indexes(data: Seq<u8>, colors: Seq<(u8, u8, u8)>) -> Result<
    Seq<u8>,
    (u8, u8, u8),
> {
    palette_indexes(data, colors, (data.len() / 3) as int)
}

/// The first index at which `c` occurs in the palette, as a byte.
fn position_in_palette(palette: &Palette, c: &Color) -> (r: Option<u8>)
    ensures
        r == (match find_color(
            color_views(palette.colors()),
            c@,
            palette.colors().len() as int,
        ) {
            Some(j) => Some(j as u8),
            None => None::<u8>,
        }),
{
    let colors = palette.as_slice();
    let ghost cv = color_views(palette.colors());
    let mut j: usize = 0;
    while j < colors.len()
        invariant
            colors@ == palette.colors(),
            cv == color_views(palette.colors()),
            j <= colors@.len(),
            find_color(cv, c@, j as int) is None,
        decreases colors@.len() - j,
    {
        if colors[j] == *c {
            assert(find_color(cv, c@, j + 1) == Some(j as int));
            proof {
                lemma_find_color_stays(cv, c@, j + 1, colors@.len() as int);
            }
            return Some(#[verifier::truncate] (j as u8));
        }
        j += 1;
    }
    None
}

/// Once found among the first `n` colors, a color is found at the same place among more.
proof fn lemma_find_color_stays(colors: Seq<(u8, u8, u8)>, c: (u8, u8, u8), n: int, m: int)
    requires
        n <= m,
        find_color(colors, c, n) is Some,
    ensures
        find_color(colors, c, m) == find_color(colors, c, n),
    decreases m - n,
{
    if n < m {
        lemma_find_color_stays(colors, c, n, m - 1);
    }
}

/// The palette entry of every pixel of `rgbs` (3 bytes per pixel), each channel reduced to 5
/// bits; fails on the first pixel whose color is not in the palette.
pub fn colors_to_palette_index(rgbs: &Vec<u8>, palette: &Palette) -> (res: Result<Vec<u8>, Error>)
    ensures
        match image_palette_indexes(rgbs@, color_views(palette.colors())) {
            Ok(s) => res matches Ok(v) && v@ == s,
            Err(c) => res matches Err(e) && e@ == ErrorV::ColorNotFound(c),
        },
{
    let ghost cv = color_views(palette.colors());
    let len = rgbs.len();
    let n = len / 3;
    let mut out: Vec<u8> = Vec::new();
    let mut k: usize = 0;
    while k < n
        invariant
            len == rgbs@.len(),
            n == rgbs@.len() / 3,
            cv == color_views(palette.colors()),
            k <= n,
            palette_indexes(rgbs@, cv, k as int) == Ok::<Seq<u8>, (u8, u8, u8)>(out@),
        decreases n - k,
    {
        assert(3 * k + 2 < rgbs@.len()) by (nonlinear_arith)
            requires
                k < n,
                n == rgbs@.len() / 3,
        ;
        let base = 3 * k;
        let c = Color::new(rgbs[base] / 8, rgbs[base + 1] / 8, rgbs[base + 2] / 8).unwrap();
        assert(c@ == pixel_color(rgbs@, k as int));
        match position_in_palette(palette, &c) {
            Some(idx) => {
                out.push(idx);
            },
            None => {
                proof {
                    assert(palette_indexes(rgbs@, cv, k + 1) == Err::<Seq<u8>, (u8, u8, u8)>(c@));
                    lemma_palette_indexes_err_stays(rgbs@, cv, k + 1, n as int);
                }
                return Err(Error::ColorNotFound(c));
            },
        }
        k += 1;
    }
    Ok(out)
}

/// Once a missing color is met, it stays the outcome for more pixels.
proof fn lemma_palette_indexes_err_stays(
    data: Seq<u8>,
    colors: Seq<(u8, u8, u8)>,
    n: int,
    m: int,
)
    requires
        0 <= n <= m,
        palette_indexes(data, colors, n) is Err,
    ensures
        palette_indexes(data, colors, m) == palette_indexes(data, colors, n),
    decreases m - n,
{
    if n < m {
        lemma_palette_indexes_err_stays(data, colors, n, m - 1);
    }
}

/// Whenever every pixel color of an image is in the palette, its palette entries cut cleanly
/// into tiles.
pub open spec fn tiles_fit(data: Seq<u8>, colors: Seq<(u8, u8, u8)>) -> bool {
    image_palette_indexes(data, colors) is Ok ==> tiled_len((data.len() / 3) as int) % 64 == 0
}

/// The pixels of an image cut cleanly into tiles.
pub open spec fn image_tiles_fit(img: RgbImage) -> bool {
    tiled_len((img.bytes().len() / 3) as int) % 64 == 0
}

/// An image of 256 by 256 pixels cuts cleanly into tiles.
pub proof fn lemma_full_image_fits(img: RgbImage)
    requires
        img.sized(),
        img.width_view() == 256,
        img.height_view() == 256,
    ensures
        image_tiles_fit(img),
{
    assert(img.bytes().len() / 3 == 65536);
    crate::tile_iter::lemma_tiled_permutation(65536);
}

/// The palette entries of a 256 by 256 image cut into exactly 1024 tiles of 64 pixels, and the
/// character data made of them has at most 1024 tiles.
pub proof fn lemma_full_image_tiles(idx: Seq<u8>)
    requires
        idx.len() == 65536,
    ensures
        tiles_of(idx).len() == 1024,
        forall|k: int| 0 <= k < 1024 ==> (#[trigger] tiles_of(idx)[k]).len() == 64,
        trim_trailing(tiles_of(idx), tile_blank()).len() <= 1024,
{
    crate::tile_iter::lemma_tiled_permutation(65536);
    crate::trim::lemma_trim_trailing(tiles_of(idx), tile_blank());
}

proof fn lemma_find_color_found(colors: Seq<(u8, u8, u8)>, c: (u8, u8, u8), n: int)
    requires
        0 <= n <= colors.len(),
    ensures
        find_color(colors, c, n) matches Some(j) ==> 0 <= j < n && colors[j] == c,
    decreases n,
{
    if n > 0 {
        lemma_find_color_found(colors, c, n - 1);
    }
}

proof fn lemma_palette_indexes_colors_upto(data: Seq<u8>, colors: Seq<(u8, u8, u8)>, n: int)
    requires
        0 <= n,
        colors.len() <= 256,
    ensures
        palette_indexes(data, colors, n) matches Ok(idx) ==> idx.len() == n && forall|k: int|
            0 <= k < n ==> colors[#[trigger] idx[k] as int] == pixel_color(data, k),
    decreases n,
{
    if n > 0 {
        lemma_palette_indexes_colors_upto(data, colors, n - 1);
        lemma_find_color_found(colors, pixel_color(data, n - 1), colors.len() as int);
    }
}

/// The palette entries found for an image give back its colors: one entry per pixel, and the
/// palette's color at each pixel's entry is the pixel's color at 5 bits per channel.
pub proof fn lemma_palette_indexes_colors(data: Seq<u8>, colors: Seq<(u8, u8, u8)>)
    requires
        colors.len() <= 256,
    ensures
        image_palette_indexes(data, colors) matches Ok(idx) ==> idx.len() == data.len() / 3 && forall|k: int|
            0 <= k < idx.len() ==> colors[#[trigger] idx[k] as int] == pixel_color(data, k),
{
    lemma_palette_indexes_colors_upto(data, colors, (data.len() / 3) as int);
}

/// The palette entries found for the first `n` pixels are `n` entries.
pub proof fn lemma_palette_indexes_len(data: Seq<u8>, colors: Seq<(u8, u8, u8)>, n: int)
    requires
        n >= 0,
    ensures
        palette_indexes(data, colors, n) matches Ok(s) ==> s.len() == n,
    decreases n,
{
    if n > 0 {
        lemma_palette_indexes_len(data, colors, n - 1);
    }
}

/// The tiles of an image of palette entries, 256 pixels wide: its pixels in tile order, cut
/// into 64-pixel tiles.
pub open spec fn tiles_of(pal_idx: Seq<u8>) -> Seq<Seq<u8>> {
    Seq::new(
        (tiled_len(pal_idx.len() as int) / 64) as nat,
        |k: int| chunk_of(tiled_seq(pal_idx), k),
    )
}

/// Cuts an image of palette entries, 256 pixels wide, into 8x8 tiles, left to right, then
/// top to bottom.
pub fn tiles_from_pal_idx(pal_idx: Vec<u8>) -> (tiles: Vec<Tile>)
    requires
        tiled_len(pal_idx@.len() as int) % 64 == 0,
    ensures
        tiles@.map_values(|t: Tile| t@) == tiles_of(pal_idx@),
{
    let ghost s = pal_idx@;
    let ordered = pal_idx.tiled();
    proof {
        crate::tile_iter::lemma_tiled_len_bounds(s.len() as int);
    }
    let chunks = ordered.tile_chunked();
    let mut tiles: Vec<Tile> = Vec::new();
    let mut k: usize = 0;
    while k < chunks.len()
        invariant
            k <= chunks@.len(),
            chunks@.len() == tiled_len(s.len() as int) / 64,
            forall|j: int| 0 <= j < chunks@.len() ==> #[trigger] chunks@[j]@ == chunk_of(tiled_seq(s), j),
            tiles@.len() == k,
            forall|j: int| 0 <= j < k ==> #[trigger] tiles@[j]@ == chunk_of(tiled_seq(s), j),
        decreases chunks@.len() - k,
    {
        tiles.push(Tile::new(chunks[k]));
        k += 1;
    }
    assert(tiles@.map_values(|t: Tile| t@) =~= tiles_of(s));
    tiles
}

/// The tiles of an image in palette entries: the pixels reduced to 5 bits per channel and
/// looked up in the palette, then cut into 8x8 tiles; fails on the first color missing from
/// the palette.
pub fn image_tiles(image: &RgbImage, palette: &Palette) -> (res: Result<Vec<Tile>, Error>)
    requires
        tiles_fit(image.bytes(), color_views(palette.colors())),
    ensures
        match image_palette_indexes(image.bytes(), color_views(palette.colors())) {
            Ok(idx) => res matches Ok(ts) && ts@.map_values(|t: Tile| t@) == tiles_of(idx),
            Err(c) => res matches Err(e) && e@ == ErrorV::ColorNotFound(c),
        },
{
    let pal_idx = colors_to_palette_index(image.data(), palette)?;
    proof {
        lemma_palette_indexes_len(image.bytes(), color_views(palette.colors()), (image.bytes().len() / 3) as int);
    }
    Ok(tiles_from_pal_idx(pal_idx))
}

/// How `needle` must be flipped to equal `tile`, trying no flip, horizontal, vertical, then
/// both.
pub open spec fn match_flags(needle: Seq<u8>, tile: Seq<u8>) -> Option<(bool, bool)> {
    if tile == needle {
        Some((false, false))
    } else if tile == flipped(needle, true, false) {
        Some((true, false))
    } else if tile == flipped(needle, false, true) {
        Some((false, true))
    } else if tile == flipped(needle, true, true) {
        Some((true, true))
    } else {
        None
    }
}

/// The first of the first `n` tiles that `needle` matches, flipped or not.
pub open spec fn first_match(needle: Seq<u8>, tiles: Seq<Seq<u8>>, n: int) -> Option<int>
    decreases n,
{
    if n <= 0 {
        None
    } else {
        match first_match(needle, tiles, n - 1) {
            Some(k) => Some(k),
            None => if match_flags(needle, tiles[n - 1]) is Some {
                Some(n - 1)
            } else {
                None
            },
        }
    }
}

/// The screen entry that shows `needle` using the first matching tile.
pub open spec fn find_character(needle: Seq<u8>, tiles: Seq<Seq<u8>>) -> Option<Character> {
    match first_match(needle, tiles, tiles.len() as int) {
        Some(k) => Some(
            Character {
                tile_number: k as usize,
                horizontal_flip: (match_flags(needle, tiles[k])->0).0,
                vertical_flip: (match_flags(needle, tiles[k])->0).1,
                palette_number: 0,
            },
        ),
        None => None,
    }
}

proof fn lemma_first_match_stays(needle: Seq<u8>, tiles: Seq<Seq<u8>>, n: int, m: int)
    requires
        n <= m,
        first_match(needle, tiles, n) is Some,
    ensures
        first_match(needle, tiles, m) == first_match(needle, tiles, n),
    decreases m - n,
{
    if n < m {
        lemma_first_match_stays(needle, tiles, n, m - 1);
    }
}

/// The screen entry for a tile of a screen image: the first tile of the character data that
/// equals it as it is, mirrored horizontally, vertically, or both, with palette bank 0.
pub fn tiles_to_characters(needle: &Tile, haystack: &CharacterData) -> (res: Result<
    Character,
    Error,
>)
    ensures
        match find_character(needle@, haystack.tiles()) {
            Some(c) => res == Ok::<Character, Error>(c),
            None => res matches Err(e) && e@ == ErrorV::TileNotFound {
                character_data: haystack.name_view(),
                tile: needle@,
            },
        },
{
    let ghost tiles = haystack.tiles();
    let h = crate::tile::flip_tile(needle, true, false);
    let v = crate::tile::flip_tile(needle, false, true);
    let hv = crate::tile::flip_tile(needle, true, true);
    let len = haystack.len();
    let mut idx: usize = 0;
    while idx < len
        invariant
            len == tiles.len(),
            tiles == haystack.tiles(),
            h@ == flipped(needle@, true, false),
            v@ == flipped(needle@, false, true),
            hv@ == flipped(needle@, true, true),
            idx <= len,
            first_match(needle@, tiles, idx as int) is None,
        decreases len - idx,
    {
        let tile = haystack.get(idx).unwrap();
        let flags = if needle.same_pixels(tile) {
            Some((false, false))
        } else if h.same_pixels(tile) {
            Some((true, false))
        } else if v.same_pixels(tile) {
            Some((false, true))
        } else if hv.same_pixels(tile) {
            Some((true, true))
        } else {
            None
        };
        assert(flags == match_flags(needle@, tiles[idx as int]));
        if let Some((hflip, vflip)) = flags {
            proof {
                assert(first_match(needle@, tiles, idx + 1) == Some(idx as int));
                lemma_first_match_stays(needle@, tiles, idx + 1, len as int);
            }
            return Ok(Character::new(idx, hflip, vflip, 0));
        }
        idx += 1;
    }
    Err(Error::TileNotFound { character_data: string_of(&chars_of(haystack.name())), tile: needle.palette_indexes })
}

/// A file named in the project configuration must be a `.png` file; its name is the file name
/// without `.png`.
pub fn verify_is_png_get_file_name(file_name: String) -> (res: Result<String, Error>)
    ensures
        ends_with(file_name@, seq!['.', 'p', 'n', 'g']) ==> (res matches Ok(n) && n@ == replace_all(
            file_name@,
            seq!['.', 'p', 'n', 'g'],
            Seq::empty(),
        )),
        !ends_with(file_name@, seq!['.', 'p', 'n', 'g']) ==> (res matches Err(e) && e@
            == ErrorV::NotPng(file_name@)),
{
    let chars = chars_of(file_name.as_str());
    let suffix = vec!['.', 'p', 'n', 'g'];
    assert(suffix@ =~= seq!['.', 'p', 'n', 'g']);
    if ends_with_chars(&chars, &suffix) {
        let empty: Vec<char> = Vec::new();
        let stripped = replace_chars(&chars, &suffix, &empty);
        Ok(string_of(&stripped))
    } else {
        Err(Error::NotPng(file_name))
    }
}

/// A boops file named in the project configuration must be a `.csv` file; the boops are named
/// after the file without `.csv`.
pub fn determine_boop_file(file_name: String) -> (res: Result<String, Error>)
    ensures
        ends_with(file_name@, seq!['.', 'c', 's', 'v']) ==> (res matches Ok(n) && n@ == replace_all(
            file_name@,
            seq!['.', 'c', 's', 'v'],
            Seq::empty(),
        )),
        !ends_with(file_name@, seq!['.', 'c', 's', 'v']) ==> (res matches Err(e) && e@
            == ErrorV::NotCsv(file_name@)),
{
    let chars = chars_of(file_name.as_str());
    let suffix = vec!['.', 'c', 's', 'v'];
    assert(suffix@ =~= seq!['.', 'c', 's', 'v']);
    if ends_with_chars(&chars, &suffix) {
        let empty: Vec<char> = Vec::new();
        let stripped = replace_chars(&chars, &suffix, &empty);
        Ok(string_of(&stripped))
    } else {
        Err(Error::NotCsv(file_name))
    }
}

/// One screen of the project configuration: its palette, character and screen images.
pub struct ScreenConfig {
    pub palette: String,
    pub character: String,
    pub screen: String,
}

/// Screens grouped by palette, then by character image, each group in order of first
/// appearance.
pub type DepGraph = Vec<(String, Vec<(String, Vec<String>)>)>;

pub type DepGraphV = Seq<(Seq<char>, Seq<(Seq<char>, Seq<Seq<char>>)>)>;

pub open spec fn strings_view(v: Seq<String>) -> Seq<Seq<char>> {
    v.map_values(|s: String| s@)
}

pub open spec fn inner_view(v: Seq<(String, Vec<String>)>) -> Seq<(Seq<char>, Seq<Seq<char>>)> {
    v.map_values(|e: (String, Vec<String>)| (e.0@, strings_view(e.1@)))
}

pub open spec fn graph_view(g: Seq<(String, Vec<(String, Vec<String>)>)>) -> DepGraphV {
    g.map_values(|e: (String, Vec<(String, Vec<String>)>)| (e.0@, inner_view(e.1@)))
}

/// The first entry of `g` whose key is `k`.
pub open spec fn key_index<T>(g: Seq<(Seq<char>, T)>, k: Seq<char>, n: int) -> Option<int>
    decreases n,
{
    if n <= 0 {
        None
    } else {
        match key_index(g, k, n - 1) {
            Some(i) => Some(i),
            None => if g[n - 1].0 == k {
                Some(n - 1)
            } else {
                None
            },
        }
    }
}

/// `v` added under key `k`: to the entry with that key, or to a new entry at the end.
pub open spec fn group_insert<T>(g: Seq<(Seq<char>, Seq<T>)>, k: Seq<char>, v: T) -> Seq<(Seq<char>, Seq<T>)> {
    match key_index(g, k, g.len() as int) {
        Some(i) => g.update(i, (k, g[i].1.push(v))),
        None => g.push((k, seq![v])),
    }
}

/// The graph with screen `s` added under palette `p` and character image `c`.
pub open spec fn graph_insert(g: DepGraphV, p: Seq<char>, c: Seq<char>, s: Seq<char>) -> DepGraphV {
    match key_index(g, p, g.len() as int) {
        Some(i) => g.update(i, (p, group_insert(g[i].1, c, s))),
        None => g.push((p, seq![(c, seq![s])])),
    }
}

pub open spec fn png_suffix() -> Seq<char> {
    seq!['.', 'p', 'n', 'g']
}

pub open spec fn png_stem(s: Seq<char>) -> Seq<char> {
    replace_all(s, png_suffix(), Seq::empty())
}

/// The file names of a screen configuration.
pub open spec fn config_view(c: ScreenConfig) -> (Seq<char>, Seq<char>, Seq<char>) {
    (c.palette@, c.character@, c.screen@)
}

/// The names of a screen's palette, character and screen images, or the first of its file
/// names that is not a `.png` file.
pub open spec fn config_names(t: (Seq<char>, Seq<char>, Seq<char>)) -> Result<
    (Seq<char>, Seq<char>, Seq<char>),
    Seq<char>,
> {
    let (p, c, s) = t;
    if !ends_with(p, png_suffix()) {
        Err(p)
    } else if !ends_with(c, png_suffix()) {
        Err(c)
    } else if !ends_with(s, png_suffix()) {
        Err(s)
    } else {
        Ok((png_stem(p), png_stem(c), png_stem(s)))
    }
}

/// The graph of the first `n` screens, or the first file name that is not a `.png` file
/// (checking palette, character, then screen of each).
pub open spec fn dep_graph(cs: Seq<(Seq<char>, Seq<char>, Seq<char>)>, n: int) -> Result<DepGraphV, Seq<char>>
    decreases n,
{
    if n <= 0 {
        Ok(Seq::empty())
    } else {
        match dep_graph(cs, n - 1) {
            Err(e) => Err(e),
            Ok(g) => match config_names(cs[n - 1]) {
                Err(e) => Err(e),
                Ok((p, c, s)) => Ok(graph_insert(g, p, c, s)),
            },
        }
    }
}

proof fn lemma_dep_graph_err_stays(cs: Seq<(Seq<char>, Seq<char>, Seq<char>)>, n: int, m: int)
    requires
        0 <= n <= m,
        dep_graph(cs, n) is Err,
    ensures
        dep_graph(cs, m) == dep_graph(cs, n),
    decreases m - n,
{
    if n < m {
        lemma_dep_graph_err_stays(cs, n, m - 1);
    }
}

/// The first entry of `g` with key `k`, if any.
fn find_key<T>(g: &Vec<(String, T)>, k: &String) -> (r: Option<usize>)
    ensures
        r matches Some(i) ==> i < g@.len() && g@[i as int].0@ == k@ && forall|j: int|
            0 <= j < i ==> #[trigger] g@[j].0@ != k@,
        r is None ==> forall|j: int| 0 <= j < g@.len() ==> #[trigger] g@[j].0@ != k@,
{
    let mut i: usize = 0;
    while i < g.len()
        invariant
            i <= g@.len(),
            forall|j: int| 0 <= j < i ==> #[trigger] g@[j].0@ != k@,
        decreases g@.len() - i,
    {
        if g[i].0 == *k {
            return Some(i);
        }
        i += 1;
    }
    None
}

/// `key_index` is the first position with the key.
proof fn lemma_key_index_first<T>(h: Seq<(Seq<char>, T)>, k: Seq<char>, n: int, i: Option<int>)
    requires
        0 <= n <= h.len(),
        i matches Some(i) ==> 0 <= i < n && h[i].0 == k && forall|j: int| 0 <= j < i ==> #[trigger] h[j].0 != k,
        i is None ==> forall|j: int| 0 <= j < n ==> #[trigger] h[j].0 != k,
    ensures
        key_index(h, k, n) == i,
    decreases n,
{
    if n > 0 {
        match i {
            Some(x) => {
                if x < n - 1 {
                    lemma_key_index_first(h, k, n - 1, i);
                } else {
                    lemma_key_index_first(h, k, n - 1, None);
                }
            },
            None => {
                lemma_key_index_first(h, k, n - 1, None);
            },
        }
    }
}

/// Adds screen `s` under palette `p` and character image `c`.
fn insert_screen(graph: &mut DepGraph, p: String, c: String, s: String)
    ensures
        graph_view(final(graph)@) == graph_insert(graph_view(old(graph)@), p@, c@, s@),
{
    let ghost g0 = graph_view(graph@);
    let ghost graph0 = graph@;
    let found = find_key(graph, &p);
    proof {
        let fi = match found {
            Some(i) => Some(i as int),
            None => None,
        };
        assert forall|j: int| 0 <= j < g0.len() implies #[trigger] g0[j].0 == graph0[j].0@ by {}
        lemma_key_index_first(g0, p@, g0.len() as int, fi);
    }
    match found {
        Some(i) => {
            let (key, mut inner) = graph.remove(i);
            assert(key@ == p@);
            let ghost in0 = inner_view(inner@);
            assert(in0 == g0[i as int].1);
            let ghost inner0 = inner@;
            let cfound = find_key(&inner, &c);
            proof {
                let fj = match cfound {
                    Some(j) => Some(j as int),
                    None => None,
                };
                assert forall|j: int| 0 <= j < in0.len() implies #[trigger] in0[j].0 == inner0[j].0@ by {}
                lemma_key_index_first(in0, c@, in0.len() as int, fj);
            }
            match cfound {
                Some(j) => {
                    let (ckey, mut screens) = inner.remove(j);
                    assert(ckey@ == c@);
                    let ghost sv0 = strings_view(screens@);
                    assert(sv0 == in0[j as int].1);
                    screens.push(s);
                    assert(strings_view(screens@) =~= sv0.push(s@));
                    inner.insert(j, (ckey, screens));
                    assert(inner@ =~= inner0.update(j as int, inner@[j as int]));
                    assert(inner_view(inner@) =~= in0.update(j as int, (c@, sv0.push(s@))));
                },
                None => {
                    let mut screens: Vec<String> = Vec::new();
                    screens.push(s);
                    assert(strings_view(screens@) =~= seq![s@]);
                    let ghost cv = c@;
                    inner.push((c, screens));
                    assert(inner@ =~= inner0.push(inner@[inner0.len() as int]));
                    assert(inner_view(inner@)[inner0.len() as int] == (cv, seq![s@]));
                    assert(inner_view(inner@) =~= in0.push((cv, seq![s@])));
                },
            }
            graph.insert(i, (key, inner));
            assert(graph@ =~= graph0.update(i as int, graph@[i as int]));
            assert(graph_view(graph@) =~= g0.update(i as int, (p@, group_insert(g0[i as int].1, c@, s@))));
        },
        None => {
            let ghost (pv, cv, sv) = (p@, c@, s@);
            let mut screens: Vec<String> = Vec::new();
            screens.push(s);
            assert(strings_view(screens@) =~= seq![sv]);
            let mut inner: Vec<(String, Vec<String>)> = Vec::new();
            inner.push((c, screens));
            assert(inner_view(inner@) =~= seq![(cv, seq![sv])]);
            graph.push((p, inner));
            assert(graph@ =~= graph0.push(graph@[graph0.len() as int]));
            assert(graph_view(graph@) =~= g0.push((pv, seq![(cv, seq![sv])])));
        },
    }
}

/// The names of the three images of one screen, each checked to be a `.png` file.
fn check_config(config: ScreenConfig) -> (r: Result<(String, String, String), Error>)
    ensures
        match config_names(config_view(config)) {
            Ok((p, c, s)) => r matches Ok(t) && t.0@ == p && t.1@ == c && t.2@ == s,
            Err(name) => r matches Err(e) && e@ == ErrorV::NotPng(name),
        },
{
    let ScreenConfig { palette, character, screen } = config;
    let p = verify_is_png_get_file_name(palette)?;
    let c = verify_is_png_get_file_name(character)?;
    let s = verify_is_png_get_file_name(screen)?;
    Ok((p, c, s))
}

/// Groups the screens of the project configuration by palette, then by character image,
/// each name without its `.png`; fails on the first file name that is not a `.png` file.
pub fn screens_to_dep_graph(screen_configs: Vec<ScreenConfig>) -> (res: Result<DepGraph, Error>)
    ensures
        match dep_graph(screen_configs@.map_values(|c: ScreenConfig| config_view(c)), screen_configs@.len() as int) {
            Ok(g) => res matches Ok(r) && graph_view(r@) == g,
            Err(name) => res matches Err(e) && e@ == ErrorV::NotPng(name),
        },
{
    let ghost cs = screen_configs@.map_values(|c: ScreenConfig| config_view(c));
    let n = screen_configs.len();
    let mut configs = screen_configs;
    let mut graph: DepGraph = Vec::new();
    assert(graph_view(graph@) =~= Seq::<(Seq<char>, Seq<(Seq<char>, Seq<Seq<char>>)>)>::empty());
    let mut k: usize = 0;
    while k < n
        invariant
            cs == screen_configs@.map_values(|c: ScreenConfig| config_view(c)),
            n == cs.len(),
            k <= n,
            configs@.len() == n - k,
            forall|t: int| 0 <= t < n - k ==> #[trigger] config_view(configs@[t]) == cs[k + t],
            dep_graph(cs, k as int) == Ok::<DepGraphV, Seq<char>>(graph_view(graph@)),
        decreases n - k,
    {
        let config = configs.remove(0);
        assert(config_view(config) == cs[k as int]);
        let (p, c, s) = match check_config(config) {
            Ok(t) => t,
            Err(e) => {
                proof {
                    assert(dep_graph(cs, k + 1) == Err::<DepGraphV, Seq<char>>(
                        config_names(cs[k as int])->Err_0,
                    ));
                    lemma_dep_graph_err_stays(cs, k + 1, n as int);
                }
                return Err(e);
            },
        };
        insert_screen(&mut graph, p, c, s);
        k += 1;
    }
    Ok(graph)
}

/// The first dimension error among the first `n` palette images (and the images drawn with
/// them).
pub open spec fn palettes_verify(nodes: Seq<PaletteNode>, n: int) -> Option<ErrorV>
    decreases n,
{
    if n <= 0 {
        None
    } else {
        match palettes_verify(nodes, n - 1) {
            Some(e) => Some(e),
            None => palette_verify(nodes[n - 1]),
        }
    }
}

/// The first header error among the first `n` boops files.
pub open spec fn boops_verify(nodes: Seq<BoopNode>, n: int) -> Option<ErrorV>
    decreases n,
{
    if n <= 0 {
        None
    } else {
        match boops_verify(nodes, n - 1) {
            Some(e) => Some(e),
            None => boop_verify(nodes[n - 1].lines()),
        }
    }
}

/// The first error of a project's checks: image dimensions first, then boops headers.
pub open spec fn project_verify(palettes: Seq<PaletteNode>, boops: Seq<BoopNode>) -> Option<ErrorV> {
    match palettes_verify(palettes, palettes.len() as int) {
        Some(e) => Some(e),
        None => boops_verify(boops, boops.len() as int),
    }
}

/// The digests after adding the first `n` palette images in turn, stopping at the first
/// error.
pub open spec fn palettes_digest(d: DigestsV, nodes: Seq<PaletteNode>, n: int) -> (DigestsV, Option<ErrorV>)
    decreases n,
{
    if n <= 0 {
        (d, None)
    } else {
        let (d1, e1) = palettes_digest(d, nodes, n - 1);
        if e1 is Some {
            (d1, e1)
        } else {
            palette_digest(d1, nodes[n - 1])
        }
    }
}

/// The digests after adding the first `n` boops files in turn, stopping at the first error.
pub open spec fn boops_digest(d: DigestsV, nodes: Seq<BoopNode>, n: int) -> (DigestsV, Option<ErrorV>)
    decreases n,
{
    if n <= 0 {
        (d, None)
    } else {
        let (d1, e1) = boops_digest(d, nodes, n - 1);
        if e1 is Some {
            (d1, e1)
        } else {
            match boop_node_result(nodes[n - 1].name_view(), nodes[n - 1].lines()) {
                Ok(v) => (DigestsV { boops: d1.boops.push(v), ..d1 }, None),
                Err(e) => (d1, Some(e)),
            }
        }
    }
}

/// What a project digests to: every palette image with the images drawn with it, then every
/// boops file; or the first error.
pub open spec fn project_digest(palettes: Seq<PaletteNode>, boops: Seq<BoopNode>) -> Result<DigestsV, ErrorV> {
    let (d1, e1) = palettes_digest(empty_digests(), palettes, palettes.len() as int);
    match e1 {
        Some(e) => Err(e),
        None => {
            let (d2, e2) = boops_digest(d1, boops, boops.len() as int);
            match e2 {
                Some(e) => Err(e),
                None => Ok(d2),
            }
        },
    }
}

/// A checked project: its palette images with the images drawn with them, and its boops
/// files.
pub struct Project {
    name: String,
    palettes: Vec<PaletteNode>,
    boops: Vec<BoopNode>,
}

impl Project {
    /// Every image of a project cuts cleanly into tiles.
    #[verifier::type_invariant]
    pub open spec fn checked(&self) -> bool {
        forall|k: int| 0 <= k < self.palette_nodes().len() ==> palette_tiles_fit(#[trigger] self.palette_nodes()[k])
    }

    pub closed spec fn name_view(&self) -> Seq<char> {
        self.name@
    }

    pub closed spec fn palette_nodes(&self) -> Seq<PaletteNode> {
        self.palettes@
    }

    pub closed spec fn boop_nodes(&self) -> Seq<BoopNode> {
        self.boops@
    }

    /// The project named `name` with these palette images and boops files, once they pass
    /// the checks: every palette image 16 by 16 pixels, every character and screen image 256 by
    /// 256, every boops file starting with its header line; the first failed check is the
    /// error.
    pub fn new(name: String, palettes: Vec<PaletteNode>, boops: Vec<BoopNode>) -> (res: Result<Project, Error>)
        requires
            forall|k: int| 0 <= k < boops@.len() ==> #[trigger] boops@[k].lines().len() > 0,
        ensures
            match project_verify(palettes@, boops@) {
                None => res matches Ok(p) && p.name_view() == name@ && p.palette_nodes() == palettes@
                    && p.boop_nodes() == boops@,
                Some(e) => res matches Err(x) && x@ == e,
            },
    {
        let mut k: usize = 0;
        while k < palettes.len()
            invariant
                k <= palettes@.len(),
                palettes_verify(palettes@, k as int) is None,
                forall|j: int| 0 <= j < k ==> palette_tiles_fit(#[trigger] palettes@[j]),
            decreases palettes@.len() - k,
        {
            let r = palettes[k].verify();
            if let Err(e) = r {
                proof {
                    lemma_palettes_verify_stays(palettes@, k + 1, palettes@.len() as int);
                }
                return Err(e);
            }
            k += 1;
        }
        let mut k: usize = 0;
        while k < boops.len()
            invariant
                palettes_verify(palettes@, palettes@.len() as int) is None,
                forall|j: int| 0 <= j < boops@.len() ==> #[trigger] boops@[j].lines().len() > 0,
                k <= boops@.len(),
                boops_verify(boops@, k as int) is None,
            decreases boops@.len() - k,
        {
            let r = boops[k].verify();
            if let Err(e) = r {
                proof {
                    lemma_boops_verify_stays(boops@, k + 1, boops@.len() as int);
                }
                return Err(e);
            }
            k += 1;
        }
        Ok(Project { name, palettes, boops })
    }

    pub fn name(&self) -> (n: &str)
        ensures
            n@ == self.name_view(),
    {
        self.name.as_str()
    }

    /// The palettes, character data, screen data and boops of the project: each palette
    /// image's character images (each after its screens) then its palette, palette image by
    /// palette image, then each boops file; the first error stops it.
    pub fn digest(&mut self) -> (res: Result<Digests, Error>)
        ensures
            *final(self) == *old(self),
            match project_digest(old(self).palette_nodes(), old(self).boop_nodes()) {
                Ok(d) => res matches Ok(x) && x@ == d,
                Err(e) => res matches Err(x) && x@ == e,
            },
    {
        proof {
            use_type_invariant(&*self);
        }
        let ghost palettes = self.palette_nodes();
        let ghost boops = self.boop_nodes();
        let mut digests = Digests::default();
        let mut k: usize = 0;
        while k < self.palettes.len()
            invariant
                self.palette_nodes() == palettes,
                self.boop_nodes() == boops,
                forall|j: int| 0 <= j < palettes.len() ==> palette_tiles_fit(#[trigger] palettes[j]),
                k <= palettes.len(),
                palettes_digest(empty_digests(), palettes, k as int) == (digests@, None::<ErrorV>),
            decreases palettes.len() - k,
        {
            assert(palette_tiles_fit(palettes[k as int]));
            proof {
                lemma_palette_tiles_fit(palettes[k as int]);
            }
            let r = self.palettes[k].digest(&mut digests);
            if let Err(e) = r {
                proof {
                    lemma_palettes_digest_stays(empty_digests(), palettes, k + 1, palettes.len() as int);
                }
                return Err(e);
            }
            k += 1;
        }
        let ghost d1 = digests@;
        let mut k: usize = 0;
        while k < self.boops.len()
            invariant
                self.palette_nodes() == palettes,
                self.boop_nodes() == boops,
                palettes_digest(empty_digests(), palettes, palettes.len() as int) == (d1, None::<ErrorV>),
                k <= boops.len(),
                boops_digest(d1, boops, k as int) == (digests@, None::<ErrorV>),
            decreases boops.len() - k,
        {
            let r = self.boops[k].digest(&mut digests);
            if let Err(e) = r {
                proof {
                    lemma_boops_digest_stays(d1, boops, k + 1, boops.len() as int);
                }
                return Err(e);
            }
            k += 1;
        }
        Ok(digests)
    }
}

proof fn lemma_palettes_verify_stays(nodes: Seq<PaletteNode>, n: int, m: int)
    requires
        0 <= n <= m,
        palettes_verify(nodes, n) is Some,
    ensures
        palettes_verify(nodes, m) == palettes_verify(nodes, n),
    decreases m - n,
{
    if n < m {
        lemma_palettes_verify_stays(nodes, n, m - 1);
    }
}

proof fn lemma_boops_verify_stays(nodes: Seq<BoopNode>, n: int, m: int)
    requires
        0 <= n <= m,
        boops_verify(nodes, n) is Some,
    ensures
        boops_verify(nodes, m) == boops_verify(nodes, n),
    decreases m - n,
{
    if n < m {
        lemma_boops_verify_stays(nodes, n, m - 1);
    }
}

proof fn lemma_palettes_digest_stays(d: DigestsV, nodes: Seq<PaletteNode>, n: int, m: int)
    requires
        0 <= n <= m,
        palettes_digest(d, nodes, n).1 is Some,
    ensures
        palettes_digest(d, nodes, m) == palettes_digest(d, nodes, n),
    decreases m - n,
{
    if n < m {
        lemma_palettes_digest_stays(d, nodes, n, m - 1);
    }
}

proof fn lemma_boops_digest_stays(d: DigestsV, nodes: Seq<BoopNode>, n: int, m: int)
    requires
        0 <= n <= m,
        boops_digest(d, nodes, n).1 is Some,
    ensures
        boops_digest(d, nodes, m) == boops_digest(d, nodes, n),
    decreases m - n,
{
    if n < m {
        lemma_boops_digest_stays(d, nodes, n, m - 1);
    }
}

/// The screens of the first `n` character images.
pub open spec fn screens_in(nodes: Seq<CharacterNode>, n: int) -> int
    decreases n,
{
    if n <= 0 {
        0
    } else {
        screens_in(nodes, n - 1) + nodes[n - 1].screens().len()
    }
}

/// The character images of the first `n` palette images.
pub open spec fn characters_in(nodes: Seq<PaletteNode>, n: int) -> int
    decreases n,
{
    if n <= 0 {
        0
    } else {
        characters_in(nodes, n - 1) + nodes[n - 1].character_maps().len()
    }
}

/// The screen images of the first `n` palette images.
pub open spec fn all_screens_in(nodes: Seq<PaletteNode>, n: int) -> int
    decreases n,
{
    if n <= 0 {
        0
    } else {
        all_screens_in(nodes, n - 1) + screens_in(
            nodes[n - 1].character_maps(),
            nodes[n - 1].character_maps().len() as int,
        )
    }
}

proof fn lemma_screens_digest_counts(
    d: DigestsV,
    screens: Seq<ScreenNode>,
    colors: Seq<(u8, u8, u8)>,
    cd: (Seq<char>, Seq<Seq<u8>>),
    n: int,
)
    requires
        0 <= n,
        screens_digest(d, screens, colors, cd, n).1 is None,
    ensures
        ({
            let r = screens_digest(d, screens, colors, cd, n).0;
            &&& r.screens.len() == d.screens.len() + n
            &&& r.palettes == d.palettes && r.characters == d.characters && r.boops == d.boops
        }),
    decreases n,
{
    if n > 0 {
        lemma_screens_digest_counts(d, screens, colors, cd, n - 1);
    }
}

proof fn lemma_characters_digest_counts(d: DigestsV, nodes: Seq<CharacterNode>, colors: Seq<(u8, u8, u8)>, n: int)
    requires
        0 <= n,
        characters_digest(d, nodes, colors, n).1 is None,
    ensures
        ({
            let r = characters_digest(d, nodes, colors, n).0;
            &&& r.characters.len() == d.characters.len() + n
            &&& r.screens.len() == d.screens.len() + screens_in(nodes, n)
            &&& r.palettes == d.palettes && r.boops == d.boops
        }),
    decreases n,
{
    if n > 0 {
        lemma_characters_digest_counts(d, nodes, colors, n - 1);
        let d1 = characters_digest(d, nodes, colors, n - 1).0;
        let node = nodes[n - 1];
        let cd = character_result(node.name_view(), node.image().bytes(), colors)->Ok_0;
        lemma_screens_digest_counts(d1, node.screens(), colors, cd, node.screens().len() as int);
    }
}

proof fn lemma_palettes_digest_counts(d: DigestsV, nodes: Seq<PaletteNode>, n: int)
    requires
        0 <= n,
        palettes_digest(d, nodes, n).1 is None,
    ensures
        ({
            let r = palettes_digest(d, nodes, n).0;
            &&& r.palettes.len() == d.palettes.len() + n
            &&& r.characters.len() == d.characters.len() + characters_in(nodes, n)
            &&& r.screens.len() == d.screens.len() + all_screens_in(nodes, n)
            &&& r.boops == d.boops
        }),
    decreases n,
{
    if n > 0 {
        lemma_palettes_digest_counts(d, nodes, n - 1);
        let d1 = palettes_digest(d, nodes, n - 1).0;
        let node = nodes[n - 1];
        let p = palette_result(node.name_view(), node.image().bytes());
        lemma_characters_digest_counts(d1, node.character_maps(), color_views(p.1), node.character_maps().len() as int);
    }
}

proof fn lemma_boops_digest_counts(d: DigestsV, nodes: Seq<BoopNode>, n: int)
    requires
        0 <= n,
        boops_digest(d, nodes, n).1 is None,
    ensures
        ({
            let r = boops_digest(d, nodes, n).0;
            &&& r.boops.len() == d.boops.len() + n
            &&& r.palettes == d.palettes && r.characters == d.characters && r.screens == d.screens
        }),
    decreases n,
{
    if n > 0 {
        lemma_boops_digest_counts(d, nodes, n - 1);
    }
}

/// A project that digests yields one palette per palette image, one character data per
/// character image, one screen data per screen image and one boops list per boops file.
pub proof fn lemma_digest_counts(palettes: Seq<PaletteNode>, boops: Seq<BoopNode>)
    requires
        project_digest(palettes, boops) is Ok,
    ensures
        ({
            let d = project_digest(palettes, boops)->Ok_0;
            &&& d.palettes.len() == palettes.len()
            &&& d.characters.len() == characters_in(palettes, palettes.len() as int)
            &&& d.screens.len() == all_screens_in(palettes, palettes.len() as int)
            &&& d.boops.len() == boops.len()
        }),
{
    lemma_palettes_digest_counts(empty_digests(), palettes, palettes.len() as int);
    let d1 = palettes_digest(empty_digests(), palettes, palettes.len() as int).0;
    lemma_boops_digest_counts(d1, boops, boops.len() as int);
}

/// No two entries share a key.
pub open spec fn keys_distinct<T>(g: Seq<(Seq<char>, T)>) -> bool {
    forall|i: int, j: int| 0 <= i < j < g.len() ==> #[trigger] g[i].0 != #[trigger] g[j].0
}

/// The number of values in the first `n` groups.
pub open spec fn group_count<T>(g: Seq<(Seq<char>, Seq<T>)>, n: int) -> int
    decreases n,
{
    if n <= 0 {
        0
    } else {
        group_count(g, n - 1) + g[n - 1].1.len()
    }
}

/// The number of screens in the first `n` palette groups of a graph.
pub open spec fn graph_count(g: DepGraphV, n: int) -> int
    decreases n,
{
    if n <= 0 {
        0
    } else {
        graph_count(g, n - 1) + group_count(g[n - 1].1, g[n - 1].1.len() as int)
    }
}

/// The graph is well formed: palettes appear once, and within each palette characters appear
/// once.
pub open spec fn graph_distinct(g: DepGraphV) -> bool {
    &&& keys_distinct(g)
    &&& forall|i: int| 0 <= i < g.len() ==> keys_distinct(#[trigger] g[i].1)
}

proof fn lemma_key_index_some<T>(g: Seq<(Seq<char>, T)>, k: Seq<char>, n: int)
    requires
        n <= g.len(),
    ensures
        key_index(g, k, n) matches Some(i) ==> 0 <= i < n && g[i].0 == k,
        key_index(g, k, n) is None ==> forall|i: int| 0 <= i < n ==> #[trigger] g[i].0 != k,
    decreases n,
{
    if n > 0 {
        lemma_key_index_some(g, k, n - 1);
    }
}

/// Changing one group changes the count by the change of that group's size.
proof fn lemma_group_count_update<T>(g: Seq<(Seq<char>, Seq<T>)>, i: int, x: (Seq<char>, Seq<T>), n: int)
    requires
        0 <= i < g.len(),
        0 <= n <= g.len(),
    ensures
        group_count(g.update(i, x), n) == group_count(g, n) + (if i < n { x.1.len() - g[i].1.len() } else { 0 }),
    decreases n,
{
    if n > 0 {
        lemma_group_count_update(g, i, x, n - 1);
    }
}

proof fn lemma_group_count_push<T>(g: Seq<(Seq<char>, Seq<T>)>, x: (Seq<char>, Seq<T>), n: int)
    requires
        0 <= n <= g.len(),
    ensures
        group_count(g.push(x), n) == group_count(g, n),
    decreases n,
{
    if n > 0 {
        lemma_group_count_push(g, x, n - 1);
    }
}

proof fn lemma_graph_count_update(g: DepGraphV, i: int, x: (Seq<char>, Seq<(Seq<char>, Seq<Seq<char>>)>), n: int)
    requires
        0 <= i < g.len(),
        0 <= n <= g.len(),
    ensures
        graph_count(g.update(i, x), n) == graph_count(g, n) + (if i < n {
            group_count(x.1, x.1.len() as int) - group_count(g[i].1, g[i].1.len() as int)
        } else {
            0
        }),
    decreases n,
{
    if n > 0 {
        lemma_graph_count_update(g, i, x, n - 1);
    }
}

proof fn lemma_graph_count_push(g: DepGraphV, x: (Seq<char>, Seq<(Seq<char>, Seq<Seq<char>>)>), n: int)
    requires
        0 <= n <= g.len(),
    ensures
        graph_count(g.push(x), n) == graph_count(g, n),
    decreases n,
{
    if n > 0 {
        lemma_graph_count_push(g, x, n - 1);
    }
}

/// Adding a value under a key adds one value and keeps the keys distinct.
proof fn lemma_group_insert<T>(g: Seq<(Seq<char>, Seq<T>)>, k: Seq<char>, v: T)
    requires
        keys_distinct(g),
    ensures
        keys_distinct(group_insert(g, k, v)),
        group_count(group_insert(g, k, v), group_insert(g, k, v).len() as int) == group_count(g, g.len() as int) + 1,
{
    lemma_key_index_some(g, k, g.len() as int);
    match key_index(g, k, g.len() as int) {
        Some(i) => {
            lemma_group_count_update(g, i, (k, g[i].1.push(v)), g.len() as int);
        },
        None => {
            let h = g.push((k, seq![v]));
            lemma_group_count_push(g, (k, seq![v]), g.len() as int);
            assert(h.drop_last() =~= g);
            assert(group_count(h, h.len() as int) == group_count(h, g.len() as int) + 1);
        },
    }
}

/// Adding a screen to the graph adds one screen and keeps it well formed.
pub proof fn lemma_graph_insert(g: DepGraphV, p: Seq<char>, c: Seq<char>, s: Seq<char>)
    requires
        graph_distinct(g),
    ensures
        graph_distinct(graph_insert(g, p, c, s)),
        graph_count(graph_insert(g, p, c, s), graph_insert(g, p, c, s).len() as int) == graph_count(g, g.len() as int) + 1,
{
    lemma_key_index_some(g, p, g.len() as int);
    match key_index(g, p, g.len() as int) {
        Some(i) => {
            lemma_group_insert(g[i].1, c, s);
            let x = (p, group_insert(g[i].1, c, s));
            lemma_graph_count_update(g, i, x, g.len() as int);
            let h = g.update(i, x);
            assert forall|a: int| 0 <= a < h.len() implies keys_distinct(#[trigger] h[a].1) by {
                if a != i {
                    assert(h[a] == g[a]);
                }
            }
        },
        None => {
            let x = (p, seq![(c, seq![s])]);
            let h = g.push(x);
            lemma_graph_count_push(g, x, g.len() as int);
            assert(h.drop_last() =~= g);
            assert(group_count(x.1, 1) == 1) by {
                assert(group_count(x.1, 0) == 0);
            }
            assert(graph_count(h, h.len() as int) == graph_count(h, g.len() as int) + 1);
            assert forall|a: int| 0 <= a < h.len() implies keys_distinct(#[trigger] h[a].1) by {
                if a < g.len() {
                    assert(h[a] == g[a]);
                }
            }
        },
    }
}

/// The graph of a configuration holds every screen once: as many screens as configured, each
/// palette once, and each character image once within its palette.
pub proof fn lemma_dep_graph_shape(cs: Seq<(Seq<char>, Seq<char>, Seq<char>)>, n: int)
    requires
        0 <= n,
    ensures
        dep_graph(cs, n) matches Ok(g) ==> graph_distinct(g) && graph_count(g, g.len() as int) == n,
    decreases n,
{
    if n > 0 {
        lemma_dep_graph_shape(cs, n - 1);
        if let Ok(g) = dep_graph(cs, n - 1) {
            if let Ok((p, c, s)) = config_names(cs[n - 1]) {
                lemma_graph_insert(g, p, c, s);
            }
        }
    } else {
        let e = Seq::<(Seq<char>, Seq<(Seq<char>, Seq<Seq<char>>)>)>::empty();
        assert(graph_count(e, 0) == 0);
    }
}

} // verus!
