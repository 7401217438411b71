//! A screen image of a project and the screen data it turns into.
use vstd::prelude::*;
use crate::character::Character;
use crate::character_data::CharacterData;
use crate::error::{Error, ErrorV};
use crate::palette::Palette;
use crate::project::digest::{Digests, DigestsV, screen_data_view};
use crate::project::{
    RgbImage, color_views, find_character, first_match, match_flags, image_palette_indexes, image_tiles, image_tiles_fit,
    lemma_full_image_fits, tiles_fit, tiles_of, tiles_to_characters,
};
use crate::screen::{ScreenData, character_blank};
use crate::tile::{Tile, flipped, flipped_index, lemma_flip_involution};
use crate::tile_iter::tiled_len;
use crate::trim::trim_trailing;

verus! {

/// The screen entries for the first `n` tiles of a screen image, each the first matching tile
/// of the character data; or the first tile that matches none.
pub open spec fn tile_characters(
    needles: Seq<Seq<u8>>,
    tiles: Seq<Seq<u8>>,
    name: Seq<char>,
    n: int,
) -> Result<Seq<Character>, ErrorV>
    decreases n,
{
    if n <= 0 {
        Ok(Seq::empty())
    } else {
        match tile_characters(needles, tiles, name, n - 1) {
            Err(e) => Err(e),
            Ok(cs) => match find_character(needles[n - 1], tiles) {
                Some(c) => Ok(cs.push(c)),
                None => Err(ErrorV::TileNotFound { character_data: name, tile: needles[n - 1] }),
            },
        }
    }
}

/// The screen entries of a screen image (all of them, before trimming), or the first error:
/// a color missing from the palette, or a tile missing from the character data.
pub open spec fn screen_entries(
    data: Seq<u8>,
    colors: Seq<(u8, u8, u8)>,
    tiles: Seq<Seq<u8>>,
    name: Seq<char>,
) -> Result<Seq<Character>, ErrorV> {
    match image_palette_indexes(data, colors) {
        Err(c) => Err(ErrorV::ColorNotFound(c)),
        Ok(idx) => {
            let needles = tiles_of(idx);
            tile_characters(needles, tiles, name, needles.len() as int)
        },
    }
}

/// The screen data a screen image turns into, by name and entries, or the first error.
pub open spec fn screen_result(
    name: Seq<char>,
    data: Seq<u8>,
    colors: Seq<(u8, u8, u8)>,
    cd: (Seq<char>, Seq<Seq<u8>>),
) -> Result<(Seq<char>, Seq<Character>), ErrorV> {
    match screen_entries(data, colors, cd.1, cd.0) {
        Ok(cs) => Ok((name, trim_trailing(cs, character_blank()))),
        Err(e) => Err(e),
    }
}

proof fn lemma_tile_characters_err_stays(
    needles: Seq<Seq<u8>>,
    tiles: Seq<Seq<u8>>,
    name: Seq<char>,
    n: int,
    m: int,
)
    requires
        0 <= n <= m,
        tile_characters(needles, tiles, name, n) is Err,
    ensures
        tile_characters(needles, tiles, name, m) == tile_characters(needles, tiles, name, n),
    decreases m - n,
{
    if n < m {
        lemma_tile_characters_err_stays(needles, tiles, name, n, m - 1);
    }
}

/// The first tile found for a needle matches it, flipped as found.
proof fn lemma_first_match_matches(needle: Seq<u8>, tiles: Seq<Seq<u8>>, n: int)
    requires
        0 <= n <= tiles.len(),
    ensures
        first_match(needle, tiles, n) matches Some(k) ==> 0 <= k < n && match_flags(needle, tiles[k]) is Some,
    decreases n,
{
    if n > 0 {
        lemma_first_match_matches(needle, tiles, n - 1);
    }
}

/// A tile that matches a needle, flipped as the match says, is the needle.
proof fn lemma_match_flags_draw(needle: Seq<u8>, t: Seq<u8>)
    requires
        needle.len() == 64,
        t.len() == 64,
        match_flags(needle, t) is Some,
    ensures
        ({
            let (h, v) = match_flags(needle, t)->0;
            flipped(t, h, v) == needle
        }),
{
    if t == needle {
        assert forall|i: int| 0 <= i < 64 implies #[trigger] flipped(t, false, false)[i] == t[i] by {
            assert(flipped_index(i, false, false) == i);
        }
        assert(flipped(t, false, false) =~= t);
    } else if t == flipped(needle, true, false) {
        lemma_flip_involution(needle, true, false);
    } else if t == flipped(needle, false, true) {
        lemma_flip_involution(needle, false, true);
    } else {
        lemma_flip_involution(needle, true, true);
    }
}

/// Drawing an entry found for a tile, flipped as the entry says, gives that tile back.
proof fn lemma_found_character_draws_needle(needle: Seq<u8>, tiles: Seq<Seq<u8>>)
    requires
        needle.len() == 64,
        tiles.len() <= usize::MAX,
        forall|k: int| 0 <= k < tiles.len() ==> (#[trigger] tiles[k]).len() == 64,
    ensures
        find_character(needle, tiles) matches Some(c) ==> c.tile_number < tiles.len() && flipped(
            tiles[c.tile_number as int],
            c.horizontal_flip,
            c.vertical_flip,
        ) == needle,
{
    lemma_first_match_matches(needle, tiles, tiles.len() as int);
    if let Some(k) = first_match(needle, tiles, tiles.len() as int) {
        lemma_match_flags_draw(needle, tiles[k]);
    }
}

proof fn lemma_tile_characters_draw(
    needles: Seq<Seq<u8>>,
    tiles: Seq<Seq<u8>>,
    name: Seq<char>,
    n: int,
)
    requires
        0 <= n <= needles.len(),
        tiles.len() <= usize::MAX,
        forall|k: int| 0 <= k < needles.len() ==> (#[trigger] needles[k]).len() == 64,
        forall|k: int| 0 <= k < tiles.len() ==> (#[trigger] tiles[k]).len() == 64,
    ensures
        tile_characters(needles, tiles, name, n) matches Ok(cs) ==> {
            &&& cs.len() == n
            &&& forall|k: int|
                0 <= k < n ==> (#[trigger] cs[k]).tile_number < tiles.len() && flipped(
                    tiles[cs[k].tile_number as int],
                    cs[k].horizontal_flip,
                    cs[k].vertical_flip,
                ) == needles[k]
        },
    decreases n,
{
    if n > 0 {
        lemma_tile_characters_draw(needles, tiles, name, n - 1);
        lemma_found_character_draws_needle(needles[n - 1], tiles);
    }
}

/// The entries of a converted screen image draw it again: there is one entry per tile of the
/// image, and each names a tile of the character data that, flipped as the entry says, is the
/// image's tile.
pub proof fn lemma_screen_entries_draw_image(
    data: Seq<u8>,
    colors: Seq<(u8, u8, u8)>,
    tiles: Seq<Seq<u8>>,
    name: Seq<char>,
)
    requires
        tiles.len() <= usize::MAX,
        forall|k: int| 0 <= k < tiles.len() ==> (#[trigger] tiles[k]).len() == 64,
    ensures
        screen_entries(data, colors, tiles, name) matches Ok(cs) ==> {
            let needles = tiles_of(image_palette_indexes(data, colors)->Ok_0);
            &&& cs.len() == needles.len()
            &&& forall|k: int|
                0 <= k < cs.len() ==> (#[trigger] cs[k]).tile_number < tiles.len() && flipped(
                    tiles[cs[k].tile_number as int],
                    cs[k].horizontal_flip,
                    cs[k].vertical_flip,
                ) == needles[k]
        },
{
    if let Ok(idx) = image_palette_indexes(data, colors) {
        let needles = tiles_of(idx);
        assert forall|k: int| 0 <= k < needles.len() implies (#[trigger] needles[k]).len() == 64 by {
            crate::tile_iter::lemma_tiled_len_bounds(idx.len() as int);
            assert(64 * k + 64 <= tiled_len(idx.len() as int)) by (nonlinear_arith)
                requires
                    0 <= k < tiled_len(idx.len() as int) / 64,
            ;
        }
        lemma_tile_characters_draw(needles, tiles, name, needles.len() as int);
    }
}

/// A screen image of a project.
pub struct ScreenNode {
    name: String,
    image: RgbImage,
}

impl ScreenNode {
    pub closed spec fn name_view(&self) -> Seq<char> {
        self.name@
    }

    pub closed spec fn image(&self) -> RgbImage {
        self.image
    }

    pub fn new(name: String, image: RgbImage) -> (n: Self)
        ensures
            n.name_view() == name@,
            n.image() == image,
    {
        ScreenNode { name, image }
    }

    /// A screen image must be 256 by 256 pixels.
    pub fn verify(&self) -> (res: Result<(), Error>)
        ensures
            (self.image().width_view() == 256 && self.image().height_view() == 256) <==> res is Ok,
            res matches Err(e) ==> e@ == (ErrorV::ScreenDataDimensions {
                width: self.image().width_view() as u32,
                height: self.image().height_view() as u32,
            }),
            res is Ok ==> image_tiles_fit(self.image()),
    {
        let w = self.image.width();
        let h = self.image.height();
        if w != 256 || h != 256 {
            return Err(Error::ScreenDataDimensions { width: w, height: h });
        }
        proof {
            use_type_invariant(&self.image);
            lemma_full_image_fits(self.image);
        }
        Ok(())
    }

    /// The screen data of this image: each of its tiles shown by the first tile of
    /// `character_data` that equals it, flipped or not, without the all-zero entries at the end.
    pub fn as_screen_data(
        &self,
        palette: &Palette,
        character_data: &CharacterData,
    ) -> (res: Result<ScreenData, Error>)
        requires
            tiles_fit(self.image().bytes(), color_views(palette.colors())),
        ensures
            match screen_result(
                self.name_view(),
                self.image().bytes(),
                color_views(palette.colors()),
                (character_data.name_view(), character_data.tiles()),
            ) {
                Ok(v) => res matches Ok(s) && screen_data_view(s) == v,
                Err(e) => res matches Err(x) && x@ == e,
            },
    {
        let ghost cd = character_data.tiles();
        let ghost cd_name = character_data.name_view();
        let tiles = image_tiles(&self.image, palette)?;
        let ghost needles = tiles@.map_values(|t: Tile| t@);
        let mut characters: Vec<Character> = Vec::new();
        let mut k: usize = 0;
        while k < tiles.len()
            invariant
                image_palette_indexes(self.image().bytes(), color_views(palette.colors())) is Ok,
                needles == tiles_of(
                    image_palette_indexes(self.image().bytes(), color_views(palette.colors()))->Ok_0,
                ),
                needles == tiles@.map_values(|t: Tile| t@),
                cd == character_data.tiles(),
                cd_name == character_data.name_view(),
                k <= tiles@.len(),
                tile_characters(needles, cd, cd_name, k as int) == Ok::<Seq<Character>, ErrorV>(
                    characters@,
                ),
            decreases tiles@.len() - k,
        {
            match tiles_to_characters(&tiles[k], character_data) {
                Ok(c) => {
                    characters.push(c);
                },
                Err(e) => {
                    proof {
                        lemma_tile_characters_err_stays(needles, cd, cd_name, k + 1, needles.len() as int);
                    }
                    return Err(e);
                },
            }
            k += 1;
        }
        Ok(ScreenData::with_characters(self.name.as_str(), characters))
    }

    /// Adds the screen data of this image to `digests`.
    pub fn digest(
        &self,
        digests: &mut Digests,
        palette: &Palette,
        character_data: &CharacterData,
    ) -> (res: Result<(), Error>)
        requires
            tiles_fit(self.image().bytes(), color_views(palette.colors())),
        ensures
            match screen_result(
                self.name_view(),
                self.image().bytes(),
                color_views(palette.colors()),
                (character_data.name_view(), character_data.tiles()),
            ) {
                Ok(v) => res is Ok && final(digests)@ == (DigestsV {
                    screens: old(digests)@.screens.push(v),
                    ..old(digests)@
                }),
                Err(e) => res matches Err(x) && x@ == e && final(digests)@ == old(digests)@,
            },
    {
        let s = self.as_screen_data(palette, character_data)?;
        let ghost before = digests@;
        let ghost sv = screen_data_view(s);
        digests.screens_mut().push(s);
        assert(digests@.screens =~= before.screens.push(sv));
        Ok(())
    }
}

} // verus!
