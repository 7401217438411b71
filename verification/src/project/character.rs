//! A character image of a project, the character data it turns into, and its screens.
use vstd::prelude::*;
use crate::character_data::{CharacterData, tile_blank};
use crate::error::{Error, ErrorV};
use crate::palette::Palette;
use crate::project::digest::{Digests, DigestsV, character_data_view};
use crate::project::screen::{ScreenNode, screen_result};
use crate::project::{
    RgbImage, color_views, image_palette_indexes, image_tiles, image_tiles_fit, lemma_full_image_fits,
    tiles_fit, tiles_of,
};
use crate::trim::trim_trailing;

verus! {

/// The character data a character image turns into, by name and tiles (without the blank
/// tiles at the end), or the first pixel color missing from the palette.
pub open spec fn character_result(name: Seq<char>, data: Seq<u8>, colors: Seq<(u8, u8, u8)>) -> Result<
    (Seq<char>, Seq<Seq<u8>>),
    ErrorV,
> {
    match image_palette_indexes(data, colors) {
        Err(c) => Err(ErrorV::ColorNotFound(c)),
        Ok(idx) => Ok((name, trim_trailing(tiles_of(idx), tile_blank()))),
    }
}

/// The digests after adding the screen data of the first `n` screens in turn, stopping at the
/// first error.
pub open spec fn screens_digest(
    d: DigestsV,
    screens: Seq<ScreenNode>,
    colors: Seq<(u8, u8, u8)>,
    cd: (Seq<char>, Seq<Seq<u8>>),
    n: int,
) -> (DigestsV, Option<ErrorV>)
    decreases n,
{
    if n <= 0 {
        (d, None)
    } else {
        let (d1, e1) = screens_digest(d, screens, colors, cd, n - 1);
        if e1 is Some {
            (d1, e1)
        } else {
            match screen_result(screens[n - 1].name_view(), screens[n - 1].image().bytes(), colors, cd) {
                Ok(v) => (DigestsV { screens: d1.screens.push(v), ..d1 }, None),
                Err(e) => (d1, Some(e)),
            }
        }
    }
}

/// The digests after adding a character image's screens, then its character data; or the
/// digests at the first error, with that error.
pub open spec fn character_digest(d: DigestsV, node: CharacterNode, colors: Seq<(u8, u8, u8)>) -> (
    DigestsV,
    Option<ErrorV>,
) {
    match character_result(node.name_view(), node.image().bytes(), colors) {
        Err(e) => (d, Some(e)),
        Ok(cd) => {
            let (d1, e1) = screens_digest(d, node.screens(), colors, cd, node.screens().len() as int);
            if e1 is Some {
                (d1, e1)
            } else {
                (DigestsV { characters: d1.characters.push(cd), ..d1 }, None)
            }
        },
    }
}

/// The first dimension error of a character image or of one of its screens.
pub open spec fn character_verify(node: CharacterNode) -> Option<ErrorV> {
    let img = node.image();
    if img.width_view() != 256 || img.height_view() != 256 {
        Some(
            ErrorV::CharacterDataDimensions {
                width: img.width_view() as u32,
                height: img.height_view() as u32,
            },
        )
    } else {
        screens_verify(node.screens(), node.screens().len() as int)
    }
}

/// The first dimension error among the first `n` screens.
pub open spec fn screens_verify(screens: Seq<ScreenNode>, n: int) -> Option<ErrorV>
    decreases n,
{
    if n <= 0 {
        None
    } else {
        match screens_verify(screens, n - 1) {
            Some(e) => Some(e),
            None => {
                let img = screens[n - 1].image();
                if img.width_view() != 256 || img.height_view() != 256 {
                    Some(
                        ErrorV::ScreenDataDimensions {
                            width: img.width_view() as u32,
                            height: img.height_view() as u32,
                        },
                    )
                } else {
                    None
                }
            },
        }
    }
}

/// Every image of a character node cuts cleanly into tiles once its colors are found.
pub open spec fn character_fits(node: CharacterNode, colors: Seq<(u8, u8, u8)>) -> bool {
    &&& tiles_fit(node.image().bytes(), colors)
    &&& forall|k: int|
        0 <= k < node.screens().len() ==> tiles_fit(#[trigger] node.screens()[k].image().bytes(), colors)
}

/// A character image and each of its screens cut cleanly into tiles.
pub open spec fn character_tiles_fit(node: CharacterNode) -> bool {
    &&& image_tiles_fit(node.image())
    &&& forall|k: int| 0 <= k < node.screens().len() ==> image_tiles_fit(#[trigger] node.screens()[k].image())
}

/// A character image of a project with the screens drawn from its tiles.
pub struct CharacterNode {
    name: String,
    image: RgbImage,
    screens: Vec<ScreenNode>,
}

impl CharacterNode {
    pub closed spec fn name_view(&self) -> Seq<char> {
        self.name@
    }

    pub closed spec fn image(&self) -> RgbImage {
        self.image
    }

    pub closed spec fn screens(&self) -> Seq<ScreenNode> {
        self.screens@
    }

    pub fn new(name: String, image: RgbImage) -> (n: Self)
        ensures
            n.name_view() == name@,
            n.image() == image,
            n.screens() == Seq::<ScreenNode>::empty(),
    {
        CharacterNode { name, image, screens: Vec::new() }
    }

    /// A character image must be 256 by 256 pixels, and so must each of its screens.
    pub fn verify(&self) -> (res: Result<(), Error>)
        ensures
            match character_verify(*self) {
                None => res is Ok,
                Some(e) => res matches Err(x) && x@ == e,
            },
            res is Ok ==> character_tiles_fit(*self),
    {
        let w = self.image.width();
        let h = self.image.height();
        if w != 256 || h != 256 {
            return Err(Error::CharacterDataDimensions { width: w, height: h });
        }
        proof {
            use_type_invariant(&self.image);
            lemma_full_image_fits(self.image);
        }
        let mut k: usize = 0;
        while k < self.screens.len()
            invariant
                self.image().width_view() == 256 && self.image().height_view() == 256,
                image_tiles_fit(self.image()),
                k <= self.screens@.len(),
                screens_verify(self.screens@, k as int) is None,
                forall|j: int| 0 <= j < k ==> image_tiles_fit(#[trigger] self.screens@[j].image()),
            decreases self.screens@.len() - k,
        {
            let r = self.screens[k].verify();
            if r.is_err() {
                proof {
                    lemma_screens_verify_stays(self.screens@, k + 1, self.screens@.len() as int);
                }
                return r;
            }
            k += 1;
        }
        Ok(())
    }

    /// The character data of this image: its pixels as palette entries, cut into 8x8 tiles,
    /// without the blank tiles at the end.
    pub fn as_character_data(&self, palette: &Palette) -> (res: Result<CharacterData, Error>)
        requires
            tiles_fit(self.image().bytes(), color_views(palette.colors())),
        ensures
            match character_result(self.name_view(), self.image().bytes(), color_views(palette.colors())) {
                Ok(v) => res matches Ok(c) && character_data_view(c) == v,
                Err(e) => res matches Err(x) && x@ == e,
            },
    {
        let tiles = image_tiles(&self.image, palette)?;
        Ok(CharacterData::with_tiles(self.name.as_str(), tiles))
    }

    /// Adds the screen data of each screen, then the character data of this image, to
    /// `digests`; stops at the first error.
    pub fn digest(&self, digests: &mut Digests, palette: &Palette) -> (res: Result<(), Error>)
        requires
            character_fits(*self, color_views(palette.colors())),
        ensures
            ({
                let (d, e) = character_digest(old(digests)@, *self, color_views(palette.colors()));
                &&& final(digests)@ == d
                &&& match e {
                    None => res is Ok,
                    Some(x) => res matches Err(y) && y@ == x,
                }
            }),
    {
        let ghost colors = color_views(palette.colors());
        let ghost d0 = digests@;
        let character_data = self.as_character_data(palette)?;
        let ghost cd = character_data_view(character_data);
        let mut k: usize = 0;
        while k < self.screens.len()
            invariant
                colors == color_views(palette.colors()),
                character_fits(*self, colors),
                cd == character_data_view(character_data),
                d0 == old(digests)@,
                character_result(self.name_view(), self.image().bytes(), colors) == Ok::<
                    (Seq<char>, Seq<Seq<u8>>),
                    ErrorV,
                >(cd),
                k <= self.screens@.len(),
                screens_digest(d0, self.screens@, colors, cd, k as int) == (digests@, None::<ErrorV>),
            decreases self.screens@.len() - k,
        {
            let ghost before = digests@;
            assert(tiles_fit(self.screens@[k as int].image().bytes(), colors));
            let r = self.screens[k].digest(digests, palette, &character_data);
            if r.is_err() {
                proof {
                    lemma_screens_digest_stays(d0, self.screens@, colors, cd, k + 1, self.screens@.len() as int);
                }
                return r;
            }
            k += 1;
        }
        let ghost before = digests@;
        digests.characters_mut().push(character_data);
        assert(digests@.characters =~= before.characters.push(cd));
        Ok(())
    }

    /// The screens drawn from this image's tiles, to add to.
    pub fn screens_mut(&mut self) -> (r: &mut Vec<ScreenNode>)
        ensures
            r@ == old(self).screens(),
            final(self).screens() == final(r)@,
            final(self).name_view() == old(self).name_view(),
            final(self).image() == old(self).image(),
    {
        &mut self.screens
    }
}

proof fn lemma_screens_verify_stays(screens: Seq<ScreenNode>, n: int, m: int)
    requires
        0 <= n <= m,
        screens_verify(screens, n) is Some,
    ensures
        screens_verify(screens, m) == screens_verify(screens, n),
    decreases m - n,
{
    if n < m {
        lemma_screens_verify_stays(screens, n, m - 1);
    }
}

proof fn lemma_screens_digest_stays(
    d: DigestsV,
    screens: Seq<ScreenNode>,
    colors: Seq<(u8, u8, u8)>,
    cd: (Seq<char>, Seq<Seq<u8>>),
    n: int,
    m: int,
)
    requires
        0 <= n <= m,
        screens_digest(d, screens, colors, cd, n).1 is Some,
    ensures
        screens_digest(d, screens, colors, cd, m) == screens_digest(d, screens, colors, cd, n),
    decreases m - n,
{
    if n < m {
        lemma_screens_digest_stays(d, screens, colors, cd, n, m - 1);
    }
}

} // verus!
