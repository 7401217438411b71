//! A palette image of a project, the palette it turns into, and the character images drawn
//! with it.
use vstd::prelude::*;
use crate::color::{Color, color_of};
use crate::error::{Error, ErrorV};
use crate::palette::{Palette, black_blank};
use crate::project::character::{
    CharacterNode, character_digest, character_fits, character_tiles_fit, character_verify,
};
use crate::project::digest::{Digests, DigestsV, palette_view};
use crate::project::{RgbImage, color_views, image_tiles_fit, pixel_color, tiles_fit};
use crate::trim::trim_trailing;

verus! {

broadcast use crate::color::lemma_color_of, crate::color::Color::lemma_view_eq;

/// The color of every pixel of an image, at 5 bits per channel.
pub open spec fn image_colors(data: Seq<u8>) -> Seq<Color> {
    Seq::new(data.len() / 3, |k: int| color_of(pixel_color(data, k)))
}

/// The palette a palette image turns into, by name and colors: its pixel colors without the
/// black ones at the end.
pub open spec fn palette_result(name: Seq<char>, data: Seq<u8>) -> (Seq<char>, Seq<Color>) {
    (name, trim_trailing(image_colors(data), black_blank()))
}

/// The digests after adding the first `n` character images in turn, stopping at the first
/// error.
pub open spec fn characters_digest(
    d: DigestsV,
    nodes: Seq<CharacterNode>,
    colors: Seq<(u8, u8, u8)>,
    n: int,
) -> (DigestsV, Option<ErrorV>)
    decreases n,
{
    if n <= 0 {
        (d, None)
    } else {
        let (d1, e1) = characters_digest(d, nodes, colors, n - 1);
        if e1 is Some {
            (d1, e1)
        } else {
            character_digest(d1, nodes[n - 1], colors)
        }
    }
}

/// The digests after adding a palette image's character images, then its palette; or the
/// digests at the first error, with that error.
pub open spec fn palette_digest(d: DigestsV, node: PaletteNode) -> (DigestsV, Option<ErrorV>) {
    let p = palette_result(node.name_view(), node.image().bytes());
    let (d1, e1) = characters_digest(
        d,
        node.character_maps(),
        color_views(p.1),
        node.character_maps().len() as int,
    );
    if e1 is Some {
        (d1, e1)
    } else {
        (DigestsV { palettes: d1.palettes.push(p), ..d1 }, None)
    }
}

/// The first dimension error among the first `n` character images and their screens.
pub open spec fn characters_verify(nodes: Seq<CharacterNode>, n: int) -> Option<ErrorV>
    decreases n,
{
    if n <= 0 {
        None
    } else {
        match characters_verify(nodes, n - 1) {
            Some(e) => Some(e),
            None => character_verify(nodes[n - 1]),
        }
    }
}

/// The first dimension error of a palette image, its character images and their screens.
pub open spec fn palette_verify(node: PaletteNode) -> Option<ErrorV> {
    let img = node.image();
    if img.width_view() != 16 || img.height_view() != 16 {
        Some(
            ErrorV::PaletteDimensions { width: img.width_view() as u32, height: img.height_view() as u32 },
        )
    } else {
        characters_verify(node.character_maps(), node.character_maps().len() as int)
    }
}

/// Every image drawn with a palette image cuts cleanly into tiles once its colors are found.
pub open spec fn palette_fits(node: PaletteNode) -> bool {
    let colors = color_views(palette_result(node.name_view(), node.image().bytes()).1);
    forall|k: int|
        0 <= k < node.character_maps().len() ==> character_fits(#[trigger] node.character_maps()[k], colors)
}

/// The character images drawn with a palette image, and their screens, cut cleanly into tiles.
pub open spec fn palette_tiles_fit(node: PaletteNode) -> bool {
    forall|k: int| 0 <= k < node.character_maps().len() ==> character_tiles_fit(#[trigger] node.character_maps()[k])
}

/// Images that cut cleanly into tiles do so whatever the palette.
pub proof fn lemma_palette_tiles_fit(node: PaletteNode)
    requires
        palette_tiles_fit(node),
    ensures
        palette_fits(node),
{
    let colors = color_views(palette_result(node.name_view(), node.image().bytes()).1);
    assert forall|k: int| 0 <= k < node.character_maps().len() implies character_fits(
        #[trigger] node.character_maps()[k],
        colors,
    ) by {
        let c = node.character_maps()[k];
        assert(character_tiles_fit(c));
        assert forall|j: int| 0 <= j < c.screens().len() implies tiles_fit(
            #[trigger] c.screens()[j].image().bytes(),
            colors,
        ) by {
            assert(image_tiles_fit(c.screens()[j].image()));
        }
    }
}

/// A palette image of a project with the character images drawn with it.
pub struct PaletteNode {
    name: String,
    image: RgbImage,
    character_maps: Vec<CharacterNode>,
}

impl PaletteNode {
    pub closed spec fn name_view(&self) -> Seq<char> {
        self.name@
    }

    pub closed spec fn image(&self) -> RgbImage {
        self.image
    }

    pub closed spec fn character_maps(&self) -> Seq<CharacterNode> {
        self.character_maps@
    }

    pub fn new(name: String, image: RgbImage) -> (n: Self)
        ensures
            n.name_view() == name@,
            n.image() == image,
            n.character_maps() == Seq::<CharacterNode>::empty(),
    {
        PaletteNode { name, image, character_maps: Vec::new() }
    }

    /// A palette image must be 16 by 16 pixels, and its character images and their screens
    /// 256 by 256.
    pub fn verify(&self) -> (res: Result<(), Error>)
        ensures
            match palette_verify(*self) {
                None => res is Ok,
                Some(e) => res matches Err(x) && x@ == e,
            },
            res is Ok ==> palette_tiles_fit(*self),
    {
        let w = self.image.width();
        let h = self.image.height();
        if w != 16 || h != 16 {
            return Err(Error::PaletteDimensions { width: w, height: h });
        }
        let mut k: usize = 0;
        while k < self.character_maps.len()
            invariant
                self.image().width_view() == 16 && self.image().height_view() == 16,
                k <= self.character_maps@.len(),
                characters_verify(self.character_maps@, k as int) is None,
                forall|j: int| 0 <= j < k ==> character_tiles_fit(#[trigger] self.character_maps@[j]),
            decreases self.character_maps@.len() - k,
        {
            let r = self.character_maps[k].verify();
            if r.is_err() {
                proof {
                    lemma_characters_verify_stays(self.character_maps@, k + 1, self.character_maps@.len() as int);
                }
                return r;
            }
            k += 1;
        }
        Ok(())
    }

    /// The palette of this image: the color of each pixel at 5 bits per channel, row by row,
    /// without the black ones at the end.
    pub fn as_palette(&self) -> (res: Result<Palette, Error>)
        ensures
            res matches Ok(p) && palette_view(p) == palette_result(self.name_view(), self.image().bytes()),
    {
        let data = self.image.data();
        let len = data.len();
        let n = len / 3;
        let mut colors: Vec<Color> = Vec::new();
        let mut k: usize = 0;
        while k < n
            invariant
                data@ == self.image().bytes(),
                len == data@.len(),
                n == data@.len() / 3,
                k <= n,
                colors@ == image_colors(data@).take(k as int),
            decreases n - k,
        {
            assert(3 * k + 2 < data@.len()) by (nonlinear_arith)
                requires
                    k < n,
                    n == data@.len() / 3,
            ;
            let base = 3 * k;
            let c = Color::new(data[base] / 8, data[base + 1] / 8, data[base + 2] / 8).unwrap();
            assert(c@ == color_of(pixel_color(data@, k as int))@);
            colors.push(c);
            assert(colors@ =~= image_colors(data@).take(k + 1));
            k += 1;
        }
        assert(colors@ =~= image_colors(data@));
        Ok(Palette::with_colors(self.name.as_str(), colors))
    }

    /// Adds the digests of each character image, then the palette of this image, to
    /// `digests`; stops at the first error.
    pub fn digest(&self, digests: &mut Digests) -> (res: Result<(), Error>)
        requires
            palette_fits(*self),
        ensures
            ({
                let (d, e) = palette_digest(old(digests)@, *self);
                &&& final(digests)@ == d
                &&& match e {
                    None => res is Ok,
                    Some(x) => res matches Err(y) && y@ == x,
                }
            }),
    {
        let ghost d0 = digests@;
        let palette = self.as_palette()?;
        let ghost pv = palette_view(palette);
        let ghost colors = color_views(palette.colors());
        let mut k: usize = 0;
        while k < self.character_maps.len()
            invariant
                d0 == old(digests)@,
                pv == palette_view(palette),
                pv == palette_result(self.name_view(), self.image().bytes()),
                colors == color_views(palette.colors()),
                palette_fits(*self),
                k <= self.character_maps@.len(),
                characters_digest(d0, self.character_maps@, colors, k as int) == (digests@, None::<ErrorV>),
            decreases self.character_maps@.len() - k,
        {
            assert(character_fits(self.character_maps@[k as int], colors));
            let r = self.character_maps[k].digest(digests, &palette);
            if r.is_err() {
                proof {
                    lemma_characters_digest_stays(d0, self.character_maps@, colors, k + 1, self.character_maps@.len() as int);
                }
                return r;
            }
            k += 1;
        }
        let ghost before = digests@;
        digests.palettes_mut().push(palette);
        assert(digests@.palettes =~= before.palettes.push(pv));
        Ok(())
    }

    /// The character images drawn with this palette, to add to.
    pub fn character_maps_mut(&mut self) -> (r: &mut Vec<CharacterNode>)
        ensures
            r@ == old(self).character_maps(),
            final(self).character_maps() == final(r)@,
            final(self).name_view() == old(self).name_view(),
            final(self).image() == old(self).image(),
    {
        &mut self.character_maps
    }
}

proof fn lemma_characters_verify_stays(nodes: Seq<CharacterNode>, n: int, m: int)
    requires
        0 <= n <= m,
        characters_verify(nodes, n) is Some,
    ensures
        characters_verify(nodes, m) == characters_verify(nodes, n),
    decreases m - n,
{
    if n < m {
        lemma_characters_verify_stays(nodes, n, m - 1);
    }
}

proof fn lemma_characters_digest_stays(
    d: DigestsV,
    nodes: Seq<CharacterNode>,
    colors: Seq<(u8, u8, u8)>,
    n: int,
    m: int,
)
    requires
        0 <= n <= m,
        characters_digest(d, nodes, colors, n).1 is Some,
    ensures
        characters_digest(d, nodes, colors, m) == characters_digest(d, nodes, colors, n),
    decreases m - n,
{
    if n < m {
        lemma_characters_digest_stays(d, nodes, colors, n, m - 1);
    }
}

} // verus!
