//! What a project turns into: palettes, character data, screen data and boops, ready to save.
use vstd::prelude::*;
use crate::boop::{Boops, BoopV, boops_view};
use crate::character::Character;
use crate::character_data::CharacterData;
use crate::color::Color;
use crate::palette::Palette;
use crate::screen::ScreenData;

verus! {

/// The contents of the digests: each palette, character data, screen data and boops list by
/// name and contents, in the order they were added.
pub struct DigestsV {
    pub palettes: Seq<(Seq<char>, Seq<Color>)>,
    pub characters: Seq<(Seq<char>, Seq<Seq<u8>>)>,
    pub screens: Seq<(Seq<char>, Seq<Character>)>,
    pub boops: Seq<(Seq<char>, Seq<BoopV>)>,
}

/// The empty digests.
pub open spec fn empty_digests() -> DigestsV {
    DigestsV {
        palettes: Seq::empty(),
        characters: Seq::empty(),
        screens: Seq::empty(),
        boops: Seq::empty(),
    }
}

pub open spec fn palette_view(p: Palette) -> (Seq<char>, Seq<Color>) {
    (p.name_view(), p.colors())
}

pub open spec fn character_data_view(c: CharacterData) -> (Seq<char>, Seq<Seq<u8>>) {
    (c.name_view(), c.tiles())
}

pub open spec fn screen_data_view(s: ScreenData) -> (Seq<char>, Seq<Character>) {
    (s.name_view(), s.characters())
}

pub open spec fn boops_list_view(b: Boops) -> (Seq<char>, Seq<BoopV>) {
    (b.name@, boops_view(b.boops@))
}

/// Everything a project digests to.
pub struct Digests {
    palettes: Vec<Palette>,
    characters: Vec<CharacterData>,
    screens: Vec<ScreenData>,
    boops: Vec<Boops>,
}

impl Digests {
    pub closed spec fn palette_list(&self) -> Seq<Palette> {
        self.palettes@
    }

    pub closed spec fn character_list(&self) -> Seq<CharacterData> {
        self.characters@
    }

    pub closed spec fn screen_list(&self) -> Seq<ScreenData> {
        self.screens@
    }

    pub closed spec fn boops_list(&self) -> Seq<Boops> {
        self.boops@
    }
}

impl View for Digests {
    type V = DigestsV;

    open spec fn view(&self) -> DigestsV {
        DigestsV {
            palettes: self.palette_list().map_values(|p: Palette| palette_view(p)),
            characters: self.character_list().map_values(|c: CharacterData| character_data_view(c)),
            screens: self.screen_list().map_values(|s: ScreenData| screen_data_view(s)),
            boops: self.boops_list().map_values(|b: Boops| boops_list_view(b)),
        }
    }
}

impl Default for Digests {
    fn default() -> (d: Self)
        ensures
            d@ == empty_digests(),
    {
        let d = Digests {
            palettes: Vec::new(),
            characters: Vec::new(),
            screens: Vec::new(),
            boops: Vec::new(),
        };
        assert(d@.palettes =~= Seq::<(Seq<char>, Seq<Color>)>::empty());
        assert(d@.characters =~= Seq::<(Seq<char>, Seq<Seq<u8>>)>::empty());
        assert(d@.screens =~= Seq::<(Seq<char>, Seq<Character>)>::empty());
        assert(d@.boops =~= Seq::<(Seq<char>, Seq<BoopV>)>::empty());
        d
    }
}

impl Digests {
    /// The palettes, to add to.
    pub fn palettes_mut(&mut self) -> (r: &mut Vec<Palette>)
        ensures
            r@ == old(self).palette_list(),
            final(self).palette_list() == final(r)@,
            final(self).character_list() == old(self).character_list(),
            final(self).screen_list() == old(self).screen_list(),
            final(self).boops_list() == old(self).boops_list(),
    {
        &mut self.palettes
    }

    /// The character data, to add to.
    pub fn characters_mut(&mut self) -> (r: &mut Vec<CharacterData>)
        ensures
            r@ == old(self).character_list(),
            final(self).character_list() == final(r)@,
            final(self).palette_list() == old(self).palette_list(),
            final(self).screen_list() == old(self).screen_list(),
            final(self).boops_list() == old(self).boops_list(),
    {
        &mut self.characters
    }

    /// The screen data, to add to.
    pub fn screens_mut(&mut self) -> (r: &mut Vec<ScreenData>)
        ensures
            r@ == old(self).screen_list(),
            final(self).screen_list() == final(r)@,
            final(self).palette_list() == old(self).palette_list(),
            final(self).character_list() == old(self).character_list(),
            final(self).boops_list() == old(self).boops_list(),
    {
        &mut self.screens
    }

    /// The boops lists, to add to.
    pub fn boops_mut(&mut self) -> (r: &mut Vec<Boops>)
        ensures
            r@ == old(self).boops_list(),
            final(self).boops_list() == final(r)@,
            final(self).palette_list() == old(self).palette_list(),
            final(self).character_list() == old(self).character_list(),
            final(self).screen_list() == old(self).screen_list(),
    {
        &mut self.boops
    }
}

} // verus!
