//! Editable screen data: a named 32 by 32 grid of screen entries.
use vstd::prelude::*;
use crate::character::{Character, blank_character, character_bytes, character_of_bytes, lemma_character_bytes_round_trip};
use crate::savable::Savable;
use crate::screen::{character_pairs, characters_to_bytes, screen_bytes, zero_pair};
use crate::trim::{lemma_concat_all_part, lemma_concat_all_uniform, lemma_trim_trailing, trim_trailing, trimmed_len};

verus! {

/// The file name ending of saved screen data.
pub open spec fn screen_data_suffix() -> Seq<char> {
    seq!['_', 's', 'c', 'r', 'e', 'e', 'n', '_', 'd', 'a', 't', 'a', '.', 'b', 'i', 'n']
}

/// The entries read from `data`, 2 bytes each and row by row, the rest of the grid blank.
pub open spec fn grid_of_bytes(data: Seq<u8>) -> Seq<Character> {
    Seq::new(
        1024,
        |i: int|
            if i < data.len() / 2 {
                character_of_bytes(data[2 * i], data[2 * i + 1])
            } else {
                blank_character()
            },
    )
}

/// A named screen block as edited: 32 rows of 32 entries.
pub struct ScreenData {
    name: String,
    characters: Vec<Character>,
}

impl ScreenData {
    /// A screen block always has 32 by 32 entries.
    #[verifier::type_invariant]
    pub open spec fn full(&self) -> bool {
        self.characters().len() == 1024
    }

    pub closed spec fn name_view(&self) -> Seq<char> {
        self.name@
    }

    /// The entries, row by row.
    pub closed spec fn characters(&self) -> Seq<Character> {
        self.characters@
    }

    /// A screen block of blank entries.
    pub fn new(name: &str) -> (s: Self)
        ensures
            s.name_view() == name@,
            s.characters() == Seq::new(1024, |i: int| blank_character()),
    {
        let mut characters: Vec<Character> = Vec::new();
        let mut i: usize = 0;
        while i < 1024
            invariant
                i <= 1024,
                characters@ == Seq::new(i as nat, |k: int| blank_character()),
            decreases 1024 - i,
        {
            characters.push(Character::default());
            assert(characters@ =~= Seq::new((i + 1) as nat, |k: int| blank_character()));
            i += 1;
        }
        ScreenData { name: name.to_owned(), characters }
    }

    /// The entry in column `x` of row `y`.
    pub fn get_character(&self, x: usize, y: usize) -> (c: &Character)
        requires
            x < 32,
            y < 32,
        ensures
            *c == self.characters()[32 * y + x],
    {
        proof {
            use_type_invariant(self);
        }
        &self.characters[32 * y + x]
    }

    /// Sets the entry in column `x` of row `y`.
    pub fn set_character(&mut self, character: Character, x: usize, y: usize)
        requires
            x < 32,
            y < 32,
        ensures
            final(self).name_view() == old(self).name_view(),
            final(self).characters() == old(self).characters().update(32 * y + x, character),
        no_unwind
    {
        proof {
            use_type_invariant(&*self);
        }
        self.characters[32 * y + x] = character;
    }

    /// The file name ending of saved screen data.
    pub fn suffix() -> (s: &'static str)
        ensures
            s@ == screen_data_suffix(),
    {
        let s = "_screen_data.bin";
        proof {
            reveal_strlit("_screen_data.bin");
        }
        s
    }

    /// The screen block stored in `data`, 2 bytes per entry, row by row; entries past the data
    /// are blank. The data holds at most 32 by 32 entries.
    pub fn create(name: &str, data: &[u8]) -> (s: Self)
        requires
            data@.len() / 2 <= 1024,
        ensures
            s.name_view() == name@,
            s.characters() == grid_of_bytes(data@),
    {
        let len = data.len();
        let n = len / 2;
        let mut characters: Vec<Character> = Vec::new();
        let mut i: usize = 0;
        while i < 1024
            invariant
                len == data@.len(),
                n == data@.len() / 2,
                n <= 1024,
                i <= 1024,
                characters@ == grid_of_bytes(data@).take(i as int),
            decreases 1024 - i,
        {
            let c = if i < n {
                assert(2 * i + 1 < data@.len()) by (nonlinear_arith)
                    requires
                        i < n,
                        n == data@.len() / 2,
                ;
                Character::from_bytes([data[2 * i], data[2 * i + 1]])
            } else {
                Character::default()
            };
            characters.push(c);
            assert(characters@ =~= grid_of_bytes(data@).take(i + 1));
            i += 1;
        }
        assert(grid_of_bytes(data@).take(1024) =~= grid_of_bytes(data@));
        ScreenData { name: name.to_owned(), characters }
    }
}

impl Default for ScreenData {
    fn default() -> (s: Self)
        ensures
            s.name_view() == Seq::<char>::empty(),
            s.characters() == Seq::new(1024, |i: int| blank_character()),
    {
        let s = ScreenData::new("");
        proof {
            reveal_strlit("");
        }
        s
    }
}

impl Savable for ScreenData {
    open spec fn spec_name(&self) -> Seq<char> {
        self.name_view()
    }

    fn name(&self) -> (n: &str) {
        self.name.as_str()
    }

    /// Two bytes per entry, row by row, without the trailing entries stored as two zero bytes.
    fn as_data(&self) -> (data: Vec<u8>)
        ensures
            data@ == screen_bytes(self.characters()),
    {
        characters_to_bytes(&self.characters)
    }
}

/// Reading back the bytes a list of at most 32 by 32 entries is saved as gives the same
/// entries, the rest of the grid blank, as long as every tile number fits in 10 bits and every
/// palette bank in 4.
pub proof fn lemma_screen_round_trip(cs: Seq<Character>)
    requires
        cs.len() <= 1024,
        forall|k: int| 0 <= k < cs.len() ==> (#[trigger] cs[k]).tile_number < 1024 && cs[k].palette_number < 16,
    ensures
        grid_of_bytes(screen_bytes(cs)) == Seq::new(1024, |i: int| if i < cs.len() { cs[i] } else { blank_character() }),
        screen_bytes(cs).len() <= 2 * cs.len(),
{
    let pairs = character_pairs(cs);
    let blank = zero_pair();
    lemma_trim_trailing(pairs, blank);
    let t = trimmed_len(pairs, blank) as int;
    let kept = trim_trailing(pairs, blank);
    assert forall|k: int| 0 <= k < kept.len() implies #[trigger] kept[k].len() == 2 by {
        lemma_character_bytes_round_trip(cs[k]);
    }
    lemma_concat_all_uniform(kept, 2);
    let data = screen_bytes(cs);
    assert(data.len() == 2 * t);
    let expected = Seq::new(1024, |i: int| if i < cs.len() { cs[i] } else { blank_character() });
    assert forall|k: int| 0 <= k < 1024 implies #[trigger] grid_of_bytes(data)[k] == expected[k] by {
        if k < t {
            lemma_character_bytes_round_trip(cs[k]);
            lemma_concat_all_part(kept, k);
            assert forall|i: int| 0 <= i < kept.take(k).len() implies #[trigger] kept.take(k)[i].len() == 2 by {
                lemma_character_bytes_round_trip(cs[i]);
            }
            lemma_concat_all_uniform(kept.take(k), 2);
            assert(data.subrange(2 * k, 2 * k + 2) == kept[k]);
            assert(data[2 * k] == kept[k][0] && data[2 * k + 1] == kept[k][1]);
        } else if k < cs.len() {
            lemma_character_bytes_round_trip(cs[k]);
            assert(blank(pairs[k]));
            assert(character_bytes(cs[k]) == seq![0u8, 0u8]);
        }
    }
    assert(grid_of_bytes(data) =~= expected);
}

} // verus!
