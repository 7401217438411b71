//! A named list of screen-block entries, as written to a `.bin` screen block.
use vstd::prelude::*;
use crate::character::{Character, blank_character, character_bytes};
use crate::trim::{trim_trailing, concat_all};
use crate::savable::Savable;

verus! {

/// The blank test used when trimming entries: the all-zero entry.
pub open spec fn character_blank() -> spec_fn(Character) -> bool {
    |c: Character| c == blank_character()
}

/// The blank test used when trimming stored bytes: a pair of zero bytes.
pub open spec fn zero_pair() -> spec_fn(Seq<u8>) -> bool {
    |p: Seq<u8>| p == seq![0u8, 0u8]
}

/// The bytes of each entry.
pub open spec fn character_pairs(cs: Seq<Character>) -> Seq<Seq<u8>> {
    cs.map_values(|c: Character| character_bytes(c))
}

/// The stored bytes of a list of entries: two per entry, without the trailing entries whose
/// two bytes are zero.
pub open spec fn screen_bytes(cs: Seq<Character>) -> Seq<u8> {
    concat_all(trim_trailing(character_pairs(cs), zero_pair()))
}

pub struct ScreenData {
    name: String,
    characters: Vec<Character>,
}

impl ScreenData {
    pub closed spec fn name_view(&self) -> Seq<char> {
        self.name@
    }

    pub closed spec fn characters(&self) -> Seq<Character> {
        self.characters@
    }

    /// Screen data of `characters`, without the all-zero entries at its end.
    pub fn with_characters(name: &str, characters: Vec<Character>) -> (s: Self)
        ensures
            s.name_view() == name@,
            s.characters() == trim_trailing(characters@, character_blank()),
    {
        let ghost blank = character_blank();
        let ghost orig = characters@;
        let mut characters = characters;
        loop
            invariant
                blank == character_blank(),
                characters@ == orig.take(characters@.len() as int),
                characters@.len() <= orig.len(),
                trim_trailing(orig, blank) == trim_trailing(characters@, blank),
            ensures
                characters@.len() == 0 || !blank(characters@.last()),
            decreases characters@.len(),
        {
            let n = characters.len();
            if n == 0 {
                break ;
            }
            let last = characters[n - 1];
            if last.tile_number != 0 || last.horizontal_flip || last.vertical_flip
                || last.palette_number != 0 {
                break ;
            }
            let ghost before = characters@;
            proof {
                crate::trim::lemma_trim_drop_blank(before, blank);
            }
            characters.pop();
            assert(characters@ =~= orig.take(characters@.len() as int));
        }
        proof {
            crate::trim::lemma_trim_untrimmed(characters@, blank);
        }
        ScreenData { name: name.to_owned(), characters }
    }

    pub fn len(&self) -> (n: usize)
        ensures
            n == self.characters().len(),
    {
        self.characters.len()
    }

    /// The entry at `index`, if there is one.
    pub fn get(&self, index: usize) -> (c: Option<&Character>)
        ensures
            index < self.characters().len() ==> c == Some(&self.characters()[index as int]),
            index >= self.characters().len() ==> c is None,
    {
        if index < self.characters.len() {
            Some(&self.characters[index])
        } else {
            None
        }
    }

    /// The first entry, if any.
    pub fn first(&self) -> (c: Option<&Character>)
        ensures
            self.characters().len() > 0 ==> c == Some(&self.characters()[0]),
            self.characters().len() == 0 ==> c is None,
    {
        self.get(0)
    }
}

pub open spec fn words_view(ws: Seq<[u8; 2]>) -> Seq<Seq<u8>> {
    ws.map_values(|w: [u8; 2]| w@)
}

/// The two-byte pairs of `cs`, without the trailing zero pairs, written out in order.
pub fn characters_to_bytes(cs: &Vec<Character>) -> (data: Vec<u8>)
    ensures
        data@ == screen_bytes(cs@),
{
    let ghost pairs = character_pairs(cs@);
    let ghost blank = zero_pair();
    let mut words: Vec<[u8; 2]> = Vec::new();
    let mut i: usize = 0;
    while i < cs.len()
        invariant
            i <= cs@.len(),
            pairs == character_pairs(cs@),
            words@.len() == i,
            forall|k: int| 0 <= k < i ==> #[trigger] words@[k]@ == pairs[k],
        decreases cs@.len() - i,
    {
        words.push(cs[i].to_bytes());
        i += 1;
    }
    let ghost full = words_view(words@);
    assert(full =~= pairs);
    loop
        invariant
            blank == zero_pair(),
            words_view(words@) == full.take(words@.len() as int),
            words@.len() <= full.len(),
            trim_trailing(full, blank) == trim_trailing(words_view(words@), blank),
        ensures
            words@.len() == 0 || !blank(words_view(words@).last()),
        decreases words@.len(),
    {
        let n = words.len();
        if n == 0 {
            break ;
        }
        let w = words[n - 1];
        if w[0] != 0 || w[1] != 0 {
            assert(w@ != seq![0u8, 0u8]);
            break ;
        }
        let ghost before = words_view(words@);
        proof {
            assert(w@ =~= seq![0u8, 0u8]);
            crate::trim::lemma_trim_drop_blank(before, blank);
        }
        words.pop();
        assert(words_view(words@) =~= before.drop_last());
        assert(words_view(words@) =~= full.take(words@.len() as int));
    }
    let ghost kept = words_view(words@);
    proof {
        crate::trim::lemma_trim_untrimmed(kept, blank);
    }
    let mut out: Vec<u8> = Vec::new();
    let mut k: usize = 0;
    while k < words.len()
        invariant
            k <= words@.len(),
            kept == words_view(words@),
            out@ == concat_all(kept.take(k as int)),
        decreases words@.len() - k,
    {
        let w = words[k];
        out.push(w[0]);
        out.push(w[1]);
        proof {
            assert(kept.take(k + 1).drop_last() =~= kept.take(k as int));
            assert(kept[k as int] == w@);
            assert(w@ =~= seq![w[0], w[1]]);
        }
        k += 1;
    }
    assert(kept.take(k as int) =~= kept);
    out
}

impl Savable for ScreenData {
    open spec fn spec_name(&self) -> Seq<char> {
        self.name_view()
    }

    fn name(&self) -> (n: &str) {
        self.name.as_str()
    }

    /// Two bytes per entry, without the trailing entries stored as two zero bytes.
    fn as_data(&self) -> (data: Vec<u8>)
        ensures
            data@ == screen_bytes(self.characters()),
    {
        characters_to_bytes(&self.characters)
    }
}

} // verus!
