//! One entry of a GBA screen block: a tile number, two flip flags and a palette bank.
use vstd::prelude::*;

verus! {

/// A screen-block entry.
#[derive(Copy, Clone, Debug, PartialEq, Eq, Structural)]
pub struct Character {
    pub tile_number: usize,
    pub horizontal_flip: bool,
    pub vertical_flip: bool,
    pub palette_number: usize,
}

pub open spec fn bit(b: bool) -> int {
    if b {
        1
    } else {
        0
    }
}

/// The half-word of an entry: tile number in bits 0-9, horizontal flip in bit 10,
/// vertical flip in bit 11, palette bank in bits 12-15. Out-of-range numbers are masked.
pub open spec fn character_word(c: Character) -> int {
    (c.tile_number % 1024) + 1024 * bit(c.horizontal_flip) + 2048 * bit(c.vertical_flip) + 4096 * (
    c.palette_number % 16)
}

/// The two little-endian bytes of an entry.
pub open spec fn character_bytes(c: Character) -> Seq<u8> {
    let w = character_word(c);
    seq![(w % 256) as u8, (w / 256) as u8]
}

/// The entry read back from two little-endian bytes.
pub open spec fn character_of_bytes(b0: u8, b1: u8) -> Character {
    let w = b0 + 256 * b1;
    Character {
        tile_number: (w % 1024) as usize,
        horizontal_flip: (w / 1024) % 2 == 1,
        vertical_flip: (w / 2048) % 2 == 1,
        palette_number: (w / 4096) as usize,
    }
}

/// The entry with every field zero.
pub open spec fn blank_character() -> Character {
    Character { tile_number: 0, horizontal_flip: false, vertical_flip: false, palette_number: 0 }
}

impl Character {
    pub fn new(
        tile_number: usize,
        horizontal_flip: bool,
        vertical_flip: bool,
        palette_number: usize,
    ) -> (c: Self)
        ensures
            c == (Character { tile_number, horizontal_flip, vertical_flip, palette_number }),
    {
        Character { tile_number, horizontal_flip, vertical_flip, palette_number }
    }

    pub fn tile_number(&self) -> (v: usize)
        ensures
            v == self.tile_number,
    {
        self.tile_number
    }

    pub fn horizontal_flip(&self) -> (v: bool)
        ensures
            v == self.horizontal_flip,
    {
        self.horizontal_flip
    }

    pub fn vertical_flip(&self) -> (v: bool)
        ensures
            v == self.vertical_flip,
    {
        self.vertical_flip
    }

    pub fn palette_number(&self) -> (v: usize)
        ensures
            v == self.palette_number,
    {
        self.palette_number
    }

    /// The two bytes that store this entry.
    pub fn to_bytes(&self) -> (bytes: [u8; 2])
        ensures
            bytes@ == character_bytes(*self),
    {
        let tile = self.tile_number;
        let pal = self.palette_number;
        let t = (tile & 0x3ff) as u16;
        let p = (pal & 0xf) as u16;
        assert(t == tile % 1024 && p == pal % 16) by (bit_vector)
            requires
                t == (tile & 0x3ff) as u16,
                p == (pal & 0xf) as u16,
        ;
        let h: u16 = if self.horizontal_flip { 1 } else { 0 };
        let v: u16 = if self.vertical_flip { 1 } else { 0 };
        let w: u16 = t | (h << 10u16) | (v << 11u16) | (p << 12u16);
        assert(w == t + 1024 * h + 2048 * v + 4096 * p) by (bit_vector)
            requires
                t < 1024,
                h < 2,
                v < 2,
                p < 16,
                w == t | (h << 10u16) | (v << 11u16) | (p << 12u16),
        ;
        let lo = (w & 0xff) as u8;
        let hi = (w >> 8u16) as u8;
        assert(lo == w % 256 && hi == w / 256) by (bit_vector)
            requires
                lo == (w & 0xff) as u8,
                hi == (w >> 8u16) as u8,
        ;
        [lo, hi]
    }

    /// Reads an entry from two little-endian bytes.
    pub fn from_bytes(bytes: [u8; 2]) -> (c: Character)
        ensures
            c == character_of_bytes(bytes@[0], bytes@[1]),
    {
        let b0 = bytes[0];
        let b1 = bytes[1];
        let w: u16 = (b0 as u16) | ((b1 as u16) << 8u16);
        assert(w == b0 + 256 * b1) by (bit_vector)
            requires
                w == (b0 as u16) | ((b1 as u16) << 8u16),
        ;
        let t = w & 0x3ff;
        let h = w & 0x400 > 0;
        let v = w & 0x800 > 0;
        let p = (w & 0xf000) >> 12u16;
        assert(t == w % 1024 && h == ((w / 1024) % 2 == 1) && v == ((w / 2048) % 2 == 1) && p == w
            / 4096) by (bit_vector)
            requires
                t == w & 0x3ff,
                h == (w & 0x400 > 0),
                v == (w & 0x800 > 0),
                p == (w & 0xf000) >> 12u16,
        ;
        Character {
            tile_number: t as usize,
            horizontal_flip: h,
            vertical_flip: v,
            palette_number: p as usize,
        }
    }
}

impl Default for Character {
    fn default() -> (c: Character)
        ensures
            c == blank_character(),
    {
        Character { tile_number: 0, horizontal_flip: false, vertical_flip: false, palette_number: 0 }
    }
}

impl From<&Character> for [u8; 2] {
    fn from(c: &Character) -> (bytes: [u8; 2]) {
        c.to_bytes()
    }
}

impl vstd::std_specs::convert::FromSpecImpl<&Character> for [u8; 2] {
    open spec fn obeys_from_spec() -> bool {
        true
    }

    open spec fn from_spec(c: &Character) -> [u8; 2] {
        let s = character_bytes(*c);
        [s[0], s[1]]
    }
}

impl From<[u8; 2]> for Character {
    fn from(bytes: [u8; 2]) -> (c: Character) {
        Character::from_bytes(bytes)
    }
}

impl vstd::std_specs::convert::FromSpecImpl<[u8; 2]> for Character {
    open spec fn obeys_from_spec() -> bool {
        true
    }

    open spec fn from_spec(bytes: [u8; 2]) -> Character {
        character_of_bytes(bytes@[0], bytes@[1])
    }
}

/// Reading back the bytes written for an entry whose numbers fit their fields gives the entry.
pub proof fn lemma_character_bytes_round_trip(c: Character)
    requires
        c.tile_number < 1024,
        c.palette_number < 16,
    ensures
        character_bytes(c).len() == 2,
        character_of_bytes(character_bytes(c)[0], character_bytes(c)[1]) == c,
{
    let t = c.tile_number as u32;
    let h = bit(c.horizontal_flip) as u32;
    let v = bit(c.vertical_flip) as u32;
    let p = c.palette_number as u32;
    let w: u32 = (t + 1024 * h + 2048 * v + 4096 * p) as u32;
    assert((w % 256) + 256 * (w / 256) == w && w / 256 < 256 && w % 1024 == t && (w / 1024) % 2
        == h && (w / 2048) % 2 == v && w / 4096 == p) by (bit_vector)
        requires
            t < 1024,
            h < 2,
            v < 2,
            p < 16,
            w == t + 1024 * h + 2048 * v + 4096 * p,
    ;
    assert(character_word(c) == w);
}

/// Writing the entry read from two bytes gives back the same bytes.
pub proof fn lemma_bytes_character_round_trip(b0: u8, b1: u8)
    ensures
        character_bytes(character_of_bytes(b0, b1)) == seq![b0, b1],
{
    let c = character_of_bytes(b0, b1);
    let x: u32 = (b0 + 256 * b1) as u32;
    assert((x % 1024) + 1024 * ((x / 1024) % 2) + 2048 * ((x / 2048) % 2) + 4096 * ((x / 4096)
        % 16) == x && x / 4096 < 16) by (bit_vector)
        requires
            x < 65536,
    ;
    assert(x % 256 == b0 && x / 256 == b1);
    assert(character_word(c) == x);
    assert(character_bytes(c) =~= seq![b0, b1]);
}

} // verus!
