//! An 8x8 tile of 4-bit palette indexes, stored row by row.
use vstd::prelude::*;

verus! {

/// An 8x8 tile; `palette_indexes[y * 8 + x]` is the pixel in row `y`, column `x`.
#[derive(Debug, PartialEq, Eq)]
pub struct Tile {
    pub palette_indexes: [u8; 64],
}

impl View for Tile {
    type V = Seq<u8>;

    open spec fn view(&self) -> Seq<u8> {
        self.palette_indexes@
    }
}

/// The 32 bytes of a tile: pixel `2i` in the low nibble of byte `i`, pixel `2i + 1` in the
/// high nibble. Indexes above 15 are masked to 4 bits.
pub open spec fn tile_bytes(p: Seq<u8>) -> Seq<u8> {
    Seq::new(32, |i: int| ((p[2 * i] % 16) + 16 * (p[2 * i + 1] % 16)) as u8)
}

/// The 64 pixels held by 32 packed bytes.
pub open spec fn tile_of_bytes(b: Seq<u8>) -> Seq<u8> {
    Seq::new(
        64,
        |i: int|
            if i % 2 == 0 {
                (b[i / 2] % 16) as u8
            } else {
                (b[i / 2] / 16) as u8
            },
    )
}

/// The pixel that lands at position `i` when a tile is mirrored.
pub open spec fn flipped_index(i: int, hflip: bool, vflip: bool) -> int {
    let row = i / 8;
    let col = i % 8;
    (if vflip {
        7 - row
    } else {
        row
    }) * 8 + (if hflip {
        7 - col
    } else {
        col
    })
}

/// A tile mirrored left-right when `hflip` and top-bottom when `vflip`.
pub open spec fn flipped(p: Seq<u8>, hflip: bool, vflip: bool) -> Seq<u8> {
    Seq::new(64, |i: int| p[flipped_index(i, hflip, vflip)])
}

/// Every index of a tile fits in 4 bits.
pub open spec fn fits_nibbles(p: Seq<u8>) -> bool {
    forall|i: int| 0 <= i < p.len() ==> #[trigger] p[i] < 16
}

/// A tile whose pixels all use palette entry 0.
pub open spec fn is_blank_tile(p: Seq<u8>) -> bool {
    forall|i: int| 0 <= i < p.len() ==> #[trigger] p[i] == 0
}

impl Tile {
    /// Whether every pixel uses palette entry 0.
    pub fn is_blank(&self) -> (b: bool)
        ensures
            b == is_blank_tile(self@),
            b <==> (forall|i: int| 0 <= i < 64 ==> self@[i] == 0u8),
    {
        let mut i: usize = 0;
        while i < 64
            invariant
                i <= 64,
                self@.len() == 64,
                forall|k: int| 0 <= k < i ==> self@[k] == 0,
            decreases 64 - i,
        {
            if self.palette_indexes[i] != 0 {
                return false;
            }
            i += 1;
        }
        true
    }

    pub fn new(palette_indexes: [u8; 64]) -> (t: Self)
        ensures
            t@ == palette_indexes@,
    {
        Tile { palette_indexes }
    }

    /// The pixel at linear position `index`.
    pub fn get(&self, index: usize) -> (p: u8)
        requires
            index < 64,
        ensures
            p == self@[index as int],
    {
        self.palette_indexes[index]
    }

    /// The 32 bytes that store this tile.
    pub fn to_bytes(&self) -> (bytes: [u8; 32])
        ensures
            bytes@ == tile_bytes(self@),
    {
        let mut out = [0u8; 32];
        let mut i: usize = 0;
        while i < 32
            invariant
                i <= 32,
                out@.len() == 32,
                self@.len() == 64,
                forall|k: int| 0 <= k < i ==> out@[k] == tile_bytes(self@)[k],
            decreases 32 - i,
        {
            let a = self.palette_indexes[2 * i];
            let b = self.palette_indexes[2 * i + 1];
            let lo = a & 0xf;
            let hi = b & 0xf;
            let byte = lo | (hi << 4u8);
            assert(byte == (a % 16) + 16 * (b % 16)) by (bit_vector)
                requires
                    lo == a & 0xf,
                    hi == b & 0xf,
                    byte == lo | (hi << 4u8),
            ;
            out[i] = byte;
            i += 1;
        }
        assert(out@ =~= tile_bytes(self@));
        out
    }

    /// Reads a tile from 32 packed bytes.
    pub fn from_bytes(bytes: [u8; 32]) -> (t: Tile)
        ensures
            t@ == tile_of_bytes(bytes@),
    {
        let mut out = [0u8; 64];
        let mut i: usize = 0;
        while i < 32
            invariant
                i <= 32,
                out@.len() == 64,
                bytes@.len() == 32,
                forall|k: int| 0 <= k < 2 * i ==> out@[k] == tile_of_bytes(bytes@)[k],
            decreases 32 - i,
        {
            let ns = bytes[i];
            let lo = ns & 0xf;
            let hi = (ns & 0xf0) >> 4u8;
            assert(lo == ns % 16 && hi == ns / 16) by (bit_vector)
                requires
                    lo == ns & 0xf,
                    hi == (ns & 0xf0) >> 4u8,
            ;
            out[2 * i] = lo;
            out[2 * i + 1] = hi;
            i += 1;
        }
        assert(out@ =~= tile_of_bytes(bytes@));
        Tile { palette_indexes: out }
    }

    /// Whether two tiles hold the same pixels.
    pub fn same_pixels(&self, other: &Tile) -> (eq: bool)
        ensures
            eq == (self@ == other@),
    {
        let mut i: usize = 0;
        while i < 64
            invariant
                i <= 64,
                self@.len() == 64,
                other@.len() == 64,
                forall|k: int| 0 <= k < i ==> self@[k] == other@[k],
            decreases 64 - i,
        {
            if self.palette_indexes[i] != other.palette_indexes[i] {
                return false;
            }
            i += 1;
        }
        assert(self@ =~= other@);
        true
    }
}

impl Default for Tile {
    fn default() -> (t: Tile)
        ensures
            t@ == Seq::new(64, |i: int| 0u8),
    {
        let t = Tile::new([0u8; 64]);
        assert(t@ =~= Seq::new(64, |i: int| 0u8));
        t
    }
}

impl From<&Tile> for [u8; 32] {
    fn from(tile: &Tile) -> (bytes: [u8; 32]) {
        tile.to_bytes()
    }
}

impl vstd::std_specs::convert::FromSpecImpl<&Tile> for [u8; 32] {
    open spec fn obeys_from_spec() -> bool {
        true
    }

    open spec fn from_spec(tile: &Tile) -> [u8; 32] {
        choose|b: [u8; 32]| b@ == tile_bytes(tile@)
    }
}

impl From<[u8; 32]> for Tile {
    fn from(bytes: [u8; 32]) -> (t: Tile) {
        let t = Tile::from_bytes(bytes);
        proof {
            let c = choose|u: Tile| u@ == tile_of_bytes(bytes@);
            assert(t@ == tile_of_bytes(bytes@));
            assert(c.palette_indexes =~= t.palette_indexes);
        }
        t
    }
}

impl vstd::std_specs::convert::FromSpecImpl<[u8; 32]> for Tile {
    open spec fn obeys_from_spec() -> bool {
        true
    }

    open spec fn from_spec(bytes: [u8; 32]) -> Tile {
        choose|t: Tile| t@ == tile_of_bytes(bytes@)
    }
}

/// Mirrors a tile left-right when `hflip` and top-bottom when `vflip`.
pub fn flip_tile(tile: &Tile, hflip: bool, vflip: bool) -> (t: Tile)
    ensures
        t@ == flipped(tile@, hflip, vflip),
{
    let mut result = [0u8; 64];
    let mut y: usize = 0;
    while y < 8
        invariant
            y <= 8,
            result@.len() == 64,
            tile@.len() == 64,
            forall|k: int| 0 <= k < 8 * y ==> result@[k] == flipped(tile@, hflip, vflip)[k],
        decreases 8 - y,
    {
        let mut x: usize = 0;
        while x < 8
            invariant
                y < 8,
                x <= 8,
                result@.len() == 64,
                tile@.len() == 64,
                forall|k: int| 0 <= k < 8 * y + x ==> result@[k] == flipped(tile@, hflip, vflip)[k],
            decreases 8 - x,
        {
            let src_x = if hflip {
                7 - x
            } else {
                x
            };
            let src_y = if vflip {
                7 - y
            } else {
                y
            };
            assert((y * 8 + x) / 8 == y && (y * 8 + x) % 8 == x);
            result[y * 8 + x] = tile.palette_indexes[src_y * 8 + src_x];
            x += 1;
        }
        y += 1;
    }
    assert(result@ =~= flipped(tile@, hflip, vflip));
    Tile { palette_indexes: result }
}

/// Packing a tile whose indexes fit 4 bits and unpacking it again gives the tile.
pub proof fn lemma_tile_bytes_round_trip(p: Seq<u8>)
    requires
        p.len() == 64,
        fits_nibbles(p),
    ensures
        tile_of_bytes(tile_bytes(p)) == p,
{
    let b = tile_bytes(p);
    assert forall|i: int| 0 <= i < 64 implies #[trigger] tile_of_bytes(b)[i] == p[i] by {
        let j = i / 2;
        let lo = p[2 * j];
        let hi = p[2 * j + 1];
        assert(lo < 16 && hi < 16);
        assert(b[j] == lo + 16 * hi);
    }
    assert(tile_of_bytes(b) =~= p);
}

/// Unpacking 32 bytes and packing the pixels again gives the bytes.
pub proof fn lemma_bytes_tile_round_trip(b: Seq<u8>)
    requires
        b.len() == 32,
    ensures
        tile_bytes(tile_of_bytes(b)) == b,
{
    let p = tile_of_bytes(b);
    assert forall|i: int| 0 <= i < 32 implies #[trigger] tile_bytes(p)[i] == b[i] by {
        assert(p[2 * i] == b[i] % 16);
        assert(p[2 * i + 1] == b[i] / 16);
    }
    assert(tile_bytes(p) =~= b);
}

/// Mirroring twice with the same flags gives back the tile.
pub proof fn lemma_flip_involution(p: Seq<u8>, hflip: bool, vflip: bool)
    requires
        p.len() == 64,
    ensures
        flipped(flipped(p, hflip, vflip), hflip, vflip) == p,
{
    assert forall|i: int| 0 <= i < 64 implies #[trigger] flipped(
        flipped(p, hflip, vflip),
        hflip,
        vflip,
    )[i] == p[i] by {
        let j = flipped_index(i, hflip, vflip);
        assert(0 <= j < 64);
        assert(flipped_index(j, hflip, vflip) == i);
    }
    assert(flipped(flipped(p, hflip, vflip), hflip, vflip) =~= p);
}

} // verus!
