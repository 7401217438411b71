//! A block of tiles as stored in video memory: 32 packed bytes per tile.
use vstd::prelude::*;
use crate::character_data::{tiles_bytes, tiles_view};
use crate::tile::{Tile, fits_nibbles, lemma_tile_bytes_round_trip, tile_bytes, tile_of_bytes};
use crate::trim::{lemma_concat_all_part, lemma_concat_all_uniform};

verus! {

/// The tiles read from `data`, 32 bytes each; an incomplete last chunk is ignored.
pub open spec fn tiles_of_bytes(data: Seq<u8>) -> Seq<Seq<u8>> {
    Seq::new(data.len() / 32, |k: int| tile_of_bytes(data.subrange(32 * k, 32 * k + 32)))
}

/// The tiles of one character block.
pub struct TileMap {
    tiles: Vec<Tile>,
}

impl TileMap {
    pub closed spec fn tiles(&self) -> Seq<Seq<u8>> {
        tiles_view(self.tiles@)
    }

    /// A tile map of these tiles, in order.
    pub fn new(tiles: Vec<Tile>) -> (m: Self)
        ensures
            m.tiles() == tiles_view(tiles@),
    {
        TileMap { tiles }
    }

    /// Reads tiles from `data`, 32 bytes each, as long as whole tiles remain.
    pub fn from(data: &[u8]) -> (m: Self)
        ensures
            m.tiles() == tiles_of_bytes(data@),
    {
        let len = data.len();
        let n = len / 32;
        let mut tiles: Vec<Tile> = Vec::new();
        let mut k: usize = 0;
        while k < n
            invariant
                len == data@.len(),
                n == data@.len() / 32,
                k <= n,
                tiles_view(tiles@) == tiles_of_bytes(data@).take(k as int),
            decreases n - k,
        {
            let mut buf = [0u8; 32];
            let mut j: usize = 0;
            while j < 32
                invariant
                    k < n,
                    len == data@.len(),
                    n == data@.len() / 32,
                    j <= 32,
                    buf@.len() == 32,
                    forall|t: int| 0 <= t < j ==> buf@[t] == data@[32 * k + t],
                decreases 32 - j,
            {
                assert(32 * k + j < data@.len()) by (nonlinear_arith)
                    requires
                        k < n,
                        n == data@.len() / 32,
                        j < 32,
                ;
                buf[j] = data[32 * k + j];
                j += 1;
            }
            assert(buf@ =~= data@.subrange(32 * k, 32 * k + 32));
            let t = Tile::from_bytes(buf);
            let ghost before = tiles_view(tiles@);
            tiles.push(t);
            assert(tiles_view(tiles@) =~= before.push(t@));
            assert(tiles_view(tiles@) =~= tiles_of_bytes(data@).take(k + 1));
            k += 1;
        }
        assert(tiles_of_bytes(data@).take(n as int) =~= tiles_of_bytes(data@));
        TileMap { tiles }
    }

    /// The packed bytes of every tile, in order.
    pub fn as_bytes(&self) -> (data: Vec<u8>)
        ensures
            data@ == tiles_bytes(self.tiles()),
    {
        let mut out: Vec<u8> = Vec::new();
        let mut i: usize = 0;
        while i < self.tiles.len()
            invariant
                i <= self.tiles().len(),
                self.tiles().len() == self.tiles@.len(),
                out@ == tiles_bytes(self.tiles().take(i as int)),
            decreases self.tiles().len() - i,
        {
            let b = self.tiles[i].to_bytes();
            let ghost before = out@;
            let mut j: usize = 0;
            while j < 32
                invariant
                    j <= 32,
                    b@.len() == 32,
                    out@ == before + b@.take(j as int),
                decreases 32 - j,
            {
                out.push(b[j]);
                assert(b@.take(j + 1) =~= b@.take(j as int).push(b@[j as int]));
                j += 1;
            }
            proof {
                let t = self.tiles().take(i + 1);
                let f = |t: Seq<u8>| tile_bytes(t);
                assert(t.map_values(f).drop_last() =~= self.tiles().take(i as int).map_values(f));
                assert(t.last() == self.tiles@[i as int]@);
                assert(b@.take(32) =~= b@);
            }
            i += 1;
        }
        assert(self.tiles().take(i as int) =~= self.tiles());
        out
    }

    pub fn len(&self) -> (n: usize)
        ensures
            n == self.tiles().len(),
    {
        self.tiles.len()
    }

    /// The tile at `index`, if there is one.
    pub fn get(&self, index: usize) -> (t: Option<&Tile>)
        ensures
            index < self.tiles().len() ==> (t matches Some(t) && t@ == self.tiles()[index as int]),
            index >= self.tiles().len() ==> t is None,
    {
        if index < self.tiles.len() {
            Some(&self.tiles[index])
        } else {
            None
        }
    }
}

/// Reading back the bytes written for a list of tiles of 4-bit pixels gives the same tiles.
pub proof fn lemma_tile_map_round_trip(tiles: Seq<Seq<u8>>)
    requires
        forall|k: int| 0 <= k < tiles.len() ==> #[trigger] tiles[k].len() == 64 && fits_nibbles(tiles[k]),
    ensures
        tiles_of_bytes(tiles_bytes(tiles)) == tiles,
{
    let parts = tiles.map_values(|t: Seq<u8>| tile_bytes(t));
    assert forall|k: int| 0 <= k < parts.len() implies #[trigger] parts[k].len() == 32 by {}
    lemma_concat_all_uniform(parts, 32);
    let data = tiles_bytes(tiles);
    assert(data.len() == 32 * tiles.len());
    assert forall|k: int| 0 <= k < tiles.len() implies #[trigger] tiles_of_bytes(data)[k] == tiles[k] by {
        lemma_concat_all_part(parts, k);
        assert forall|i: int| 0 <= i < parts.take(k).len() implies #[trigger] parts.take(k)[i].len() == 32 by {}
        lemma_concat_all_uniform(parts.take(k), 32);
        assert(data.subrange(32 * k, 32 * k + 32) == parts[k]);
        lemma_tile_bytes_round_trip(tiles[k]);
    }
    assert(tiles_of_bytes(data) =~= tiles);
}

} // verus!
