//! A named list of tiles, as written to a `.bin` character block.
use vstd::prelude::*;
use crate::tile::{Tile, is_blank_tile, tile_bytes};
use crate::trim::{trim_trailing, trimmed_len, lemma_trim_trailing, concat_all};
use crate::savable::Savable;

verus! {

/// The blank test used when trimming character data: a tile of palette entry 0 only.
pub open spec fn tile_blank() -> spec_fn(Seq<u8>) -> bool {
    |t: Seq<u8>| is_blank_tile(t)
}

/// Dropping the blank tiles at the end of a list of tiles keeps a first part of the list that
/// holds every tile with a pixel other than palette entry 0, and drops only tiles all of whose
/// pixels are entry 0; the last tile kept, if any, has a pixel other than entry 0.
pub proof fn lemma_trim_keeps_drawn_tiles(ts: Seq<Seq<u8>>)
    ensures
        ({
            let r = trim_trailing(ts, tile_blank());
            &&& r.len() <= ts.len()
            &&& r == ts.take(r.len() as int)
            &&& forall|j: int, i: int|
                0 <= j < ts.len() && 0 <= i < ts[j].len() && #[trigger] ts[j][i] != 0 ==> j < r.len()
            &&& forall|j: int, i: int| r.len() <= j < ts.len() && 0 <= i < ts[j].len() ==> #[trigger] ts[j][i] == 0
            &&& r.len() > 0 ==> exists|i: int| 0 <= i < r.last().len() && #[trigger] r.last()[i] != 0
        }),
{
    lemma_trim_trailing(ts, tile_blank());
    let n = trimmed_len(ts, tile_blank()) as int;
    let r = trim_trailing(ts, tile_blank());
    assert(r.len() == n);
    assert forall|j: int, i: int| n <= j < ts.len() && 0 <= i < ts[j].len() implies #[trigger] ts[j][i] == 0 by {
        assert(tile_blank()(ts[j]));
    }
    if n > 0 {
        assert(r.last() == ts[n - 1]);
        assert(!tile_blank()(ts[n - 1]));
    }
}

/// The pixels of each tile of a sequence.
pub open spec fn tiles_view(tiles: Seq<Tile>) -> Seq<Seq<u8>> {
    tiles.map_values(|t: Tile| t@)
}

/// The bytes of a sequence of tiles, 32 per tile, in order.
pub open spec fn tiles_bytes(tiles: Seq<Seq<u8>>) -> Seq<u8> {
    concat_all(tiles.map_values(|t: Seq<u8>| tile_bytes(t)))
}

pub struct CharacterData {
    name: String,
    tiles: Vec<Tile>,
}

impl CharacterData {
    pub closed spec fn name_view(&self) -> Seq<char> {
        self.name@
    }

    pub closed spec fn tiles(&self) -> Seq<Seq<u8>> {
        tiles_view(self.tiles@)
    }

    /// Character data of `tiles`, without the blank tiles at its end.
    pub fn with_tiles(name: &str, tiles: Vec<Tile>) -> (c: Self)
        ensures
            c.name_view() == name@,
            c.tiles() == trim_trailing(tiles_view(tiles@), tile_blank()),
    {
        let ghost blank = tile_blank();
        let ghost orig = tiles_view(tiles@);
        let mut tiles = tiles;
        loop
            invariant
                blank == tile_blank(),
                tiles_view(tiles@) == orig.take(tiles@.len() as int),
                tiles@.len() <= orig.len(),
                trim_trailing(orig, blank) == trim_trailing(tiles_view(tiles@), blank),
            ensures
                tiles@.len() == 0 || !blank(tiles_view(tiles@).last()),
            decreases tiles@.len(),
        {
            let n = tiles.len();
            if n == 0 {
                break ;
            }
            if !tiles[n - 1].is_blank() {
                break ;
            }
            let ghost before = tiles_view(tiles@);
            proof {
                crate::trim::lemma_trim_drop_blank(before, blank);
            }
            tiles.pop();
            assert(tiles_view(tiles@) =~= before.drop_last());
            assert(tiles_view(tiles@) =~= orig.take(tiles@.len() as int));
        }
        proof {
            crate::trim::lemma_trim_untrimmed(tiles_view(tiles@), blank);
        }
        CharacterData { name: name.to_owned(), tiles }
    }

    pub fn len(&self) -> (n: usize)
        ensures
            n == self.tiles().len(),
    {
        self.tiles.len()
    }

    /// The tile at `index`, if there is one.
    pub fn get(&self, index: usize) -> (t: Option<&Tile>)
        ensures
            index < self.tiles().len() ==> (t matches Some(t) && t@ == self.tiles()[index as int]),
            index >= self.tiles().len() ==> t is None,
    {
        if index < self.tiles.len() {
            Some(&self.tiles[index])
        } else {
            None
        }
    }
}

impl Savable for CharacterData {
    open spec fn spec_name(&self) -> Seq<char> {
        self.name_view()
    }

    fn name(&self) -> (n: &str) {
        self.name.as_str()
    }

    /// 32 bytes per tile, in order.
    fn as_data(&self) -> (data: Vec<u8>)
        ensures
            data@ == tiles_bytes(self.tiles()),
    {
        let mut out: Vec<u8> = Vec::new();
        let mut i: usize = 0;
        while i < self.tiles.len()
            invariant
                i <= self.tiles().len(),
                self.tiles().len() == self.tiles@.len(),
                out@ == tiles_bytes(self.tiles().take(i as int)),
            decreases self.tiles().len() - i,
        {
            let b = self.tiles[i].to_bytes();
            let ghost before = out@;
            let mut j: usize = 0;
            while j < 32
                invariant
                    j <= 32,
                    b@.len() == 32,
                    out@ == before + b@.take(j as int),
                decreases 32 - j,
            {
                out.push(b[j]);
                assert(b@.take(j + 1) =~= b@.take(j as int).push(b@[j as int]));
                j += 1;
            }
            proof {
                let t = self.tiles().take(i + 1);
                let f = |t: Seq<u8>| tile_bytes(t);
                assert(t.map_values(f).drop_last() =~= self.tiles().take(i as int).map_values(f));
                assert(t.last() == self.tiles@[i as int]@);
                assert(b@.take(32) =~= b@);
            }
            i += 1;
        }
        assert(self.tiles().take(i as int) =~= self.tiles());
        out
    }
}

} // verus!
