//! Editable character data: a named list of tiles.
use vstd::prelude::*;
use crate::character_data::{tiles_bytes, tiles_view};
use crate::map::{TileMap, tiles_of_bytes};
use crate::savable::Savable;
use crate::tile::Tile;

verus! {

/// The file name ending of saved character data.
pub open spec fn character_data_suffix() -> Seq<char> {
    seq!['_', 'c', 'h', 'a', 'r', 'a', 'c', 't', 'e', 'r', '_', 'd', 'a', 't', 'a', '.', 'b', 'i', 'n']
}

/// A named list of tiles as edited.
pub struct CharacterData {
    name: String,
    tiles: TileMap,
}

impl CharacterData {
    pub closed spec fn name_view(&self) -> Seq<char> {
        self.name@
    }

    pub closed spec fn tiles(&self) -> Seq<Seq<u8>> {
        self.tiles.tiles()
    }

    /// Character data without tiles.
    pub fn new(name: &str) -> (c: Self)
        ensures
            c.name_view() == name@,
            c.tiles() == Seq::<Seq<u8>>::empty(),
    {
        let tiles = TileMap::new(Vec::new());
        assert(tiles_view(Seq::<Tile>::empty()) =~= Seq::<Seq<u8>>::empty());
        CharacterData { name: name.to_owned(), tiles }
    }

    /// The file name ending of saved character data.
    pub fn suffix() -> (s: &'static str)
        ensures
            s@ == character_data_suffix(),
    {
        let s = "_character_data.bin";
        proof {
            reveal_strlit("_character_data.bin");
        }
        s
    }

    /// The character data stored in `data`, 32 bytes per tile; an incomplete last tile is
    /// ignored.
    pub fn create(name: &str, data: &[u8]) -> (c: Self)
        ensures
            c.name_view() == name@,
            c.tiles() == tiles_of_bytes(data@),
    {
        CharacterData { name: name.to_owned(), tiles: TileMap::from(data) }
    }

    pub fn len(&self) -> (n: usize)
        ensures
            n == self.tiles().len(),
    {
        self.tiles.len()
    }

    /// The tile at `index`, if there is one.
    pub fn get(&self, index: usize) -> (t: Option<&Tile>)
        ensures
            index < self.tiles().len() ==> (t matches Some(t) && t@ == self.tiles()[index as int]),
            index >= self.tiles().len() ==> t is None,
    {
        self.tiles.get(index)
    }

    /// The tiles, as a tile map.
    pub fn tile_map(&self) -> (m: &TileMap)
        ensures
            m.tiles() == self.tiles(),
    {
        &self.tiles
    }
}

impl Savable for CharacterData {
    open spec fn spec_name(&self) -> Seq<char> {
        self.name_view()
    }

    fn name(&self) -> (n: &str) {
        self.name.as_str()
    }

    /// 32 bytes per tile, in order.
    fn as_data(&self) -> (data: Vec<u8>)
        ensures
            data@ == tiles_bytes(self.tiles()),
    {
        self.tiles.as_bytes()
    }
}

} // verus!
