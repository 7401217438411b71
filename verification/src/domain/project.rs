//! The project being edited: its palettes, character data, screen data and boops, each found
//! by name.
use vstd::prelude::*;
use crate::domain::boop::{Boops, boops_file_suffix, boops_name_of_file, boops_of_files, boops_view};
use crate::domain::map::{CharacterData, character_data_suffix};
use crate::domain::order::{sort_by_name, sorted_by_name};
use crate::domain::palette::{Palette, colors_of_bytes, lemma_saved_palette_colors, palette_suffix};
use crate::domain::screen::{ScreenData, grid_of_bytes, lemma_screen_round_trip, screen_data_suffix};
use crate::map::{lemma_tile_map_round_trip, tiles_of_bytes};
use crate::palette::colors_bytes;
use crate::character_data::tiles_bytes;
use crate::screen::screen_bytes;
use crate::tile::fits_nibbles;
use crate::domain::boop::{
    BoopView, args_file, assigned_upto, boop_bytes, boops_file, first_overflow, flags_agree,
    lemma_assigned_boops_round_trip,
};
use crate::trim::lemma_concat_all_uniform;
use crate::savable::Savable;
use crate::text::{append_str, chars_of, ends_with, ends_with_chars, replace_all, replace_chars, string_of};

verus! {

/// The first of the first `n` items named `name`.
pub open spec fn first_named<T: Savable>(items: Seq<T>, name: Seq<char>, n: int) -> Option<int>
    decreases n,
{
    if n <= 0 {
        None
    } else {
        match first_named(items, name, n - 1) {
            Some(i) => Some(i),
            None => if items[n - 1].spec_name() == name {
                Some(n - 1)
            } else {
                None
            },
        }
    }
}

/// The first of the first `n` boops lists named `name`.
pub open spec fn first_boops_named(items: Seq<Boops>, name: Seq<char>, n: int) -> Option<int>
    decreases n,
{
    if n <= 0 {
        None
    } else {
        match first_boops_named(items, name, n - 1) {
            Some(i) => Some(i),
            None => if items[n - 1].name@ == name {
                Some(n - 1)
            } else {
                None
            },
        }
    }
}

/// The names of a list of items, in order.
pub open spec fn names_of<T: Savable>(items: Seq<T>) -> Seq<Seq<char>> {
    items.map_values(|t: T| t.spec_name())
}

proof fn lemma_first_named_stays<T: Savable>(items: Seq<T>, name: Seq<char>, n: int, m: int)
    requires
        n <= m,
        first_named(items, name, n) is Some,
    ensures
        first_named(items, name, m) == first_named(items, name, n),
    decreases m - n,
{
    if n < m {
        lemma_first_named_stays(items, name, n, m - 1);
    }
}

proof fn lemma_first_boops_named_stays(items: Seq<Boops>, name: Seq<char>, n: int, m: int)
    requires
        n <= m,
        first_boops_named(items, name, n) is Some,
    ensures
        first_boops_named(items, name, m) == first_boops_named(items, name, n),
    decreases m - n,
{
    if n < m {
        lemma_first_boops_named_stays(items, name, n, m - 1);
    }
}

/// The position of the first item named `name`.
fn find_named<T: Savable>(items: &Vec<T>, name: &str) -> (r: Option<usize>)
    ensures
        r matches Some(i) ==> i < items@.len() && first_named(items@, name@, items@.len() as int) == Some(
            i as int,
        ),
        r is None ==> first_named(items@, name@, items@.len() as int) is None,
{
    let wanted = name.to_owned();
    let mut i: usize = 0;
    while i < items.len()
        invariant
            wanted@ == name@,
            i <= items@.len(),
            first_named(items@, name@, i as int) is None,
        decreases items@.len() - i,
    {
        let n = items[i].name().to_owned();
        if n == wanted {
            proof {
                assert(first_named(items@, name@, i + 1) == Some(i as int));
                lemma_first_named_stays(items@, name@, i + 1, items@.len() as int);
            }
            return Some(i);
        }
        i += 1;
    }
    None
}

/// The position of the first boops list named `name`.
fn find_boops(items: &Vec<Boops>, name: &str) -> (r: Option<usize>)
    ensures
        r matches Some(i) ==> i < items@.len() && first_boops_named(items@, name@, items@.len() as int)
            == Some(i as int),
        r is None ==> first_boops_named(items@, name@, items@.len() as int) is None,
{
    let wanted = name.to_owned();
    let mut i: usize = 0;
    while i < items.len()
        invariant
            wanted@ == name@,
            i <= items@.len(),
            first_boops_named(items@, name@, i as int) is None,
        decreases items@.len() - i,
    {
        if items[i].name == wanted {
            proof {
                assert(first_boops_named(items@, name@, i + 1) == Some(i as int));
                lemma_first_boops_named_stays(items@, name@, i + 1, items@.len() as int);
            }
            return Some(i);
        }
        i += 1;
    }
    None
}

/// The names of a list of items, as strings.
fn names<T: Savable>(items: &Vec<T>) -> (r: Vec<String>)
    ensures
        r@.map_values(|s: String| s@) == names_of(items@),
{
    let mut r: Vec<String> = Vec::new();
    let mut i: usize = 0;
    while i < items.len()
        invariant
            i <= items@.len(),
            r@.map_values(|s: String| s@) == names_of(items@.take(i as int)),
        decreases items@.len() - i,
    {
        let n = items[i].name().to_owned();
        let ghost before = r@.map_values(|s: String| s@);
        r.push(n);
        assert(r@.map_values(|s: String| s@) =~= before.push(items@[i as int].spec_name()));
        assert(names_of(items@.take(i + 1)) =~= names_of(items@.take(i as int)).push(items@[i as int].spec_name()));
        i += 1;
    }
    assert(items@.take(i as int) =~= items@);
    r
}

/// A project being edited, stored in the directory `path`.
pub struct Project {
    path: String,
    palettes: Vec<Palette>,
    character_maps: Vec<CharacterData>,
    screen_maps: Vec<ScreenData>,
    boop_maps: Vec<Boops>,
}

impl Project {
    pub closed spec fn path_view(&self) -> Seq<char> {
        self.path@
    }

    pub closed spec fn palettes(&self) -> Seq<Palette> {
        self.palettes@
    }

    pub closed spec fn character_maps(&self) -> Seq<CharacterData> {
        self.character_maps@
    }

    pub closed spec fn screen_maps(&self) -> Seq<ScreenData> {
        self.screen_maps@
    }

    pub closed spec fn boop_maps(&self) -> Seq<Boops> {
        self.boop_maps@
    }

    /// An empty project in directory `path`.
    pub fn new(path: String) -> (p: Self)
        ensures
            p.path_view() == path@,
            p.palettes().len() == 0,
            p.character_maps().len() == 0,
            p.screen_maps().len() == 0,
            p.boop_maps().len() == 0,
    {
        Project {
            path,
            palettes: Vec::new(),
            character_maps: Vec::new(),
            screen_maps: Vec::new(),
            boop_maps: Vec::new(),
        }
    }

    /// A project in directory `path` of the items read from it: palettes, character data and
    /// screen data in the order of their names, boops lists as found.
    pub fn from_parts(
        path: String,
        palettes: Vec<Palette>,
        character_maps: Vec<CharacterData>,
        screen_maps: Vec<ScreenData>,
        boop_maps: Vec<Boops>,
    ) -> (p: Self)
        ensures
            p.path_view() == path@,
            sorted_by_name(p.palettes()),
            p.palettes().to_multiset() == palettes@.to_multiset(),
            sorted_by_name(p.character_maps()),
            p.character_maps().to_multiset() == character_maps@.to_multiset(),
            sorted_by_name(p.screen_maps()),
            p.screen_maps().to_multiset() == screen_maps@.to_multiset(),
            p.boop_maps() == boop_maps@,
    {
        Project {
            path,
            palettes: sort_by_name(palettes),
            character_maps: sort_by_name(character_maps),
            screen_maps: sort_by_name(screen_maps),
            boop_maps,
        }
    }

    pub fn path(&self) -> (p: &str)
        ensures
            p@ == self.path_view(),
    {
        self.path.as_str()
    }

    /// The first palette named `name`.
    pub fn palette(&self, name: &str) -> (r: Option<&Palette>)
        ensures
            match first_named(self.palettes(), name@, self.palettes().len() as int) {
                Some(i) => r == Some(&self.palettes()[i]),
                None => r is None,
            },
    {
        match find_named(&self.palettes, name) {
            Some(i) => Some(&self.palettes[i]),
            None => None,
        }
    }

    /// The first palette named `name`, to change.
    pub fn palette_mut(&mut self, name: &str) -> (r: Option<&mut Palette>)
        ensures
            match first_named(old(self).palettes(), name@, old(self).palettes().len() as int) {
                Some(i) => r matches Some(p) && *p == old(self).palettes()[i] && final(self).palettes()
                    == old(self).palettes().update(i, *final(p)),
                None => r is None && final(self).palettes() == old(self).palettes(),
            },
            final(self).path_view() == old(self).path_view(),
            final(self).character_maps() == old(self).character_maps(),
            final(self).screen_maps() == old(self).screen_maps(),
            final(self).boop_maps() == old(self).boop_maps(),
    {
        match find_named(&self.palettes, name) {
            Some(i) => Some(&mut self.palettes[i]),
            None => None,
        }
    }

    /// Adds an empty palette named `name` at the end.
    pub fn add_palette(&mut self, name: &str)
        ensures
            final(self).palettes().len() == old(self).palettes().len() + 1,
            final(self).palettes().drop_last() == old(self).palettes(),
            final(self).palettes().last().name_view() == name@,
            final(self).palettes().last().colors().len() == 0,
            final(self).path_view() == old(self).path_view(),
            final(self).character_maps() == old(self).character_maps(),
            final(self).screen_maps() == old(self).screen_maps(),
            final(self).boop_maps() == old(self).boop_maps(),
    {
        self.palettes.push(Palette::new(name));
        assert(self.palettes@.drop_last() =~= old(self).palettes@);
    }

    /// The names of the palettes, in order.
    pub fn palette_names(&self) -> (r: Vec<String>)
        ensures
            r@.map_values(|s: String| s@) == names_of(self.palettes()),
    {
        names(&self.palettes)
    }

    /// The first character data named `name`.
    pub fn character_data(&self, name: &str) -> (r: Option<&CharacterData>)
        ensures
            match first_named(self.character_maps(), name@, self.character_maps().len() as int) {
                Some(i) => r == Some(&self.character_maps()[i]),
                None => r is None,
            },
    {
        match find_named(&self.character_maps, name) {
            Some(i) => Some(&self.character_maps[i]),
            None => None,
        }
    }

    /// The first character data named `name`, to change.
    pub fn character_data_mut(&mut self, name: &str) -> (r: Option<&mut CharacterData>)
        ensures
            match first_named(old(self).character_maps(), name@, old(self).character_maps().len() as int) {
                Some(i) => r matches Some(c) && *c == old(self).character_maps()[i] && final(self).character_maps()
                    == old(self).character_maps().update(i, *final(c)),
                None => r is None && final(self).character_maps() == old(self).character_maps(),
            },
            final(self).path_view() == old(self).path_view(),
            final(self).palettes() == old(self).palettes(),
            final(self).screen_maps() == old(self).screen_maps(),
            final(self).boop_maps() == old(self).boop_maps(),
    {
        match find_named(&self.character_maps, name) {
            Some(i) => Some(&mut self.character_maps[i]),
            None => None,
        }
    }

    /// Adds empty character data named `name` at the end.
    pub fn add_character_data(&mut self, name: &str)
        ensures
            final(self).character_maps().len() == old(self).character_maps().len() + 1,
            final(self).character_maps().drop_last() == old(self).character_maps(),
            final(self).character_maps().last().name_view() == name@,
            final(self).character_maps().last().tiles().len() == 0,
            final(self).path_view() == old(self).path_view(),
            final(self).palettes() == old(self).palettes(),
            final(self).screen_maps() == old(self).screen_maps(),
            final(self).boop_maps() == old(self).boop_maps(),
    {
        self.character_maps.push(CharacterData::new(name));
        assert(self.character_maps@.drop_last() =~= old(self).character_maps@);
    }

    /// The names of the character data, in order.
    pub fn character_data_names(&self) -> (r: Vec<String>)
        ensures
            r@.map_values(|s: String| s@) == names_of(self.character_maps()),
    {
        names(&self.character_maps)
    }

    /// The first screen data named `name`.
    pub fn screen_data(&self, name: &str) -> (r: Option<&ScreenData>)
        ensures
            match first_named(self.screen_maps(), name@, self.screen_maps().len() as int) {
                Some(i) => r == Some(&self.screen_maps()[i]),
                None => r is None,
            },
    {
        match find_named(&self.screen_maps, name) {
            Some(i) => Some(&self.screen_maps[i]),
            None => None,
        }
    }

    /// The first screen data named `name`, to change.
    pub fn screen_data_mut(&mut self, name: &str) -> (r: Option<&mut ScreenData>)
        ensures
            match first_named(old(self).screen_maps(), name@, old(self).screen_maps().len() as int) {
                Some(i) => r matches Some(s) && *s == old(self).screen_maps()[i] && final(self).screen_maps()
                    == old(self).screen_maps().update(i, *final(s)),
                None => r is None && final(self).screen_maps() == old(self).screen_maps(),
            },
            final(self).path_view() == old(self).path_view(),
            final(self).palettes() == old(self).palettes(),
            final(self).character_maps() == old(self).character_maps(),
            final(self).boop_maps() == old(self).boop_maps(),
    {
        match find_named(&self.screen_maps, name) {
            Some(i) => Some(&mut self.screen_maps[i]),
            None => None,
        }
    }

    /// Adds blank screen data named `name` at the end.
    pub fn add_screen_data(&mut self, name: &str)
        ensures
            final(self).screen_maps().len() == old(self).screen_maps().len() + 1,
            final(self).screen_maps().drop_last() == old(self).screen_maps(),
            final(self).screen_maps().last().name_view() == name@,
            final(self).path_view() == old(self).path_view(),
            final(self).palettes() == old(self).palettes(),
            final(self).character_maps() == old(self).character_maps(),
            final(self).boop_maps() == old(self).boop_maps(),
    {
        self.screen_maps.push(ScreenData::new(name));
        assert(self.screen_maps@.drop_last() =~= old(self).screen_maps@);
    }

    /// The names of the screen data, in order.
    pub fn screen_names(&self) -> (r: Vec<String>)
        ensures
            r@.map_values(|s: String| s@) == names_of(self.screen_maps()),
    {
        names(&self.screen_maps)
    }

    /// The first boops list named `name`.
    pub fn boop_data(&self, name: &str) -> (r: Option<&Boops>)
        ensures
            match first_boops_named(self.boop_maps(), name@, self.boop_maps().len() as int) {
                Some(i) => r == Some(&self.boop_maps()[i]),
                None => r is None,
            },
    {
        match find_boops(&self.boop_maps, name) {
            Some(i) => Some(&self.boop_maps[i]),
            None => None,
        }
    }

    /// The first boops list named `name`, to change.
    pub fn boop_data_mut(&mut self, name: &str) -> (r: Option<&mut Boops>)
        ensures
            match first_boops_named(old(self).boop_maps(), name@, old(self).boop_maps().len() as int) {
                Some(i) => r matches Some(b) && *b == old(self).boop_maps()[i] && final(self).boop_maps()
                    == old(self).boop_maps().update(i, *final(b)),
                None => r is None && final(self).boop_maps() == old(self).boop_maps(),
            },
            final(self).path_view() == old(self).path_view(),
            final(self).palettes() == old(self).palettes(),
            final(self).character_maps() == old(self).character_maps(),
            final(self).screen_maps() == old(self).screen_maps(),
    {
        match find_boops(&self.boop_maps, name) {
            Some(i) => Some(&mut self.boop_maps[i]),
            None => None,
        }
    }

    /// Adds an empty boops list named `name` at the end.
    pub fn add_boop_data(&mut self, name: &str)
        ensures
            final(self).boop_maps().len() == old(self).boop_maps().len() + 1,
            final(self).boop_maps().drop_last() == old(self).boop_maps(),
            final(self).boop_maps().last().name@ == name@,
            final(self).boop_maps().last().boops@.len() == 0,
            final(self).path_view() == old(self).path_view(),
            final(self).palettes() == old(self).palettes(),
            final(self).character_maps() == old(self).character_maps(),
            final(self).screen_maps() == old(self).screen_maps(),
    {
        self.boop_maps.push(Boops::new(name));
        assert(self.boop_maps@.drop_last() =~= old(self).boop_maps@);
    }

    /// The names of the boops lists, in order.
    pub fn boop_names(&self) -> (r: Vec<String>)
        ensures
            r@.map_values(|s: String| s@) == boops_names(self.boop_maps()),
    {
        let mut r: Vec<String> = Vec::new();
        let mut i: usize = 0;
        while i < self.boop_maps.len()
            invariant
                i <= self.boop_maps@.len(),
                r@.map_values(|s: String| s@) == boops_names(self.boop_maps@.take(i as int)),
            decreases self.boop_maps@.len() - i,
        {
            let n = self.boop_maps[i].name.clone();
            let ghost before = r@.map_values(|s: String| s@);
            r.push(n);
            assert(r@.map_values(|s: String| s@) =~= before.push(self.boop_maps@[i as int].name@));
            assert(boops_names(self.boop_maps@.take(i + 1)) =~= boops_names(self.boop_maps@.take(i as int)).push(
                self.boop_maps@[i as int].name@,
            ));
            i += 1;
        }
        assert(self.boop_maps@.take(i as int) =~= self.boop_maps@);
        r
    }
}

/// The names of a list of boops lists, in order.
pub open spec fn boops_names(items: Seq<Boops>) -> Seq<Seq<char>> {
    items.map_values(|b: Boops| b.name@)
}

/// The name of an item saved as `file_name` with the file name ending `suffix` (such as
/// `_palette.bin`): the file name with the suffix taken out; none when it does not end with it.
pub fn name_of_saved_file(file_name: &str, suffix: &str) -> (r: Option<String>)
    ensures
        ends_with(file_name@, suffix@) ==> (r matches Some(n) && n@ == replace_all(file_name@, suffix@, Seq::empty())),
        !ends_with(file_name@, suffix@) ==> r is None,
{
    let chars = chars_of(file_name);
    let suffix_chars = chars_of(suffix);
    if !ends_with_chars(&chars, &suffix_chars) {
        return None;
    }
    if suffix_chars.len() == 0 {
        return Some(string_of(&chars));
    }
    let empty: Vec<char> = Vec::new();
    Some(string_of(&replace_chars(&chars, &suffix_chars, &empty)))
}

/// What a file of a project directory holds, going by its name (and, for boops, the length of
/// its contents).
pub enum SavedKind {
    Palette,
    CharacterData,
    ScreenData,
    Boops,
    Other,
}

/// What the file `name` with contents `data` holds: the first of palette, character data,
/// screen data and boops whose file name ending it has; boops only when their file's length is
/// a multiple of 12.
pub open spec fn saved_kind(name: Seq<char>, data: Seq<u8>) -> SavedKind {
    if ends_with(name, palette_suffix()) {
        SavedKind::Palette
    } else if ends_with(name, character_data_suffix()) {
        SavedKind::CharacterData
    } else if ends_with(name, screen_data_suffix()) {
        SavedKind::ScreenData
    } else if ends_with(name, boops_file_suffix()) && data.len() % 12 == 0 {
        SavedKind::Boops
    } else {
        SavedKind::Other
    }
}

/// The names and contents of a directory's files.
pub open spec fn files_view(files: Seq<(String, Vec<u8>)>) -> Seq<(Seq<char>, Seq<u8>)> {
    files.map_values(|f: (String, Vec<u8>)| (f.0@, f.1@))
}

/// The files that hold `kind`, in order.
pub open spec fn files_of_kind(fs: Seq<(Seq<char>, Seq<u8>)>, kind: SavedKind) -> Seq<(Seq<char>, Seq<u8>)>
    decreases fs.len(),
{
    if fs.len() == 0 {
        Seq::empty()
    } else {
        let rest = files_of_kind(fs.drop_last(), kind);
        if saved_kind(fs.last().0, fs.last().1) == kind {
            rest.push(fs.last())
        } else {
            rest
        }
    }
}

/// The first of the first `n` files named `name`.
pub open spec fn first_file_named(fs: Seq<(Seq<char>, Seq<u8>)>, name: Seq<char>, n: int) -> Option<int>
    decreases n,
{
    if n <= 0 {
        None
    } else {
        match first_file_named(fs, name, n - 1) {
            Some(i) => Some(i),
            None => if fs[n - 1].0 == name {
                Some(n - 1)
            } else {
                None
            },
        }
    }
}

/// The arguments file of the boops saved as `file_name`: the first file named like it with
/// `_boops_args.bin` in place of `_boops.bin`; empty when there is none.
pub open spec fn boops_args_of(fs: Seq<(Seq<char>, Seq<u8>)>, file_name: Seq<char>) -> Seq<u8> {
    let name = file_name.take(file_name.len() - boops_file_suffix().len());
    match first_file_named(fs, name + "_boops_args.bin"@, fs.len() as int) {
        Some(i) => fs[i].1,
        None => Seq::empty(),
    }
}

/// `q` are the palettes read from the files `fs`, in order.
pub open spec fn palettes_read(q: Seq<Palette>, fs: Seq<(Seq<char>, Seq<u8>)>) -> bool {
    &&& q.len() == fs.len()
    &&& forall|j: int|
        0 <= j < fs.len() ==> #[trigger] q[j].name_view() == replace_all(fs[j].0, palette_suffix(), Seq::empty())
            && q[j].colors() == colors_of_bytes(fs[j].1)
}

/// `q` is the character data read from the files `fs`, in order.
pub open spec fn character_data_read(q: Seq<CharacterData>, fs: Seq<(Seq<char>, Seq<u8>)>) -> bool {
    &&& q.len() == fs.len()
    &&& forall|j: int|
        0 <= j < fs.len() ==> #[trigger] q[j].name_view() == replace_all(
            fs[j].0,
            character_data_suffix(),
            Seq::empty(),
        ) && q[j].tiles() == tiles_of_bytes(fs[j].1)
}

/// `q` is the screen data read from the files `fs`, in order.
pub open spec fn screen_data_read(q: Seq<ScreenData>, fs: Seq<(Seq<char>, Seq<u8>)>) -> bool {
    &&& q.len() == fs.len()
    &&& forall|j: int|
        0 <= j < fs.len() ==> #[trigger] q[j].name_view() == replace_all(fs[j].0, screen_data_suffix(), Seq::empty())
            && q[j].characters() == grid_of_bytes(fs[j].1)
}

/// `q` are the boops lists read from the boops files `bs`, each with its arguments file among
/// the directory's files `fs`, in order.
pub open spec fn boops_read(q: Seq<Boops>, bs: Seq<(Seq<char>, Seq<u8>)>, fs: Seq<(Seq<char>, Seq<u8>)>) -> bool {
    &&& q.len() == bs.len()
    &&& forall|j: int|
        0 <= j < bs.len() ==> #[trigger] q[j].name@ + boops_file_suffix() == bs[j].0 && boops_view(q[j].boops@)
            == boops_of_files(bs[j].1, boops_args_of(fs, bs[j].0))
}

proof fn lemma_first_file_named_stays(fs: Seq<(Seq<char>, Seq<u8>)>, name: Seq<char>, n: int, m: int)
    requires
        n <= m,
        first_file_named(fs, name, n) is Some,
    ensures
        first_file_named(fs, name, m) == first_file_named(fs, name, n),
    decreases m - n,
{
    if n < m {
        lemma_first_file_named_stays(fs, name, n, m - 1);
    }
}

/// The position of the first file named `name`.
fn find_file(files: &[(String, Vec<u8>)], name: &String) -> (r: Option<usize>)
    ensures
        r matches Some(i) ==> i < files@.len() && first_file_named(files_view(files@), name@, files@.len() as int)
            == Some(i as int),
        r is None ==> first_file_named(files_view(files@), name@, files@.len() as int) is None,
{
    let ghost fv = files_view(files@);
    let mut i: usize = 0;
    while i < files.len()
        invariant
            fv == files_view(files@),
            i <= files@.len(),
            first_file_named(fv, name@, i as int) is None,
        decreases files@.len() - i,
    {
        if files[i].0 == *name {
            proof {
                assert(fv[i as int].0 == files@[i as int].0@);
                assert(first_file_named(fv, name@, i + 1) == Some(i as int));
                lemma_first_file_named_stays(fv, name@, i + 1, files@.len() as int);
            }
            return Some(i);
        }
        proof {
            assert(fv[i as int].0 == files@[i as int].0@);
        }
        i += 1;
    }
    None
}

/// The contents of the arguments file of the boops named `name`, among the directory's files.
fn boops_args(files: &[(String, Vec<u8>)], name: &String) -> (args: Vec<u8>)
    ensures
        args@ == (match first_file_named(
            files_view(files@),
            name@ + "_boops_args.bin"@,
            files@.len() as int,
        ) {
            Some(i) => files_view(files@)[i].1,
            None => Seq::empty(),
        }),
{
    let mut target = chars_of(name.as_str());
    let ending = chars_of("_boops_args.bin");
    let mut k: usize = 0;
    let ghost start = target@;
    while k < ending.len()
        invariant
            k <= ending@.len(),
            target@ == start + ending@.take(k as int),
        decreases ending@.len() - k,
    {
        target.push(ending[k]);
        assert(ending@.take(k + 1) =~= ending@.take(k as int).push(ending@[k as int]));
        k += 1;
    }
    assert(ending@.take(k as int) =~= ending@);
    let target = string_of(&target);
    match find_file(files, &target) {
        Some(i) => files[i].1.clone(),
        None => Vec::new(),
    }
}

/// The files palettes are saved as: each under its name with `_palette.bin`, holding two
/// bytes per color.
pub open spec fn palette_files(ps: Seq<Palette>) -> Seq<(Seq<char>, Seq<u8>)> {
    ps.map_values(|q: Palette| (q.name_view() + palette_suffix(), colors_bytes(q.color_list())))
}

/// The files character data is saved as: each under its name with `_character_data.bin`,
/// holding 32 bytes per tile.
pub open spec fn character_data_files(cs: Seq<CharacterData>) -> Seq<(Seq<char>, Seq<u8>)> {
    cs.map_values(|q: CharacterData| (q.name_view() + character_data_suffix(), tiles_bytes(q.tiles())))
}

/// The files screen data is saved as: each under its name with `_screen_data.bin`, holding
/// two bytes per entry up to the last entry that is not blank.
pub open spec fn screen_data_files(ss: Seq<ScreenData>) -> Seq<(Seq<char>, Seq<u8>)> {
    ss.map_values(|q: ScreenData| (q.name_view() + screen_data_suffix(), screen_bytes(q.characters())))
}

/// The files boops lists are saved as: for each, its boops file and then its arguments file.
pub open spec fn boops_files(bs: Seq<Boops>) -> Seq<(Seq<char>, Seq<u8>)>
    decreases bs.len(),
{
    if bs.len() == 0 {
        Seq::empty()
    } else {
        let b = bs.last();
        boops_files(bs.drop_last()) + seq![
            (b.name@ + boops_file_suffix(), boops_file(boops_view(b.boops@))),
            (b.name@ + "_boops_args.bin"@, args_file(boops_view(b.boops@))),
        ]
    }
}

/// The files a project is saved as: its palettes, character data, screen data and boops lists,
/// in that order.
pub open spec fn project_files(p: Project) -> Seq<(Seq<char>, Seq<u8>)> {
    palette_files(p.palettes()) + character_data_files(p.character_maps()) + screen_data_files(
        p.screen_maps(),
    ) + boops_files(p.boop_maps())
}

/// `name` followed by `ending`.
fn file_name(name: &str, ending: &str) -> (s: String)
    ensures
        s@ == name@ + ending@,
{
    let mut v = chars_of(name);
    append_str(&mut v, ending);
    string_of(&v)
}

impl Project {
    /// The files the project is saved as, by name and contents.
    pub fn to_files(&self) -> (files: Vec<(String, Vec<u8>)>)
        ensures
            files_view(files@) == project_files(*self),
    {
        let mut files: Vec<(String, Vec<u8>)> = Vec::new();
        let mut i: usize = 0;
        while i < self.palettes.len()
            invariant
                i <= self.palettes@.len(),
                files_view(files@) == palette_files(self.palettes@.take(i as int)),
            decreases self.palettes@.len() - i,
        {
            let q = &self.palettes[i];
            let f = (file_name(q.name(), Palette::suffix()), q.as_data());
            let ghost before = files_view(files@);
            files.push(f);
            assert(files_view(files@) =~= before.push((f.0@, f.1@)));
            assert(palette_files(self.palettes@.take(i + 1)) =~= palette_files(self.palettes@.take(i as int)).push(
                (f.0@, f.1@),
            ));
            i += 1;
        }
        assert(self.palettes@.take(i as int) =~= self.palettes@);
        let ghost after_palettes = files_view(files@);
        let mut i: usize = 0;
        while i < self.character_maps.len()
            invariant
                i <= self.character_maps@.len(),
                after_palettes == palette_files(self.palettes@),
                files_view(files@) == after_palettes + character_data_files(self.character_maps@.take(i as int)),
            decreases self.character_maps@.len() - i,
        {
            let q = &self.character_maps[i];
            let f = (file_name(q.name(), CharacterData::suffix()), q.as_data());
            let ghost before = files_view(files@);
            files.push(f);
            assert(files_view(files@) =~= before.push((f.0@, f.1@)));
            assert(character_data_files(self.character_maps@.take(i + 1)) =~= character_data_files(
                self.character_maps@.take(i as int),
            ).push((f.0@, f.1@)));
            i += 1;
        }
        assert(self.character_maps@.take(i as int) =~= self.character_maps@);
        let ghost after_characters = files_view(files@);
        let mut i: usize = 0;
        while i < self.screen_maps.len()
            invariant
                i <= self.screen_maps@.len(),
                after_characters == palette_files(self.palettes@) + character_data_files(self.character_maps@),
                files_view(files@) == after_characters + screen_data_files(self.screen_maps@.take(i as int)),
            decreases self.screen_maps@.len() - i,
        {
            let q = &self.screen_maps[i];
            let f = (file_name(q.name(), ScreenData::suffix()), q.as_data());
            let ghost before = files_view(files@);
            files.push(f);
            assert(files_view(files@) =~= before.push((f.0@, f.1@)));
            assert(screen_data_files(self.screen_maps@.take(i + 1)) =~= screen_data_files(
                self.screen_maps@.take(i as int),
            ).push((f.0@, f.1@)));
            i += 1;
        }
        assert(self.screen_maps@.take(i as int) =~= self.screen_maps@);
        let ghost after_screens = files_view(files@);
        let mut i: usize = 0;
        while i < self.boop_maps.len()
            invariant
                i <= self.boop_maps@.len(),
                after_screens == palette_files(self.palettes@) + character_data_files(self.character_maps@)
                    + screen_data_files(self.screen_maps@),
                files_view(files@) == after_screens + boops_files(self.boop_maps@.take(i as int)),
            decreases self.boop_maps@.len() - i,
        {
            let b = &self.boop_maps[i];
            let (boops_data, args_data) = b.as_data();
            let boops_name = file_name(b.name.as_str(), "_boops.bin");
            let args_name = file_name(b.name.as_str(), "_boops_args.bin");
            let ghost before = files_view(files@);
            let ghost g1 = (boops_name@, boops_data@);
            let ghost g2 = (args_name@, args_data@);
            files.push((boops_name, boops_data));
            files.push((args_name, args_data));
            proof {
                assert(files_view(files@) =~= before.push(g1).push(g2));
                let t = self.boop_maps@.take(i + 1);
                assert(t.drop_last() =~= self.boop_maps@.take(i as int));
                assert(boops_files(t) =~= boops_files(self.boop_maps@.take(i as int)) + seq![g1, g2]);
            }
            i += 1;
        }
        assert(self.boop_maps@.take(i as int) =~= self.boop_maps@);
        files
    }

    /// The project in directory `path` read from the directory's files, given by name and
    /// contents: each file is read as the first of palette, character data, screen data and
    /// boops whose file name ending it has, named by its file name without that ending, and
    /// left out when it is none of them or is a boops file that does not read. Palettes,
    /// character data and screen data come in the order of their names, boops lists in the
    /// order of their files. Screen data files hold at most 1024 entries.
    #[verifier::spinoff_prover]
    #[verifier::rlimit(30)]
    pub fn from_files(path: String, files: &[(String, Vec<u8>)]) -> (p: Self)
        requires
            forall|j: int|
                0 <= j < files@.len() && saved_kind(files@[j].0@, files@[j].1@) == SavedKind::ScreenData
                    ==> #[trigger] files@[j].1@.len() / 2 <= 1024,
        ensures
            p.path_view() == path@,
            sorted_by_name(p.palettes()),
            exists|q: Seq<Palette>|
                #[trigger] palettes_read(q, files_of_kind(files_view(files@), SavedKind::Palette))
                    && p.palettes().to_multiset() == q.to_multiset(),
            sorted_by_name(p.character_maps()),
            exists|q: Seq<CharacterData>|
                #[trigger] character_data_read(q, files_of_kind(files_view(files@), SavedKind::CharacterData))
                    && p.character_maps().to_multiset() == q.to_multiset(),
            sorted_by_name(p.screen_maps()),
            exists|q: Seq<ScreenData>|
                #[trigger] screen_data_read(q, files_of_kind(files_view(files@), SavedKind::ScreenData))
                    && p.screen_maps().to_multiset() == q.to_multiset(),
            boops_read(p.boop_maps(), files_of_kind(files_view(files@), SavedKind::Boops), files_view(files@)),
    {
        let ghost fv = files_view(files@);
        let mut palettes: Vec<Palette> = Vec::new();
        let mut character_maps: Vec<CharacterData> = Vec::new();
        let mut screen_maps: Vec<ScreenData> = Vec::new();
        let mut boop_maps: Vec<Boops> = Vec::new();
        let mut i: usize = 0;
        while i < files.len()
            invariant
                fv == files_view(files@),
                i <= files@.len(),
                forall|j: int|
                    0 <= j < files@.len() && saved_kind(files@[j].0@, files@[j].1@) == SavedKind::ScreenData
                        ==> #[trigger] files@[j].1@.len() / 2 <= 1024,
                palettes_read(palettes@, files_of_kind(fv.take(i as int), SavedKind::Palette)),
                character_data_read(character_maps@, files_of_kind(fv.take(i as int), SavedKind::CharacterData)),
                screen_data_read(screen_maps@, files_of_kind(fv.take(i as int), SavedKind::ScreenData)),
                boops_read(boop_maps@, files_of_kind(fv.take(i as int), SavedKind::Boops), fv),
            decreases files@.len() - i,
        {
            let name = files[i].0.as_str();
            let data = files[i].1.as_slice();
            let ghost f = fv[i as int];
            proof {
                assert(f == (files@[i as int].0@, files@[i as int].1@));
                assert(fv.take(i + 1).drop_last() =~= fv.take(i as int));
                assert(fv.take(i + 1).last() == f);
            }
            let ghost boops_before = boop_maps@;
            let ghost boop_files_before = files_of_kind(fv.take(i as int), SavedKind::Boops);
            if let Some(n) = name_of_saved_file(name, Palette::suffix()) {
                palettes.push(Palette::create(n.as_str(), data));
            } else if let Some(n) = name_of_saved_file(name, CharacterData::suffix()) {
                character_maps.push(CharacterData::create(n.as_str(), data));
            } else if let Some(n) = name_of_saved_file(name, ScreenData::suffix()) {
                screen_maps.push(ScreenData::create(n.as_str(), data));
            } else if let Some(n) = boops_name_of_file(name) {
                let args = boops_args(files, &n);
                proof {
                    assert(n@ =~= f.0.take(f.0.len() - boops_file_suffix().len()));
                }
                let ghost before = boop_maps@;
                let ghost bs = files_of_kind(fv.take(i as int), SavedKind::Boops);
                if let Ok(b) = Boops::load(name, data, args.as_slice()) {
                    boop_maps.push(b);
                    proof {
                        assert(saved_kind(f.0, f.1) == SavedKind::Boops);
                        assert(args@ == boops_args_of(fv, f.0));
                        let bs2 = files_of_kind(fv.take(i + 1), SavedKind::Boops);
                        assert(bs2 == bs.push(f));
                        assert forall|j: int| 0 <= j < bs2.len() implies #[trigger] boop_maps@[j].name@
                            + boops_file_suffix() == bs2[j].0 && boops_view(boop_maps@[j].boops@)
                            == boops_of_files(bs2[j].1, boops_args_of(fv, bs2[j].0)) by {
                            if j < bs.len() {
                                assert(boop_maps@[j] == before[j]);
                                assert(bs2[j] == bs[j]);
                            }
                        }
                    }
                } else {
                    assert(saved_kind(f.0, f.1) != SavedKind::Boops);
                }
            }
            proof {
                if saved_kind(f.0, f.1) != SavedKind::Boops {
                    assert(files_of_kind(fv.take(i + 1), SavedKind::Boops) == boop_files_before);
                    assert(boop_maps@ == boops_before);
                }
            }
            i += 1;
        }
        assert(fv.take(i as int) =~= fv);
        let p = Project::from_parts(path, palettes, character_maps, screen_maps, boop_maps);
        p
    }
}

/// `suffix` occurs in `name` followed by `suffix` only at its end.
pub open spec fn suffix_only_at_end(name: Seq<char>, suffix: Seq<char>) -> bool {
    forall|i: int| 0 <= i < name.len() ==> #[trigger] (name + suffix).subrange(i, i + suffix.len()) != suffix
}

/// A name followed by a non-empty suffix that occurs only at its end, with every occurrence of
/// the suffix taken out, is the name.
proof fn lemma_replace_suffix(name: Seq<char>, suffix: Seq<char>)
    requires
        suffix.len() > 0,
        suffix_only_at_end(name, suffix),
    ensures
        replace_all(name + suffix, suffix, Seq::empty()) == name,
    decreases name.len(),
{
    let s = name + suffix;
    let e = Seq::<char>::empty();
    if name.len() == 0 {
        assert(s =~= suffix);
        assert(s.take(suffix.len() as int) =~= suffix);
        assert(s.skip(suffix.len() as int) =~= e);
        assert(replace_all(e, suffix, e) == e);
        assert(replace_all(s, suffix, e) == e + replace_all(s.skip(suffix.len() as int), suffix, e));
        assert(e + e =~= name);
    } else {
        assert(s.subrange(0, 0int + suffix.len()) != suffix);
        assert(s.take(suffix.len() as int) =~= s.subrange(0, 0int + suffix.len()));
        let rest = name.skip(1);
        assert(s.skip(1) =~= rest + suffix);
        assert forall|i: int| 0 <= i < rest.len() implies #[trigger] (rest + suffix).subrange(i, i + suffix.len())
            != suffix by {
            assert((rest + suffix).subrange(i, i + suffix.len()) =~= s.subrange(i + 1, i + 1 + suffix.len()));
        }
        lemma_replace_suffix(rest, suffix);
        assert(replace_all(s, suffix, e) == seq![s[0]] + replace_all(s.skip(1), suffix, e));
        assert(seq![s[0]] + rest =~= name);
    }
}

/// A name followed by `suffix` ends with it.
proof fn lemma_ends_with_own(name: Seq<char>, suffix: Seq<char>)
    ensures
        ends_with(name + suffix, suffix),
{
    assert((name + suffix).subrange(name.len() as int, (name + suffix).len() as int) =~= suffix);
}

/// A name followed by `ending` does not end with `suffix` when their characters differ at
/// place `k` of `suffix`, counted from where `suffix` would start.
proof fn lemma_ending_differs(name: Seq<char>, ending: Seq<char>, suffix: Seq<char>, k: int)
    requires
        0 <= k < suffix.len(),
        suffix.len() - k <= ending.len(),
        ending[ending.len() - suffix.len() + k] != suffix[k],
    ensures
        !ends_with(name + ending, suffix),
{
    let s = name + ending;
    if s.len() >= suffix.len() {
        assert(s[s.len() - suffix.len() + k] == ending[ending.len() - suffix.len() + k]);
        assert(s.subrange(s.len() - suffix.len(), s.len() as int)[k] == s[s.len() - suffix.len() + k]);
    }
}

/// A palette file is taken for a palette.
proof fn lemma_palette_file_kind(name: Seq<char>, data: Seq<u8>)
    ensures
        saved_kind(name + palette_suffix(), data) == SavedKind::Palette,
{
    lemma_ends_with_own(name, palette_suffix());
}

/// A character data file is taken for character data.
proof fn lemma_character_data_file_kind(name: Seq<char>, data: Seq<u8>)
    ensures
        saved_kind(name + character_data_suffix(), data) == SavedKind::CharacterData,
{
    lemma_ends_with_own(name, character_data_suffix());
    lemma_ending_differs(name, character_data_suffix(), palette_suffix(), 0);
}

/// A screen data file is taken for screen data.
proof fn lemma_screen_data_file_kind(name: Seq<char>, data: Seq<u8>)
    ensures
        saved_kind(name + screen_data_suffix(), data) == SavedKind::ScreenData,
{
    lemma_ends_with_own(name, screen_data_suffix());
    lemma_ending_differs(name, screen_data_suffix(), palette_suffix(), 0);
    lemma_ending_differs(name, screen_data_suffix(), character_data_suffix(), 3);
}

/// A file ending `ending` whose name differs from the palette, character data and screen data
/// endings at the given places is taken for none of them.
proof fn lemma_other_file_kind(name: Seq<char>, ending: Seq<char>, data: Seq<u8>, kp: int, kc: int, ks: int)
    requires
        0 <= kp < 12,
        12 - kp <= ending.len(),
        ending[ending.len() - 12 + kp] != palette_suffix()[kp],
        0 <= kc < 19,
        19 - kc <= ending.len(),
        ending[ending.len() - 19 + kc] != character_data_suffix()[kc],
        0 <= ks < 16,
        16 - ks <= ending.len(),
        ending[ending.len() - 16 + ks] != screen_data_suffix()[ks],
    ensures
        saved_kind(name + ending, data) != SavedKind::Palette,
        saved_kind(name + ending, data) != SavedKind::CharacterData,
        saved_kind(name + ending, data) != SavedKind::ScreenData,
{
    lemma_ending_differs(name, ending, palette_suffix(), kp);
    lemma_ending_differs(name, ending, character_data_suffix(), kc);
    lemma_ending_differs(name, ending, screen_data_suffix(), ks);
}

/// The two files of a boops list are taken for no palette, character data or screen data.
proof fn lemma_boops_file_kinds(name: Seq<char>, data: Seq<u8>, args: Seq<u8>)
    ensures
        saved_kind(name + boops_file_suffix(), data) != SavedKind::Palette,
        saved_kind(name + boops_file_suffix(), data) != SavedKind::CharacterData,
        saved_kind(name + boops_file_suffix(), data) != SavedKind::ScreenData,
        saved_kind(name + "_boops_args.bin"@, args) != SavedKind::Palette,
        saved_kind(name + "_boops_args.bin"@, args) != SavedKind::CharacterData,
        saved_kind(name + "_boops_args.bin"@, args) != SavedKind::ScreenData,
{
    reveal_strlit("_boops.bin");
    reveal_strlit("_boops_args.bin");
    lemma_other_file_kind(name, boops_file_suffix(), data, 2, 9, 6);
    lemma_other_file_kind(name, "_boops_args.bin"@, args, 0, 4, 1);
}

/// The files of a kind among two lists of files are those of the first, then those of the
/// second.
proof fn lemma_files_of_kind_concat(a: Seq<(Seq<char>, Seq<u8>)>, b: Seq<(Seq<char>, Seq<u8>)>, kind: SavedKind)
    ensures
        files_of_kind(a + b, kind) == files_of_kind(a, kind) + files_of_kind(b, kind),
    decreases b.len(),
{
    if b.len() == 0 {
        assert(a + b =~= a);
        assert(files_of_kind(a, kind) + files_of_kind(b, kind) =~= files_of_kind(a, kind));
    } else {
        assert((a + b).drop_last() =~= a + b.drop_last());
        lemma_files_of_kind_concat(a, b.drop_last(), kind);
        if saved_kind(b.last().0, b.last().1) == kind {
            assert(files_of_kind(a, kind) + files_of_kind(b.drop_last(), kind).push(b.last()) =~= (files_of_kind(
                a,
                kind,
            ) + files_of_kind(b.drop_last(), kind)).push(b.last()));
        }
    }
}

/// Files that all hold `kind` are all taken for it; files none of which holds it give none.
proof fn lemma_files_of_kind_uniform(a: Seq<(Seq<char>, Seq<u8>)>, kind: SavedKind)
    ensures
        (forall|j: int| 0 <= j < a.len() ==> #[trigger] saved_kind(a[j].0, a[j].1) == kind) ==> files_of_kind(a, kind)
            == a,
        (forall|j: int| 0 <= j < a.len() ==> #[trigger] saved_kind(a[j].0, a[j].1) != kind) ==> files_of_kind(a, kind)
            == Seq::<(Seq<char>, Seq<u8>)>::empty(),
    decreases a.len(),
{
    if a.len() > 0 {
        let t = a.drop_last();
        lemma_files_of_kind_uniform(t, kind);
        if forall|j: int| 0 <= j < a.len() ==> #[trigger] saved_kind(a[j].0, a[j].1) == kind {
            assert forall|j: int| 0 <= j < t.len() implies #[trigger] saved_kind(t[j].0, t[j].1) == kind by {
                assert(t[j] == a[j]);
            }
            assert(saved_kind(a[a.len() - 1].0, a[a.len() - 1].1) == kind);
            assert(t.push(a.last()) =~= a);
        }
        if forall|j: int| 0 <= j < a.len() ==> #[trigger] saved_kind(a[j].0, a[j].1) != kind {
            assert forall|j: int| 0 <= j < t.len() implies #[trigger] saved_kind(t[j].0, t[j].1) != kind by {
                assert(t[j] == a[j]);
            }
            assert(saved_kind(a[a.len() - 1].0, a[a.len() - 1].1) != kind);
        }
    }
}

/// None of the files boops lists are saved as is taken for a palette, character data or
/// screen data.
proof fn lemma_boops_files_kinds(bs: Seq<Boops>)
    ensures
        forall|j: int|
            0 <= j < boops_files(bs).len() ==> {
                let k = #[trigger] saved_kind(boops_files(bs)[j].0, boops_files(bs)[j].1);
                k != SavedKind::Palette && k != SavedKind::CharacterData && k != SavedKind::ScreenData
            },
    decreases bs.len(),
{
    if bs.len() > 0 {
        lemma_boops_files_kinds(bs.drop_last());
        let b = bs.last();
        let f = boops_files(bs);
        let prev = boops_files(bs.drop_last());
        lemma_boops_file_kinds(b.name@, boops_file(boops_view(b.boops@)), args_file(boops_view(b.boops@)));
        assert forall|j: int| 0 <= j < f.len() implies {
            let k = #[trigger] saved_kind(f[j].0, f[j].1);
            k != SavedKind::Palette && k != SavedKind::CharacterData && k != SavedKind::ScreenData
        } by {
            if j < prev.len() {
                assert(f[j] == prev[j]);
            }
        }
    }
}

/// The boops files (not the arguments files) boops lists are saved as.
pub open spec fn boops_only_files(bs: Seq<Boops>) -> Seq<(Seq<char>, Seq<u8>)> {
    bs.map_values(|b: Boops| (b.name@ + boops_file_suffix(), boops_file(boops_view(b.boops@))))
}

/// Boops whose argument indexes are as assigning them in order gives, without running past
/// 255, with flags that agree with their fields and arguments of fewer than 256 bytes.
pub open spec fn boops_assigned(ws: Seq<BoopView>) -> bool {
    &&& forall|k: int| 0 <= k < ws.len() ==> flags_agree(#[trigger] ws[k])
    &&& forall|k: int| 0 <= k < ws.len() ==> #[trigger] ws[k].actual_args.len() < 256
    &&& first_overflow(ws) is None
    &&& assigned_upto(ws, ws.len() as int) == ws
}

/// Boops saved and read back from their two files are the same boops, when their argument
/// indexes are as assigned.
proof fn lemma_assigned_files_read(ws: Seq<BoopView>)
    requires
        boops_assigned(ws),
    ensures
        boops_of_files(boops_file(ws), args_file(ws)) == ws,
        boops_file(ws).len() % 12 == 0,
{
    lemma_assigned_boops_round_trip(ws);
    let parts = ws.map_values(|v: BoopView| boop_bytes(v));
    assert forall|i: int| 0 <= i < parts.len() implies #[trigger] parts[i].len() == 12 by {}
    lemma_concat_all_uniform(parts, 12);
    assert(12 * parts.len() == 12 * ws.len());
}

/// The files boops lists are saved as: the boops file of list `i` at `2 * i`, its arguments
/// file right after it.
proof fn lemma_boops_files_index(bs: Seq<Boops>)
    ensures
        boops_files(bs).len() == 2 * bs.len(),
        forall|i: int|
            0 <= i < bs.len() ==> #[trigger] boops_files(bs)[2 * i] == (bs[i].name@ + boops_file_suffix(), boops_file(
                boops_view(bs[i].boops@),
            )) && boops_files(bs)[2 * i + 1] == (bs[i].name@ + "_boops_args.bin"@, args_file(
                boops_view(bs[i].boops@),
            )),
    decreases bs.len(),
{
    if bs.len() > 0 {
        let t = bs.drop_last();
        lemma_boops_files_index(t);
        assert forall|i: int| 0 <= i < bs.len() implies #[trigger] boops_files(bs)[2 * i] == (bs[i].name@
            + boops_file_suffix(), boops_file(boops_view(bs[i].boops@))) && boops_files(bs)[2 * i + 1] == (
        bs[i].name@ + "_boops_args.bin"@, args_file(boops_view(bs[i].boops@))) by {
            if i < t.len() {
                assert(t[i] == bs[i]);
                assert(boops_files(t)[2 * i] == boops_files(bs)[2 * i]);
            }
        }
    }
}

/// Of the files boops lists are saved as, the boops files are taken for boops and the
/// arguments files for nothing, when each list's indexes are as assigned.
#[verifier::spinoff_prover]
proof fn lemma_boops_files_of_kind(bs: Seq<Boops>)
    requires
        forall|j: int| 0 <= j < bs.len() ==> boops_assigned(boops_view(#[trigger] bs[j].boops@)),
    ensures
        files_of_kind(boops_files(bs), SavedKind::Boops) == boops_only_files(bs),
    decreases bs.len(),
{
    if bs.len() == 0 {
        assert(boops_only_files(bs) =~= Seq::<(Seq<char>, Seq<u8>)>::empty());
    } else {
        let t = bs.drop_last();
        let b = bs.last();
        assert forall|j: int| 0 <= j < t.len() implies boops_assigned(boops_view(#[trigger] t[j].boops@)) by {
            assert(t[j] == bs[j]);
        }
        lemma_boops_files_of_kind(t);
        let ws = boops_view(b.boops@);
        assert(boops_assigned(boops_view(bs[bs.len() - 1].boops@)));
        let f1 = (b.name@ + boops_file_suffix(), boops_file(ws));
        let f2 = (b.name@ + "_boops_args.bin"@, args_file(ws));
        lemma_boops_pair_kinds(b.name@, ws);
        lemma_files_of_kind_concat(boops_files(t), seq![f1, f2], SavedKind::Boops);
        assert(boops_only_files(bs) =~= boops_only_files(t).push(f1));
    }
}

/// A boops list's two files, taken for boops: its boops file alone.
proof fn lemma_boops_pair_kinds(name: Seq<char>, ws: Seq<BoopView>)
    requires
        boops_assigned(ws),
    ensures
        files_of_kind(
            seq![(name + boops_file_suffix(), boops_file(ws)), (name + "_boops_args.bin"@, args_file(ws))],
            SavedKind::Boops,
        ) == seq![(name + boops_file_suffix(), boops_file(ws))],
{
    reveal_strlit("_boops.bin");
    reveal_strlit("_boops_args.bin");
    lemma_assigned_files_read(ws);
    let f1 = (name + boops_file_suffix(), boops_file(ws));
    let f2 = (name + "_boops_args.bin"@, args_file(ws));
    lemma_boops_file_kinds(name, boops_file(ws), args_file(ws));
    lemma_ends_with_own(name, boops_file_suffix());
    lemma_ending_differs(name, "_boops_args.bin"@, boops_file_suffix(), 0);
    assert(saved_kind(f1.0, f1.1) == SavedKind::Boops);
    assert(saved_kind(f2.0, f2.1) != SavedKind::Boops);
    let two = seq![f1, f2];
    let one = seq![f1];
    let none = Seq::<(Seq<char>, Seq<u8>)>::empty();
    assert(two.drop_last() =~= one);
    assert(one.drop_last() =~= none);
    assert(files_of_kind(none, SavedKind::Boops) == none);
    assert(files_of_kind(one, SavedKind::Boops) == none.push(f1));
    assert(files_of_kind(two, SavedKind::Boops) == files_of_kind(one, SavedKind::Boops));
    assert(none.push(f1) =~= one);
}

/// The first file named `name` is at `idx` when it is named so and no file before it is.
proof fn lemma_first_file_at(fs: Seq<(Seq<char>, Seq<u8>)>, name: Seq<char>, idx: int)
    requires
        0 <= idx < fs.len(),
        fs[idx].0 == name,
        forall|i: int| 0 <= i < idx ==> #[trigger] fs[i].0 != name,
    ensures
        first_file_named(fs, name, fs.len() as int) == Some(idx),
{
    lemma_no_file_named_before(fs, name, idx);
    assert(first_file_named(fs, name, idx + 1) == Some(idx));
    lemma_first_file_named_stays(fs, name, idx + 1, fs.len() as int);
}

proof fn lemma_no_file_named_before(fs: Seq<(Seq<char>, Seq<u8>)>, name: Seq<char>, n: int)
    requires
        0 <= n <= fs.len(),
        forall|i: int| 0 <= i < n ==> #[trigger] fs[i].0 != name,
    ensures
        first_file_named(fs, name, n) is None,
    decreases n,
{
    if n > 0 {
        lemma_no_file_named_before(fs, name, n - 1);
    }
}

/// Two names followed by the same ending are the same when the results are.
proof fn lemma_cancel_ending(a: Seq<char>, b: Seq<char>, ending: Seq<char>)
    requires
        a + ending == b + ending,
    ensures
        a == b,
{
    assert((a + ending).len() == (b + ending).len());
    assert(a =~= (a + ending).take(a.len() as int));
    assert(b =~= (b + ending).take(b.len() as int));
}

/// A name ending `first` is not a name ending `second` when the endings differ where
/// `second` would start, at place `k` of it.
proof fn lemma_names_differ(a: Seq<char>, first: Seq<char>, b: Seq<char>, second: Seq<char>, k: int)
    requires
        0 <= k < second.len(),
        second.len() - k <= first.len(),
        first[first.len() - second.len() + k] != second[k],
    ensures
        a + first != b + second,
{
    lemma_ending_differs(a, first, second, k);
    lemma_ends_with_own(b, second);
}

/// The boops lists have different names.
pub open spec fn boops_names_differ(bs: Seq<Boops>) -> bool {
    forall|i: int, j: int| 0 <= i < bs.len() && 0 <= j < bs.len() && i != j ==> #[trigger] bs[i].name@ != #[trigger] bs[j].name@
}

/// The saved files of a project taken for boops are the boops files of its boops lists.
#[verifier::spinoff_prover]
proof fn lemma_project_boops_files(p: Project)
    requires
        forall|j: int| 0 <= j < p.boop_maps().len() ==> boops_assigned(boops_view(#[trigger] p.boop_maps()[j].boops@)),
    ensures
        files_of_kind(project_files(p), SavedKind::Boops) == boops_only_files(p.boop_maps()),
{
    let pf = palette_files(p.palettes());
    let cf = character_data_files(p.character_maps());
    let sf = screen_data_files(p.screen_maps());
    let bf = boops_files(p.boop_maps());
    assert forall|j: int| 0 <= j < pf.len() implies #[trigger] saved_kind(pf[j].0, pf[j].1) != SavedKind::Boops by {
        lemma_palette_file_kind(p.palettes()[j].name_view(), pf[j].1);
    }
    assert forall|j: int| 0 <= j < cf.len() implies #[trigger] saved_kind(cf[j].0, cf[j].1) != SavedKind::Boops by {
        lemma_character_data_file_kind(p.character_maps()[j].name_view(), cf[j].1);
    }
    assert forall|j: int| 0 <= j < sf.len() implies #[trigger] saved_kind(sf[j].0, sf[j].1) != SavedKind::Boops by {
        lemma_screen_data_file_kind(p.screen_maps()[j].name_view(), sf[j].1);
    }
    lemma_files_of_kind_uniform(pf, SavedKind::Boops);
    lemma_files_of_kind_uniform(cf, SavedKind::Boops);
    lemma_files_of_kind_uniform(sf, SavedKind::Boops);
    lemma_boops_files_of_kind(p.boop_maps());
    lemma_files_of_kind_concat(pf, cf, SavedKind::Boops);
    lemma_files_of_kind_concat(pf + cf, sf, SavedKind::Boops);
    lemma_files_of_kind_concat(pf + cf + sf, bf, SavedKind::Boops);
    let e = Seq::<(Seq<char>, Seq<u8>)>::empty();
    assert(e + e + e + boops_only_files(p.boop_maps()) =~= boops_only_files(p.boop_maps()));
}

/// The arguments file found for a saved boops list is its own, when the lists' names differ.
#[verifier::spinoff_prover]
#[verifier::rlimit(40)]
proof fn lemma_boops_args_found(p: Project, j: int)
    requires
        0 <= j < p.boop_maps().len(),
        boops_names_differ(p.boop_maps()),
    ensures
        boops_args_of(project_files(p), p.boop_maps()[j].name@ + boops_file_suffix()) == args_file(
            boops_view(p.boop_maps()[j].boops@),
        ),
{
    reveal_strlit("_boops.bin");
    reveal_strlit("_boops_args.bin");
    let bs = p.boop_maps();
    let pf = palette_files(p.palettes());
    let cf = character_data_files(p.character_maps());
    let sf = screen_data_files(p.screen_maps());
    let bf = boops_files(bs);
    let all = project_files(p);
    let name = bs[j].name@;
    let args = "_boops_args.bin"@;
    let file = name + boops_file_suffix();
    assert(file.take(file.len() - boops_file_suffix().len()) =~= name);
    let target = name + args;
    lemma_boops_files_index(bs);
    let base = pf.len() + cf.len() + sf.len();
    let idx = base + 2 * j + 1;
    assert(all == pf + cf + sf + bf);
    assert(bf[2 * j] == (name + boops_file_suffix(), boops_file(boops_view(bs[j].boops@))));
    assert(all[idx] == bf[2 * j + 1]);
    assert(all[idx].0 == target);
    assert forall|i: int| 0 <= i < idx implies #[trigger] all[i].0 != target by {
        if i < pf.len() {
            assert(all[i] == pf[i]);
            lemma_names_differ(p.palettes()[i].name_view(), palette_suffix(), name, args, 3);
        } else if i < pf.len() + cf.len() {
            assert(all[i] == cf[i - pf.len()]);
            lemma_names_differ(p.character_maps()[i - pf.len()].name_view(), character_data_suffix(), name, args, 0);
        } else if i < base {
            assert(all[i] == sf[i - pf.len() - cf.len()]);
            lemma_names_differ(p.screen_maps()[i - pf.len() - cf.len()].name_view(), screen_data_suffix(), name, args, 0);
        } else {
            let r = i - base;
            let m = r / 2;
            assert(all[i] == bf[r]);
            assert(bf[2 * m] == (bs[m].name@ + boops_file_suffix(), boops_file(boops_view(bs[m].boops@))));
            if r % 2 == 0 {
                assert(r == 2 * m);
                lemma_names_differ(bs[m].name@, boops_file_suffix(), name, args, 5);
            } else {
                assert(r == 2 * m + 1);
                assert(m < j);
                if bs[m].name@ + args == target {
                    lemma_cancel_ending(bs[m].name@, name, args);
                }
            }
        }
    }
    lemma_first_file_at(all, target, idx);
}

/// The boops lists `q` have the names and boops of the lists `bs`, in order.
pub open spec fn same_boops(q: Seq<Boops>, bs: Seq<Boops>) -> bool {
    &&& q.len() == bs.len()
    &&& forall|j: int|
        0 <= j < bs.len() ==> #[trigger] q[j].name@ == bs[j].name@ && boops_view(q[j].boops@) == boops_view(
            bs[j].boops@,
        )
}

/// Boops lists read back from a saved project have the names and boops of its lists, when their
/// names differ and their argument indexes are as assigned.
proof fn lemma_boops_read_back(p: Project)
    requires
        boops_names_differ(p.boop_maps()),
        forall|j: int| 0 <= j < p.boop_maps().len() ==> boops_assigned(boops_view(#[trigger] p.boop_maps()[j].boops@)),
    ensures
        forall|q: Seq<Boops>|
            #[trigger] boops_read(q, files_of_kind(project_files(p), SavedKind::Boops), project_files(p))
                <==> same_boops(q, p.boop_maps()),
{
    let bs = p.boop_maps();
    let all = project_files(p);
    let of = boops_only_files(bs);
    lemma_project_boops_files(p);
    assert forall|j: int| 0 <= j < bs.len() implies #[trigger] of[j].0 == bs[j].name@ + boops_file_suffix()
        && boops_of_files(of[j].1, boops_args_of(all, of[j].0)) == boops_view(bs[j].boops@) by {
        lemma_boops_args_found(p, j);
        lemma_assigned_files_read(boops_view(bs[j].boops@));
    }
    assert forall|q: Seq<Boops>| #[trigger] boops_read(q, of, all) <==> same_boops(q, bs) by {
        if boops_read(q, of, all) {
            assert forall|j: int| 0 <= j < bs.len() implies #[trigger] q[j].name@ == bs[j].name@ && boops_view(
                q[j].boops@,
            ) == boops_view(bs[j].boops@) by {
                assert(of[j].0 == bs[j].name@ + boops_file_suffix());
                lemma_cancel_ending(q[j].name@, bs[j].name@, boops_file_suffix());
            }
        }
        if same_boops(q, bs) {
            assert forall|j: int| 0 <= j < of.len() implies #[trigger] q[j].name@ + boops_file_suffix() == of[j].0
                && boops_view(q[j].boops@) == boops_of_files(of[j].1, boops_args_of(all, of[j].0)) by {
                assert(of[j].0 == bs[j].name@ + boops_file_suffix());
            }
        }
    }
}

/// The palettes `q` have the names and colors of the palettes `ps`, in order.
pub open spec fn same_palettes(q: Seq<Palette>, ps: Seq<Palette>) -> bool {
    &&& q.len() == ps.len()
    &&& forall|j: int|
        0 <= j < ps.len() ==> #[trigger] q[j].name_view() == ps[j].name_view() && q[j].colors() == ps[j].colors()
}

/// The character data `q` has the names and tiles of the character data `cs`, in order.
pub open spec fn same_character_data(q: Seq<CharacterData>, cs: Seq<CharacterData>) -> bool {
    &&& q.len() == cs.len()
    &&& forall|j: int|
        0 <= j < cs.len() ==> #[trigger] q[j].name_view() == cs[j].name_view() && q[j].tiles() == cs[j].tiles()
}

/// The screen data `q` has the names and entries of the screen data `ss`, in order.
pub open spec fn same_screen_data(q: Seq<ScreenData>, ss: Seq<ScreenData>) -> bool {
    &&& q.len() == ss.len()
    &&& forall|j: int|
        0 <= j < ss.len() ==> #[trigger] q[j].name_view() == ss[j].name_view() && q[j].characters()
            == ss[j].characters()
}

/// The items of a project can be saved and read back: their names hold their file name
/// ending only at its end, palette channels are at most 31, tiles are 64 palette indexes below
/// 16, screen data has 1024 entries with tile numbers below 1024 and palette banks below 16,
/// and the boops lists have different names and argument indexes as assigning them gives.
pub open spec fn project_saves_cleanly(p: Project) -> bool {
    &&& forall|j: int|
        0 <= j < p.palettes().len() ==> {
            let q = #[trigger] p.palettes()[j];
            &&& suffix_only_at_end(q.name_view(), palette_suffix())
            &&& forall|k: int|
                0 <= k < q.color_list().len() ==> #[trigger] q.color_list()[k]@.0 <= 31 && q.color_list()[k]@.1
                    <= 31 && q.color_list()[k]@.2 <= 31
        }
    &&& forall|j: int|
        0 <= j < p.character_maps().len() ==> {
            let q = #[trigger] p.character_maps()[j];
            &&& suffix_only_at_end(q.name_view(), character_data_suffix())
            &&& forall|k: int|
                0 <= k < q.tiles().len() ==> #[trigger] q.tiles()[k].len() == 64 && fits_nibbles(q.tiles()[k])
        }
    &&& forall|j: int|
        0 <= j < p.screen_maps().len() ==> {
            let q = #[trigger] p.screen_maps()[j];
            &&& suffix_only_at_end(q.name_view(), screen_data_suffix())
            &&& q.characters().len() == 1024
            &&& forall|k: int|
                0 <= k < q.characters().len() ==> (#[trigger] q.characters()[k]).tile_number < 1024
                    && q.characters()[k].palette_number < 16
        }
    &&& boops_names_differ(p.boop_maps())
    &&& forall|j: int| 0 <= j < p.boop_maps().len() ==> boops_assigned(boops_view(#[trigger] p.boop_maps()[j].boops@))
}

/// The saved files of a project taken for each kind are those saved for that kind.
#[verifier::spinoff_prover]
proof fn lemma_project_files_by_kind(p: Project)
    ensures
        files_of_kind(project_files(p), SavedKind::Palette) == palette_files(p.palettes()),
        files_of_kind(project_files(p), SavedKind::CharacterData) == character_data_files(p.character_maps()),
        files_of_kind(project_files(p), SavedKind::ScreenData) == screen_data_files(p.screen_maps()),
{
    let pf = palette_files(p.palettes());
    let cf = character_data_files(p.character_maps());
    let sf = screen_data_files(p.screen_maps());
    let bf = boops_files(p.boop_maps());
    assert forall|j: int| 0 <= j < pf.len() implies #[trigger] saved_kind(pf[j].0, pf[j].1) == SavedKind::Palette by {
        lemma_palette_file_kind(p.palettes()[j].name_view(), pf[j].1);
    }
    assert forall|j: int| 0 <= j < cf.len() implies #[trigger] saved_kind(cf[j].0, cf[j].1)
        == SavedKind::CharacterData by {
        lemma_character_data_file_kind(p.character_maps()[j].name_view(), cf[j].1);
    }
    assert forall|j: int| 0 <= j < sf.len() implies #[trigger] saved_kind(sf[j].0, sf[j].1)
        == SavedKind::ScreenData by {
        lemma_screen_data_file_kind(p.screen_maps()[j].name_view(), sf[j].1);
    }
    lemma_boops_files_kinds(p.boop_maps());
    lemma_one_kind(pf, cf, sf, bf, SavedKind::Palette);
    lemma_one_kind(pf, cf, sf, bf, SavedKind::CharacterData);
    lemma_one_kind(pf, cf, sf, bf, SavedKind::ScreenData);
}

/// Of four lists of files, each all of one kind or none of it, the files of a kind are the
/// list of that kind.
proof fn lemma_one_kind(
    pf: Seq<(Seq<char>, Seq<u8>)>,
    cf: Seq<(Seq<char>, Seq<u8>)>,
    sf: Seq<(Seq<char>, Seq<u8>)>,
    bf: Seq<(Seq<char>, Seq<u8>)>,
    kind: SavedKind,
)
    requires
        forall|j: int| 0 <= j < pf.len() ==> #[trigger] saved_kind(pf[j].0, pf[j].1) == SavedKind::Palette,
        forall|j: int| 0 <= j < cf.len() ==> #[trigger] saved_kind(cf[j].0, cf[j].1) == SavedKind::CharacterData,
        forall|j: int| 0 <= j < sf.len() ==> #[trigger] saved_kind(sf[j].0, sf[j].1) == SavedKind::ScreenData,
        forall|j: int|
            0 <= j < bf.len() ==> {
                let k = #[trigger] saved_kind(bf[j].0, bf[j].1);
                k != SavedKind::Palette && k != SavedKind::CharacterData && k != SavedKind::ScreenData
            },
        kind == SavedKind::Palette || kind == SavedKind::CharacterData || kind == SavedKind::ScreenData,
    ensures
        files_of_kind(pf + cf + sf + bf, kind) == if kind == SavedKind::Palette {
            pf
        } else if kind == SavedKind::CharacterData {
            cf
        } else {
            sf
        },
{
    lemma_files_of_kind_uniform(pf, kind);
    lemma_files_of_kind_uniform(cf, kind);
    lemma_files_of_kind_uniform(sf, kind);
    lemma_files_of_kind_uniform(bf, kind);
    lemma_files_of_kind_concat(pf, cf, kind);
    lemma_files_of_kind_concat(pf + cf, sf, kind);
    lemma_files_of_kind_concat(pf + cf + sf, bf, kind);
    let e = Seq::<(Seq<char>, Seq<u8>)>::empty();
    if kind == SavedKind::Palette {
        assert(pf + e + e + e =~= pf);
    } else if kind == SavedKind::CharacterData {
        assert(e + cf + e + e =~= cf);
    } else {
        assert(e + e + sf + e =~= sf);
    }
}

/// Palettes read back from their saved files have their names and colors.
proof fn lemma_palette_files_read(ps: Seq<Palette>)
    requires
        forall|j: int|
            0 <= j < ps.len() ==> {
                let q = #[trigger] ps[j];
                &&& suffix_only_at_end(q.name_view(), palette_suffix())
                &&& forall|k: int|
                    0 <= k < q.color_list().len() ==> #[trigger] q.color_list()[k]@.0 <= 31 && q.color_list()[k]@.1
                        <= 31 && q.color_list()[k]@.2 <= 31
            },
    ensures
        forall|q: Seq<Palette>| #[trigger] palettes_read(q, palette_files(ps)) <==> same_palettes(q, ps),
{
    let pf = palette_files(ps);
    assert forall|q: Seq<Palette>| #[trigger] palettes_read(q, pf) <==> same_palettes(q, ps) by {
        assert forall|j: int| 0 <= j < ps.len() implies replace_all(pf[j].0, palette_suffix(), Seq::empty())
            == #[trigger] ps[j].name_view() && colors_of_bytes(pf[j].1) == ps[j].colors() by {
            lemma_replace_suffix(ps[j].name_view(), palette_suffix());
            lemma_saved_palette_colors(ps[j]);
        }
        if palettes_read(q, pf) {
            assert forall|j: int| 0 <= j < ps.len() implies #[trigger] q[j].name_view() == ps[j].name_view()
                && q[j].colors() == ps[j].colors() by {
                assert(ps[j].name_view() == replace_all(pf[j].0, palette_suffix(), Seq::empty()));
            }
        }
        if same_palettes(q, ps) {
            assert forall|j: int| 0 <= j < pf.len() implies #[trigger] q[j].name_view() == replace_all(
                pf[j].0,
                palette_suffix(),
                Seq::empty(),
            ) && q[j].colors() == colors_of_bytes(pf[j].1) by {
                assert(ps[j].name_view() == replace_all(pf[j].0, palette_suffix(), Seq::empty()));
            }
        }
    }
}

/// Character data read back from its saved files has its names and tiles.
proof fn lemma_character_data_files_read(cs: Seq<CharacterData>)
    requires
        forall|j: int|
            0 <= j < cs.len() ==> {
                let q = #[trigger] cs[j];
                &&& suffix_only_at_end(q.name_view(), character_data_suffix())
                &&& forall|k: int|
                    0 <= k < q.tiles().len() ==> #[trigger] q.tiles()[k].len() == 64 && fits_nibbles(q.tiles()[k])
            },
    ensures
        forall|q: Seq<CharacterData>| #[trigger] character_data_read(q, character_data_files(cs))
            <==> same_character_data(q, cs),
{
    let cf = character_data_files(cs);
    assert forall|q: Seq<CharacterData>| #[trigger] character_data_read(q, cf) <==> same_character_data(q, cs) by {
        assert forall|j: int| 0 <= j < cs.len() implies replace_all(cf[j].0, character_data_suffix(), Seq::empty())
            == #[trigger] cs[j].name_view() && tiles_of_bytes(cf[j].1) == cs[j].tiles() by {
            lemma_replace_suffix(cs[j].name_view(), character_data_suffix());
            lemma_tile_map_round_trip(cs[j].tiles());
        }
        if character_data_read(q, cf) {
            assert forall|j: int| 0 <= j < cs.len() implies #[trigger] q[j].name_view() == cs[j].name_view()
                && q[j].tiles() == cs[j].tiles() by {
                assert(cs[j].name_view() == replace_all(cf[j].0, character_data_suffix(), Seq::empty()));
            }
        }
        if same_character_data(q, cs) {
            assert forall|j: int| 0 <= j < cf.len() implies #[trigger] q[j].name_view() == replace_all(
                cf[j].0,
                character_data_suffix(),
                Seq::empty(),
            ) && q[j].tiles() == tiles_of_bytes(cf[j].1) by {
                assert(cs[j].name_view() == replace_all(cf[j].0, character_data_suffix(), Seq::empty()));
            }
        }
    }
}

/// Screen data read back from its saved files has its names and entries, and each file holds
/// at most 1024 entries.
proof fn lemma_screen_data_files_read(ss: Seq<ScreenData>)
    requires
        forall|j: int|
            0 <= j < ss.len() ==> {
                let q = #[trigger] ss[j];
                &&& suffix_only_at_end(q.name_view(), screen_data_suffix())
                &&& q.characters().len() == 1024
                &&& forall|k: int|
                    0 <= k < q.characters().len() ==> (#[trigger] q.characters()[k]).tile_number < 1024
                        && q.characters()[k].palette_number < 16
            },
    ensures
        forall|q: Seq<ScreenData>| #[trigger] screen_data_read(q, screen_data_files(ss)) <==> same_screen_data(q, ss),
        forall|j: int| 0 <= j < ss.len() ==> #[trigger] screen_data_files(ss)[j].1.len() / 2 <= 1024,
{
    let sf = screen_data_files(ss);
    assert forall|j: int| 0 <= j < ss.len() implies replace_all(sf[j].0, screen_data_suffix(), Seq::empty())
        == #[trigger] ss[j].name_view() && grid_of_bytes(sf[j].1) == ss[j].characters() && sf[j].1.len() / 2 <= 1024 by {
        lemma_replace_suffix(ss[j].name_view(), screen_data_suffix());
        lemma_screen_round_trip(ss[j].characters());
        assert(grid_of_bytes(sf[j].1) =~= ss[j].characters());
    }
    assert forall|j: int| 0 <= j < ss.len() implies #[trigger] sf[j].1.len() / 2 <= 1024 by {
        assert(ss[j].name_view() == replace_all(sf[j].0, screen_data_suffix(), Seq::empty()));
    }
    assert forall|q: Seq<ScreenData>| #[trigger] screen_data_read(q, sf) <==> same_screen_data(q, ss) by {
        if screen_data_read(q, sf) {
            assert forall|j: int| 0 <= j < ss.len() implies #[trigger] q[j].name_view() == ss[j].name_view()
                && q[j].characters() == ss[j].characters() by {
                assert(ss[j].name_view() == replace_all(sf[j].0, screen_data_suffix(), Seq::empty()));
            }
        }
        if same_screen_data(q, ss) {
            assert forall|j: int| 0 <= j < sf.len() implies #[trigger] q[j].name_view() == replace_all(
                sf[j].0,
                screen_data_suffix(),
                Seq::empty(),
            ) && q[j].characters() == grid_of_bytes(sf[j].1) by {
                assert(ss[j].name_view() == replace_all(sf[j].0, screen_data_suffix(), Seq::empty()));
            }
        }
    }
}

/// Saving a project and reading its files back: every screen data file holds at most 1024
/// entries, and the palettes, character data, screen data and boops lists read back from the
/// files have exactly the names and contents of the project's, in the same order (before
/// `from_files` sorts the first three by name), as long as the project saves cleanly.
pub proof fn lemma_saved_project_reads_back(p: Project)
    requires
        project_saves_cleanly(p),
    ensures
        forall|j: int|
            0 <= j < project_files(p).len() && saved_kind(project_files(p)[j].0, project_files(p)[j].1)
                == SavedKind::ScreenData ==> #[trigger] project_files(p)[j].1.len() / 2 <= 1024,
        forall|q: Seq<Palette>|
            #[trigger] palettes_read(q, files_of_kind(project_files(p), SavedKind::Palette)) <==> same_palettes(
                q,
                p.palettes(),
            ),
        forall|q: Seq<CharacterData>|
            #[trigger] character_data_read(q, files_of_kind(project_files(p), SavedKind::CharacterData))
                <==> same_character_data(q, p.character_maps()),
        forall|q: Seq<ScreenData>|
            #[trigger] screen_data_read(q, files_of_kind(project_files(p), SavedKind::ScreenData))
                <==> same_screen_data(q, p.screen_maps()),
        forall|q: Seq<Boops>|
            #[trigger] boops_read(q, files_of_kind(project_files(p), SavedKind::Boops), project_files(p))
                <==> same_boops(q, p.boop_maps()),
{
    lemma_boops_read_back(p);
    lemma_project_files_by_kind(p);
    lemma_palette_files_read(p.palettes());
    lemma_character_data_files_read(p.character_maps());
    lemma_screen_data_files_read(p.screen_maps());
    lemma_screen_file_sizes(p);
}

/// Every saved file of a project that is taken for screen data holds at most 1024 entries.
#[verifier::spinoff_prover]
proof fn lemma_screen_file_sizes(p: Project)
    requires
        project_saves_cleanly(p),
    ensures
        forall|j: int|
            0 <= j < project_files(p).len() && saved_kind(project_files(p)[j].0, project_files(p)[j].1)
                == SavedKind::ScreenData ==> #[trigger] project_files(p)[j].1.len() / 2 <= 1024,
{
    let pf = palette_files(p.palettes());
    let cf = character_data_files(p.character_maps());
    let sf = screen_data_files(p.screen_maps());
    let bf = boops_files(p.boop_maps());
    let all = project_files(p);
    lemma_screen_data_files_read(p.screen_maps());
    lemma_boops_files_kinds(p.boop_maps());
    assert forall|j: int|
        0 <= j < all.len() && saved_kind(all[j].0, all[j].1) == SavedKind::ScreenData implies #[trigger] all[j].1.len()
        / 2 <= 1024 by {
        if j < pf.len() {
            assert(all[j] == pf[j]);
            lemma_palette_file_kind(p.palettes()[j].name_view(), pf[j].1);
        } else if j < pf.len() + cf.len() {
            assert(all[j] == cf[j - pf.len()]);
            lemma_character_data_file_kind(p.character_maps()[j - pf.len()].name_view(), cf[j - pf.len()].1);
        } else if j < pf.len() + cf.len() + sf.len() {
            assert(all[j] == sf[j - pf.len() - cf.len()]);
        } else {
            assert(all[j] == bf[j - pf.len() - cf.len() - sf.len()]);
        }
    }
}

} // verus!
