//! Boops with a flag byte that records which of their optional fields are set, and the two
//! files a list of them is saved to.
use vstd::prelude::*;
use crate::error::{Error, ErrorV};
use crate::text::{chars_of, ends_with, ends_with_chars, string_of};
use crate::trim::{concat_all, lemma_concat_all_part, lemma_concat_all_uniform};

verus! {

pub const FLAG_NORTH: u8 = 0;

pub const FLAG_EAST: u8 = 1;

pub const FLAG_SOUTH: u8 = 2;

pub const FLAG_WEST: u8 = 3;

pub const FLAG_CALLBACK: u8 = 4;

pub const FLAG_ARGS_INDEX: u8 = 5;

/// Whether bit `bit` of `flags` is set.
pub open spec fn has_flag(flags: u8, bit: u8) -> bool {
    (flags >> bit) & 1u8 == 1u8
}

/// `flags` with bit `bit` set when `present`, cleared otherwise.
pub open spec fn with_flag(flags: u8, bit: u8, present: bool) -> u8 {
    if present {
        flags | (1u8 << bit)
    } else {
        flags & !(1u8 << bit)
    }
}

/// The contents of a boop.
pub struct BoopView {
    pub sx: u8,
    pub sy: u8,
    pub ex: u8,
    pub ey: u8,
    pub flags: u8,
    pub north: Option<u8>,
    pub east: Option<u8>,
    pub south: Option<u8>,
    pub west: Option<u8>,
    pub callback_index: Option<u8>,
    pub args_index: Option<u8>,
    pub actual_args: Seq<u8>,
}

/// The flag byte agrees with which optional fields are set.
pub open spec fn flags_agree(v: BoopView) -> bool {
    &&& has_flag(v.flags, FLAG_NORTH) == v.north is Some
    &&& has_flag(v.flags, FLAG_EAST) == v.east is Some
    &&& has_flag(v.flags, FLAG_SOUTH) == v.south is Some
    &&& has_flag(v.flags, FLAG_WEST) == v.west is Some
    &&& has_flag(v.flags, FLAG_CALLBACK) == v.callback_index is Some
    &&& has_flag(v.flags, FLAG_ARGS_INDEX) == v.args_index is Some
}

pub open spec fn or_zero(o: Option<u8>) -> u8 {
    match o {
        Some(v) => v,
        None => 0u8,
    }
}

/// The 12 bytes a boop is saved as.
pub open spec fn boop_bytes(v: BoopView) -> Seq<u8> {
    seq![
        v.sx,
        v.sy,
        v.ex,
        v.ey,
        v.flags,
        or_zero(v.north),
        or_zero(v.east),
        or_zero(v.south),
        or_zero(v.west),
        or_zero(v.callback_index),
        or_zero(v.args_index),
        v.actual_args.len() as u8,
    ]
}

pub open spec fn field_if(flags: u8, bit: u8, value: u8) -> Option<u8> {
    if has_flag(flags, bit) {
        Some(value)
    } else {
        None
    }
}

/// The arguments a saved boop refers to: `len` bytes from `index` of the arguments file, or
/// none when it has no arguments index or the range runs past the file.
pub open spec fn args_of(args_index: Option<u8>, len: u8, args_data: Seq<u8>) -> Seq<u8> {
    match args_index {
        Some(idx) => if idx + len <= args_data.len() {
            args_data.subrange(idx as int, idx + len)
        } else {
            Seq::empty()
        },
        None => Seq::empty(),
    }
}

/// The boop read back from its 12 bytes and the arguments file.
pub open spec fn boop_of_bytes(b: Seq<u8>, args_data: Seq<u8>) -> BoopView {
    let flags = b[4];
    BoopView {
        sx: b[0],
        sy: b[1],
        ex: b[2],
        ey: b[3],
        flags,
        north: field_if(flags, FLAG_NORTH, b[5]),
        east: field_if(flags, FLAG_EAST, b[6]),
        south: field_if(flags, FLAG_SOUTH, b[7]),
        west: field_if(flags, FLAG_WEST, b[8]),
        callback_index: field_if(flags, FLAG_CALLBACK, b[9]),
        args_index: field_if(flags, FLAG_ARGS_INDEX, b[10]),
        actual_args: args_of(field_if(flags, FLAG_ARGS_INDEX, b[10]), b[11], args_data),
    }
}

/// Setting or clearing one bit leaves the others as they were.
pub proof fn lemma_with_flag(flags: u8, bit: u8, present: bool, other: u8)
    requires
        bit < 8,
        other < 8,
    ensures
        has_flag(with_flag(flags, bit, present), other) == (if other == bit {
            present
        } else {
            has_flag(flags, other)
        }),
{
    if present {
        assert(has_flag(flags | (1u8 << bit), other) == (if other == bit {
            true
        } else {
            has_flag(flags, other)
        })) by (bit_vector)
            requires
                bit < 8,
                other < 8,
        ;
    } else {
        assert(has_flag(flags & !(1u8 << bit), other) == (if other == bit {
            false
        } else {
            has_flag(flags, other)
        })) by (bit_vector)
            requires
                bit < 8,
                other < 8,
        ;
    }
}

/// A rectangular area of a screen with optional neighbours in the four directions, an
/// optional callback and arguments.
pub struct Boop {
    sx: u8,
    sy: u8,
    ex: u8,
    ey: u8,
    flags: u8,
    north: Option<u8>,
    east: Option<u8>,
    south: Option<u8>,
    west: Option<u8>,
    callback_index: Option<u8>,
    args_index: Option<u8>,
    actual_args: Vec<u8>,
}

impl View for Boop {
    type V = BoopView;

    closed spec fn view(&self) -> BoopView {
        BoopView {
            sx: self.sx,
            sy: self.sy,
            ex: self.ex,
            ey: self.ey,
            flags: self.flags,
            north: self.north,
            east: self.east,
            south: self.south,
            west: self.west,
            callback_index: self.callback_index,
            args_index: self.args_index,
            actual_args: self.actual_args@,
        }
    }
}

impl Boop {
    #[verifier::type_invariant]
    spec fn flags_match(self) -> bool {
        flags_agree(self@)
    }

    /// A boop spanning `(sx, sy)` to `(ex, ey)` with nothing else set.
    pub fn new(sx: u8, sy: u8, ex: u8, ey: u8) -> (b: Self)
        ensures
            b@ == (BoopView {
                sx,
                sy,
                ex,
                ey,
                flags: 0,
                north: None,
                east: None,
                south: None,
                west: None,
                callback_index: None,
                args_index: None,
                actual_args: Seq::empty(),
            }),
    {
        assert(!has_flag(0u8, FLAG_NORTH) && !has_flag(0u8, FLAG_EAST) && !has_flag(0u8, FLAG_SOUTH)
            && !has_flag(0u8, FLAG_WEST) && !has_flag(0u8, FLAG_CALLBACK) && !has_flag(
            0u8,
            FLAG_ARGS_INDEX,
        )) by (bit_vector);
        Boop {
            sx,
            sy,
            ex,
            ey,
            flags: 0,
            north: None,
            east: None,
            south: None,
            west: None,
            callback_index: None,
            args_index: None,
            actual_args: Vec::new(),
        }
    }

    pub fn sx(&self) -> (v: u8)
        ensures
            v == self@.sx,
    {
        self.sx
    }

    pub fn sy(&self) -> (v: u8)
        ensures
            v == self@.sy,
    {
        self.sy
    }

    pub fn ex(&self) -> (v: u8)
        ensures
            v == self@.ex,
    {
        self.ex
    }

    pub fn ey(&self) -> (v: u8)
        ensures
            v == self@.ey,
    {
        self.ey
    }

    /// The flag byte; it always agrees with the optional fields.
    pub fn flags(&self) -> (v: u8)
        ensures
            v == self@.flags,
            flags_agree(self@),
    {
        proof {
            use_type_invariant(self);
        }
        self.flags
    }

    pub fn north(&self) -> (v: Option<u8>)
        ensures
            v == self@.north,
    {
        self.north
    }

    pub fn east(&self) -> (v: Option<u8>)
        ensures
            v == self@.east,
    {
        self.east
    }

    pub fn south(&self) -> (v: Option<u8>)
        ensures
            v == self@.south,
    {
        self.south
    }

    pub fn west(&self) -> (v: Option<u8>)
        ensures
            v == self@.west,
    {
        self.west
    }

    pub fn callback_index(&self) -> (v: Option<u8>)
        ensures
            v == self@.callback_index,
    {
        self.callback_index
    }

    pub fn args_index(&self) -> (v: Option<u8>)
        ensures
            v == self@.args_index,
    {
        self.args_index
    }

    pub fn actual_args(&self) -> (v: &Vec<u8>)
        ensures
            v@ == self@.actual_args,
    {
        &self.actual_args
    }

    /// Sets the northern neighbour and its flag.
    pub fn set_north(&mut self, value: Option<u8>)
        ensures
            final(self)@ == (BoopView {
                north: value,
                flags: with_flag(old(self)@.flags, FLAG_NORTH, value is Some),
                ..old(self)@
            }),
    {
        proof {
            use_type_invariant(&*self);
            lemma_flags_after(self@.flags, FLAG_NORTH, value is Some);
        }
        let flags = if value.is_some() {
            self.flags | (1u8 << FLAG_NORTH)
        } else {
            self.flags & !(1u8 << FLAG_NORTH)
        };
        self.replace_options(flags, value, self.east, self.south, self.west, self.callback_index, self.args_index);
    }

    /// Sets the eastern neighbour and its flag.
    pub fn set_east(&mut self, value: Option<u8>)
        ensures
            final(self)@ == (BoopView {
                east: value,
                flags: with_flag(old(self)@.flags, FLAG_EAST, value is Some),
                ..old(self)@
            }),
    {
        proof {
            use_type_invariant(&*self);
            lemma_flags_after(self@.flags, FLAG_EAST, value is Some);
        }
        let flags = if value.is_some() {
            self.flags | (1u8 << FLAG_EAST)
        } else {
            self.flags & !(1u8 << FLAG_EAST)
        };
        self.replace_options(flags, self.north, value, self.south, self.west, self.callback_index, self.args_index);
    }

    /// Sets the southern neighbour and its flag.
    pub fn set_south(&mut self, value: Option<u8>)
        ensures
            final(self)@ == (BoopView {
                south: value,
                flags: with_flag(old(self)@.flags, FLAG_SOUTH, value is Some),
                ..old(self)@
            }),
    {
        proof {
            use_type_invariant(&*self);
            lemma_flags_after(self@.flags, FLAG_SOUTH, value is Some);
        }
        let flags = if value.is_some() {
            self.flags | (1u8 << FLAG_SOUTH)
        } else {
            self.flags & !(1u8 << FLAG_SOUTH)
        };
        self.replace_options(flags, self.north, self.east, value, self.west, self.callback_index, self.args_index);
    }

    /// Sets the western neighbour and its flag.
    pub fn set_west(&mut self, value: Option<u8>)
        ensures
            final(self)@ == (BoopView {
                west: value,
                flags: with_flag(old(self)@.flags, FLAG_WEST, value is Some),
                ..old(self)@
            }),
    {
        proof {
            use_type_invariant(&*self);
            lemma_flags_after(self@.flags, FLAG_WEST, value is Some);
        }
        let flags = if value.is_some() {
            self.flags | (1u8 << FLAG_WEST)
        } else {
            self.flags & !(1u8 << FLAG_WEST)
        };
        self.replace_options(flags, self.north, self.east, self.south, value, self.callback_index, self.args_index);
    }

    /// Sets the callback index and its flag.
    pub fn set_callback_index(&mut self, value: Option<u8>)
        ensures
            final(self)@ == (BoopView {
                callback_index: value,
                flags: with_flag(old(self)@.flags, FLAG_CALLBACK, value is Some),
                ..old(self)@
            }),
    {
        proof {
            use_type_invariant(&*self);
            lemma_flags_after(self@.flags, FLAG_CALLBACK, value is Some);
        }
        let flags = if value.is_some() {
            self.flags | (1u8 << FLAG_CALLBACK)
        } else {
            self.flags & !(1u8 << FLAG_CALLBACK)
        };
        self.replace_options(flags, self.north, self.east, self.south, self.west, value, self.args_index);
    }

    /// Sets the arguments index and its flag, and the arguments.
    pub fn set_args(&mut self, args_index: Option<u8>, actual_args: Vec<u8>)
        ensures
            final(self)@ == (BoopView {
                args_index,
                actual_args: actual_args@,
                flags: with_flag(old(self)@.flags, FLAG_ARGS_INDEX, args_index is Some),
                ..old(self)@
            }),
    {
        proof {
            use_type_invariant(&*self);
            lemma_flags_after(self@.flags, FLAG_ARGS_INDEX, args_index is Some);
        }
        let flags = if args_index.is_some() {
            self.flags | (1u8 << FLAG_ARGS_INDEX)
        } else {
            self.flags & !(1u8 << FLAG_ARGS_INDEX)
        };
        self.actual_args = actual_args;
        self.replace_options(
            flags,
            self.north,
            self.east,
            self.south,
            self.west,
            self.callback_index,
            args_index,
        );
    }

    /// The 12 bytes this boop is saved as.
    pub fn to_bytes(&self) -> (bytes: [u8; 12])
        ensures
            bytes@ == boop_bytes(self@),
    {
        let bytes = [
            self.sx,
            self.sy,
            self.ex,
            self.ey,
            self.flags,
            self.north.unwrap_or(0),
            self.east.unwrap_or(0),
            self.south.unwrap_or(0),
            self.west.unwrap_or(0),
            self.callback_index.unwrap_or(0),
            self.args_index.unwrap_or(0),
            self.actual_args.len() as u8,
        ];
        assert(bytes@ =~= boop_bytes(self@));
        bytes
    }

    /// Reads a boop from its 12 bytes; its arguments come from `args_data`.
    pub fn from_bytes(bytes: &[u8; 12], args_data: &[u8]) -> (b: Self)
        ensures
            b@ == boop_of_bytes(bytes@, args_data@),
    {
        let flags = bytes[4];
        let north = if has_flag_exec(flags, FLAG_NORTH) {
            Some(bytes[5])
        } else {
            None
        };
        let east = if has_flag_exec(flags, FLAG_EAST) {
            Some(bytes[6])
        } else {
            None
        };
        let south = if has_flag_exec(flags, FLAG_SOUTH) {
            Some(bytes[7])
        } else {
            None
        };
        let west = if has_flag_exec(flags, FLAG_WEST) {
            Some(bytes[8])
        } else {
            None
        };
        let callback_index = if has_flag_exec(flags, FLAG_CALLBACK) {
            Some(bytes[9])
        } else {
            None
        };
        let args_index = if has_flag_exec(flags, FLAG_ARGS_INDEX) {
            Some(bytes[10])
        } else {
            None
        };
        let args_len = bytes[11] as usize;
        let mut actual_args: Vec<u8> = Vec::new();
        if let Some(idx) = args_index {
            let start = idx as usize;
            let end = start + args_len;
            if end <= args_data.len() {
                let mut k = start;
                while k < end
                    invariant
                        start <= k <= end,
                        end <= args_data@.len(),
                        actual_args@ == args_data@.subrange(start as int, k as int),
                    decreases end - k,
                {
                    actual_args.push(args_data[k]);
                    assert(args_data@.subrange(start as int, k + 1) =~= args_data@.subrange(
                        start as int,
                        k as int,
                    ).push(args_data@[k as int]));
                    k += 1;
                }
            }
        }
        let b = Boop {
            sx: bytes[0],
            sy: bytes[1],
            ex: bytes[2],
            ey: bytes[3],
            flags,
            north,
            east,
            south,
            west,
            callback_index,
            args_index,
            actual_args,
        };
        assert(b@.actual_args =~= boop_of_bytes(bytes@, args_data@).actual_args);
        b
    }

    fn replace_options(
        &mut self,
        flags: u8,
        north: Option<u8>,
        east: Option<u8>,
        south: Option<u8>,
        west: Option<u8>,
        callback_index: Option<u8>,
        args_index: Option<u8>,
    )
        requires
            flags_agree(
                BoopView {
                    flags,
                    north,
                    east,
                    south,
                    west,
                    callback_index,
                    args_index,
                    ..old(self)@
                },
            ),
        ensures
            final(self)@ == (BoopView {
                flags,
                north,
                east,
                south,
                west,
                callback_index,
                args_index,
                ..old(self)@
            }),
    {
        proof {
            use_type_invariant(&*self);
        }
        let mut actual_args = Vec::new();
        std::mem::swap(&mut actual_args, &mut self.actual_args);
        *self =
        Boop {
            sx: self.sx,
            sy: self.sy,
            ex: self.ex,
            ey: self.ey,
            flags,
            north,
            east,
            south,
            west,
            callback_index,
            args_index,
            actual_args,
        };
    }
}

/// A named list of boops.
pub struct Boops {
    pub name: String,
    pub boops: Vec<Boop>,
}

impl Boops {
    /// An empty list of boops.
    pub fn new(name: &str) -> (b: Self)
        ensures
            b.name@ == name@,
            b.boops@.len() == 0,
    {
        Boops { name: name.to_owned(), boops: Vec::new() }
    }

    /// The contents of the boops file and of the arguments file.
    pub fn as_data(&self) -> (files: (Vec<u8>, Vec<u8>))
        ensures
            files.0@ == boops_file(boops_view(self.boops@)),
            files.1@ == args_file(boops_view(self.boops@)),
    {
        let ghost vs = boops_view(self.boops@);
        let mut boops_data: Vec<u8> = Vec::new();
        let mut args_data: Vec<u8> = Vec::new();
        let mut i: usize = 0;
        while i < self.boops.len()
            invariant
                i <= self.boops@.len(),
                vs == boops_view(self.boops@),
                boops_data@ == boops_file(vs.take(i as int)),
                args_data@ == args_file(vs.take(i as int)),
            decreases self.boops@.len() - i,
        {
            let bytes = self.boops[i].to_bytes();
            let ghost before = boops_data@;
            let mut j: usize = 0;
            while j < 12
                invariant
                    j <= 12,
                    bytes@.len() == 12,
                    boops_data@ == before + bytes@.take(j as int),
                decreases 12 - j,
            {
                boops_data.push(bytes[j]);
                assert(bytes@.take(j + 1) =~= bytes@.take(j as int).push(bytes@[j as int]));
                j += 1;
            }
            let args = self.boops[i].actual_args();
            let ghost before_args = args_data@;
            let mut j: usize = 0;
            while j < args.len()
                invariant
                    j <= args@.len(),
                    args_data@ == before_args + args@.take(j as int),
                decreases args@.len() - j,
            {
                args_data.push(args[j]);
                assert(args@.take(j + 1) =~= args@.take(j as int).push(args@[j as int]));
                j += 1;
            }
            proof {
                let t = vs.take(i + 1);
                let f = |v: BoopView| boop_bytes(v);
                let g = |v: BoopView| v.actual_args;
                assert(t.map_values(f).drop_last() =~= vs.take(i as int).map_values(f));
                assert(t.map_values(g).drop_last() =~= vs.take(i as int).map_values(g));
                assert(t.last() == self.boops@[i as int]@);
                assert(bytes@.take(12) =~= bytes@);
                assert(args@.take(args@.len() as int) =~= args@);
            }
            i += 1;
        }
        assert(vs.take(i as int) =~= vs);
        (boops_data, args_data)
    }

    /// Gives each boop with arguments the index where its arguments start in the arguments
    /// file, in order, and returns the contents of the boops file and the arguments file.
    /// Fails when an index or the end of a boop's arguments would pass 255; the boops up to
    /// and including that one have then been given their indexes.
    pub fn assign_args_indices_and_save(&mut self) -> (res: Result<(Vec<u8>, Vec<u8>), Error>)
        ensures
            final(self).name == old(self).name,
            ({
                let vs = boops_view(old(self).boops@);
                match first_overflow(vs) {
                    None => {
                        &&& boops_view(final(self).boops@) == assigned_upto(vs, vs.len() as int)
                        &&& res matches Ok(files) && files.0@ == boops_file(
                            assigned_upto(vs, vs.len() as int),
                        ) && files.1@ == args_file(assigned_upto(vs, vs.len() as int))
                    },
                    Some(k) => {
                        &&& boops_view(final(self).boops@) == assigned_upto(vs, k + 1)
                        &&& res matches Err(e) && e == Error::ArgsIndexOverflow
                    },
                }
            }),
    {
        let ghost vs = boops_view(self.boops@);
        let mut cursor: u8 = 0;
        let mut i: usize = 0;
        while i < self.boops.len()
            invariant
                i <= vs.len(),
                self.boops@.len() == vs.len(),
                self.name == old(self).name,
                vs == boops_view(old(self).boops@),
                boops_view(self.boops@) == assigned_upto(vs, i as int),
                cursor == args_offset(vs, i as int),
                forall|j: int| 0 <= j < i ==> !#[trigger] overflows_at(vs, j),
            decreases vs.len() - i,
        {
            let ghost before = boops_view(self.boops@);
            assert(before[i as int] == vs[i as int]);
            if self.boops[i].actual_args().len() > 0 {
                let args = self.boops[i].actual_args().clone();
                assert(args@ =~= vs[i as int].actual_args);
                let len = args.len() as u8;
                self.boops[i].set_args(Some(cursor), args);
                proof {
                    let now = boops_view(self.boops@);
                    let want = assigned_upto(vs, i + 1);
                    assert(now.len() == want.len());
                    assert(now[i as int] == want[i as int]);
                    assert forall|j: int| 0 <= j < now.len() && j != i implies now[j] == want[j] by {
                        assert(now[j] == before[j]);
                    }
                    assert(now =~= want);
                }
                match cursor.checked_add(len) {
                    Some(c) => {
                        cursor = c;
                    },
                    None => {
                        proof {
                            assert(overflows_at(vs, i as int));
                            let k = choose|k: int| 0 <= k < vs.len() && #[trigger] overflows_at(vs, k)
                                && forall|j: int| 0 <= j < k ==> !overflows_at(vs, j);
                            if k < i {
                                assert(!overflows_at(vs, k));
                            } else if k > i {
                                assert(!overflows_at(vs, i as int));
                            }
                        }
                        return Err(Error::ArgsIndexOverflow);
                    },
                }
            } else {
                assert(boops_view(self.boops@) =~= assigned_upto(vs, i + 1));
            }
            i += 1;
        }
        assert(first_overflow(vs) is None);
        Ok(self.as_data())
    }

    /// The neighbour of boop `i` in direction `d` (0 north, 1 east, 2 south, 3 west).
    fn find_neighbour(&self, i: usize, d: usize) -> (r: Option<u8>)
        requires
            i < self.boops@.len(),
            d < 4,
        ensures
            r == neighbour(boops_view(self.boops@), i as int, d as int),
    {
        let ghost vs = boops_view(self.boops@);
        let (dx, dy): (i64, i64) = if d == 0 {
            (0, -1)
        } else if d == 1 {
            (1, 0)
        } else if d == 2 {
            (0, 1)
        } else {
            (-1, 0)
        };
        let cx = self.boops[i].sx() as i64 + self.boops[i].ex() as i64;
        let cy = self.boops[i].sy() as i64 + self.boops[i].ey() as i64;
        let len = self.boops.len();
        let mut best: Option<usize> = None;
        let mut best_toward: i64 = 0;
        let mut best_dist2: i64 = 0;
        let mut j: usize = 0;
        while j < len
            invariant
                len == vs.len(),
                vs == boops_view(self.boops@),
                i < len,
                d < 4,
                (dx as int, dy as int) == dir_vec(d as int),
                (cx as int, cy as int) == center2(vs[i as int]),
                j <= len,
                match best {
                    Some(k) => best_upto(vs, i as int, d as int, j as int) == Some(k as int)
                        && best_toward == toward(vs, i as int, k as int, d as int) && best_dist2
                        == dist2(vs, i as int, k as int) && 0 < best_toward <= 510 && 0
                        < best_dist2 <= 520200,
                    None => best_upto(vs, i as int, d as int, j as int) is None,
                },
            decreases len - j,
        {
            if j != i {
                let tx = self.boops[j].sx() as i64 + self.boops[j].ex() as i64;
                let ty = self.boops[j].sy() as i64 + self.boops[j].ey() as i64;
                let vx = tx - cx;
                let vy = ty - cy;
                assert(-510 <= vx <= 510 && -510 <= vy <= 510);
                assert(0 <= vx * vx <= 260100 && 0 <= vy * vy <= 260100) by (nonlinear_arith)
                    requires
                        -510 <= vx <= 510,
                        -510 <= vy <= 510,
                ;
                let q = vx * vx + vy * vy;
                assert(-510 <= dx * vx <= 510 && -510 <= dy * vy <= 510 && -510 <= dx * vx + dy * vy <= 510) by (nonlinear_arith)
                    requires
                        -510 <= vx <= 510,
                        -510 <= vy <= 510,
                        (dx == 0 && (dy == 1 || dy == -1)) || (dy == 0 && (dx == 1 || dx == -1)),
                ;
                let t = dx * vx + dy * vy;
                assert(q == dist2(vs, i as int, j as int));
                assert(t == toward(vs, i as int, j as int, d as int));
                assert(-510 <= t <= 510);
                if q > 0 && t > 0 {
                    let better = match best {
                        None => true,
                        Some(_) => {
                            assert(t * best_dist2 <= 510 * 520200 && best_toward * q <= 510 * 520200)
                                by (nonlinear_arith)
                                requires
                                    0 < t <= 510,
                                    0 < q <= 520200,
                                    0 < best_toward <= 510,
                                    0 < best_dist2 <= 520200,
                            ;
                            t * best_dist2 > best_toward * q
                        },
                    };
                    if better {
                        best = Some(j);
                        best_toward = t;
                        best_dist2 = q;
                    }
                }
            }
            j += 1;
        }
        match best {
            Some(k) => Some(#[verifier::truncate] (k as u8)),
            None => None,
        }
    }

    /// Fills in the four neighbours of every boop: in each direction, among the other boops
    /// whose centers lie less than 90 degrees off it, the one with the highest
    /// cos(angle) / distance, the first of them on a tie; none when there is no such boop.
    pub fn auto_fill_directions(&mut self)
        ensures
            final(self).name == old(self).name,
            boops_view(final(self).boops@) == Seq::new(
                old(self).boops@.len(),
                |i: int| with_neighbours(boops_view(old(self).boops@), i),
            ),
    {
        let ghost vs = boops_view(self.boops@);
        let len = self.boops.len();
        let mut results: Vec<[Option<u8>; 4]> = Vec::new();
        let mut i: usize = 0;
        while i < len
            invariant
                len == vs.len(),
                vs == boops_view(self.boops@),
                i <= len,
                results@.len() == i,
                forall|k: int, d: int| 0 <= k < i && 0 <= d < 4 ==> #[trigger] results@[k]@[d] == neighbour(vs, k, d),
            decreases len - i,
        {
            let n = self.find_neighbour(i, 0);
            let e = self.find_neighbour(i, 1);
            let s = self.find_neighbour(i, 2);
            let w = self.find_neighbour(i, 3);
            let row = [n, e, s, w];
            results.push(row);
            i += 1;
        }
        let mut i: usize = 0;
        while i < len
            invariant
                len == vs.len(),
                self.name == old(self).name,
                self.boops@.len() == len,
                i <= len,
                results@.len() == len,
                forall|k: int, d: int| 0 <= k < len && 0 <= d < 4 ==> #[trigger] results@[k]@[d] == neighbour(vs, k, d),
                forall|k: int| 0 <= k < i ==> #[trigger] boops_view(self.boops@)[k] == with_neighbours(vs, k),
                forall|k: int| i <= k < len ==> #[trigger] boops_view(self.boops@)[k] == vs[k],
            decreases len - i,
        {
            let row = results[i];
            assert(row@[0] == neighbour(vs, i as int, 0) && row@[1] == neighbour(vs, i as int, 1)
                && row@[2] == neighbour(vs, i as int, 2) && row@[3] == neighbour(vs, i as int, 3));
            let ghost before = boops_view(self.boops@);
            assert(before[i as int] == vs[i as int]);
            self.boops[i].set_north(row[0]);
            self.boops[i].set_east(row[1]);
            self.boops[i].set_south(row[2]);
            self.boops[i].set_west(row[3]);
            proof {
                let now = boops_view(self.boops@);
                assert(now[i as int] == with_neighbours(vs, i as int));
                assert forall|k: int| 0 <= k < len && k != i implies #[trigger] now[k] == before[k] by {
                }
            }
            i += 1;
        }
        assert(boops_view(self.boops@) =~= Seq::new(len as nat, |i: int| with_neighbours(vs, i)));
    }

    /// Reads boops from the contents of a boops file and an arguments file.
    pub fn from_data(name: &str, boops_data: &[u8], args_data: &[u8]) -> (res: Result<Self, Error>)
        ensures
            boops_data@.len() % 12 != 0 <==> res is Err,
            res matches Err(e) ==> e == Error::BoopsFileSize(boops_data@.len() as usize),
            res matches Ok(b) ==> b.name@ == name@ && boops_view(b.boops@) == boops_of_files(
                boops_data@,
                args_data@,
            ),
    {
        if boops_data.len() % 12 != 0 {
            return Err(Error::BoopsFileSize(boops_data.len()));
        }
        let len = boops_data.len();
        let n = len / 12;
        let mut boops: Vec<Boop> = Vec::new();
        let mut k: usize = 0;
        while k < n
            invariant
                n == boops_data@.len() / 12,
                len == boops_data@.len(),
                boops_data@.len() % 12 == 0,
                k <= n,
                boops@.len() == k,
                forall|j: int| 0 <= j < k ==> #[trigger] boops@[j]@ == boops_of_files(
                    boops_data@,
                    args_data@,
                )[j],
            decreases n - k,
        {
            let mut chunk = [0u8; 12];
            let mut j: usize = 0;
            while j < 12
                invariant
                    k < n,
                    n == boops_data@.len() / 12,
                    len == boops_data@.len(),
                    boops_data@.len() % 12 == 0,
                    j <= 12,
                    chunk@.len() == 12,
                    forall|t: int| 0 <= t < j ==> chunk@[t] == boops_data@[12 * k + t],
                decreases 12 - j,
            {
                assert(12 * k + j < boops_data@.len()) by (nonlinear_arith)
                    requires
                        k < n,
                        n == boops_data@.len() / 12,
                        j < 12,
                ;
                let idx = 12 * k + j;
                chunk[j] = boops_data[idx];
                j += 1;
            }
            assert(chunk@ =~= boops_data@.subrange(12 * k, 12 * k + 12));
            boops.push(Boop::from_bytes(&chunk, args_data));
            k += 1;
        }
        let b = Boops { name: name.to_owned(), boops };
        assert(boops_view(b.boops@) =~= boops_of_files(boops_data@, args_data@));
        Ok(b)
    }

    /// Reads the boops saved as `file_name` from the contents of that file and of its
    /// arguments file: the list's name is the file name without `_boops.bin`. Fails when the
    /// file name does not end with `_boops.bin`, and then when the boops file's length is not a
    /// multiple of 12.
    pub fn load(file_name: &str, boops_data: &[u8], args_data: &[u8]) -> (res: Result<Self, Error>)
        ensures
            res is Ok <==> ends_with(file_name@, boops_file_suffix()) && boops_data@.len() % 12
                == 0,
            !ends_with(file_name@, boops_file_suffix()) ==> (res matches Err(e) && e@
                == ErrorV::BoopsFileName(file_name@)),
            ends_with(file_name@, boops_file_suffix()) && boops_data@.len() % 12 != 0
                ==> (res matches Err(e) && e@ == ErrorV::BoopsFileSize(
                boops_data@.len() as usize,
            )),
            res matches Ok(b) ==> b.name@ + boops_file_suffix() == file_name@ && boops_view(
                b.boops@,
            ) == boops_of_files(boops_data@, args_data@),
    {
        match boops_name_of_file(file_name) {
            None => Err(Error::BoopsFileName(file_name.to_owned())),
            Some(name) => Self::from_data(name.as_str(), boops_data, args_data),
        }
    }
}

/// The ending of the name of a saved boops file.
pub open spec fn boops_file_suffix() -> Seq<char> {
    "_boops.bin"@
}

/// The name of the list of boops saved as `file_name`: the file name without its ending
/// `_boops.bin`; none when it does not end so.
pub fn boops_name_of_file(file_name: &str) -> (r: Option<String>)
    ensures
        r is Some <==> ends_with(file_name@, boops_file_suffix()),
        r matches Some(n) ==> n@ + boops_file_suffix() == file_name@,
{
    let chars = chars_of(file_name);
    let suffix = chars_of("_boops.bin");
    if !ends_with_chars(&chars, &suffix) {
        return None;
    }
    let keep = chars.len() - suffix.len();
    let mut name: Vec<char> = Vec::new();
    let mut i: usize = 0;
    while i < keep
        invariant
            keep <= chars@.len(),
            i <= keep,
            name@ == chars@.take(i as int),
        decreases keep - i,
    {
        name.push(chars[i]);
        assert(chars@.take(i + 1) =~= chars@.take(i as int).push(chars@[i as int]));
        i += 1;
    }
    assert(name@ + suffix@ =~= chars@);
    Some(string_of(&name))
}

/// The contents of each boop of a list.
pub open spec fn boops_view(bs: Seq<Boop>) -> Seq<BoopView> {
    bs.map_values(|b: Boop| b@)
}

/// The boops file of a list of boops: 12 bytes per boop, in order.
pub open spec fn boops_file(vs: Seq<BoopView>) -> Seq<u8> {
    concat_all(vs.map_values(|v: BoopView| boop_bytes(v)))
}

/// The arguments file of a list of boops: their arguments, one after the other.
pub open spec fn args_file(vs: Seq<BoopView>) -> Seq<u8> {
    concat_all(vs.map_values(|v: BoopView| v.actual_args))
}

/// The boops read back from a boops file whose length is a multiple of 12.
pub open spec fn boops_of_files(boops_data: Seq<u8>, args_data: Seq<u8>) -> Seq<BoopView> {
    Seq::new(
        boops_data.len() / 12,
        |k: int| boop_of_bytes(boops_data.subrange(12 * k, 12 * k + 12), args_data),
    )
}

/// Where the arguments of boop `k` start once indexes are assigned in order: the total
/// (stored, one-byte) length of the non-empty arguments before it.
pub open spec fn args_offset(vs: Seq<BoopView>, k: int) -> int
    decreases k,
{
    if k <= 0 {
        0
    } else {
        args_offset(vs, k - 1) + (if vs[k - 1].actual_args.len() > 0 {
            (vs[k - 1].actual_args.len() as u8) as int
        } else {
            0
        })
    }
}

/// The boop after its arguments index has been assigned, starting at `offset`.
pub open spec fn assign_one(v: BoopView, offset: int) -> BoopView {
    if v.actual_args.len() > 0 {
        BoopView {
            args_index: Some(offset as u8),
            flags: with_flag(v.flags, FLAG_ARGS_INDEX, true),
            ..v
        }
    } else {
        v
    }
}

/// Assigning the index of boop `k` runs past 255.
pub open spec fn overflows_at(vs: Seq<BoopView>, k: int) -> bool {
    vs[k].actual_args.len() > 0 && args_offset(vs, k) + (vs[k].actual_args.len() as u8) > 255
}

/// The first boop at which assignment runs past 255, if any.
pub open spec fn first_overflow(vs: Seq<BoopView>) -> Option<int> {
    if exists|k: int| 0 <= k < vs.len() && #[trigger] overflows_at(vs, k) {
        Some(choose|k: int| 0 <= k < vs.len() && #[trigger] overflows_at(vs, k) && forall|j: int| 0 <= j < k ==> !overflows_at(vs, j))
    } else {
        None
    }
}

/// The boops after indexes are assigned to the first `n` of them.
pub open spec fn assigned_upto(vs: Seq<BoopView>, n: int) -> Seq<BoopView> {
    Seq::new(vs.len(), |k: int| if k < n { assign_one(vs[k], args_offset(vs, k)) } else { vs[k] })
}

/// The stored arguments before boop `k` take `args_offset(vs, k)` bytes of the arguments file.
proof fn lemma_args_offset_len(vs: Seq<BoopView>, k: int)
    requires
        0 <= k <= vs.len(),
        forall|j: int| 0 <= j < vs.len() ==> #[trigger] vs[j].actual_args.len() < 256,
    ensures
        concat_all(vs.map_values(|v: BoopView| v.actual_args).take(k)).len() == args_offset(vs, k),
    decreases k,
{
    if k > 0 {
        lemma_args_offset_len(vs, k - 1);
        let parts = vs.map_values(|v: BoopView| v.actual_args);
        assert(parts.take(k).drop_last() =~= parts.take(k - 1));
        assert(parts.take(k).last() == vs[k - 1].actual_args);
    }
}

/// Saving boops whose arguments indexes were assigned without running past 255, and reading
/// the two files back, gives the same boops.
pub proof fn lemma_assigned_boops_round_trip(vs: Seq<BoopView>)
    requires
        forall|k: int| 0 <= k < vs.len() ==> flags_agree(#[trigger] vs[k]),
        forall|k: int| 0 <= k < vs.len() ==> #[trigger] vs[k].actual_args.len() < 256,
        first_overflow(vs) is None,
    ensures
        ({
            let ws = assigned_upto(vs, vs.len() as int);
            boops_of_files(boops_file(ws), args_file(ws)) == ws
        }),
{
    let n = vs.len() as int;
    let ws = assigned_upto(vs, n);
    let bparts = ws.map_values(|v: BoopView| boop_bytes(v));
    let aparts = ws.map_values(|v: BoopView| v.actual_args);
    let bf = boops_file(ws);
    let af = args_file(ws);
    assert(aparts =~= vs.map_values(|v: BoopView| v.actual_args));
    lemma_concat_all_uniform(bparts, 12);
    assert forall|k: int| 0 <= k < n implies #[trigger] boops_of_files(bf, af)[k] == ws[k] by {
        let w = ws[k];
        let v = vs[k];
        lemma_concat_all_uniform(bparts.take(k), 12);
        lemma_concat_all_part(bparts, k);
        assert(bf.subrange(12 * k, 12 * k + 12) == boop_bytes(w));
        if v.actual_args.len() > 0 {
            lemma_flags_after(v.flags, FLAG_ARGS_INDEX, true);
            assert(!overflows_at(vs, k));
            lemma_args_offset_len(vs, k);
            lemma_concat_all_part(aparts, k);
            assert(af.subrange(args_offset(vs, k), args_offset(vs, k) + v.actual_args.len())
                == v.actual_args);
        } else {
            assert(args_of(w.args_index, 0, af) =~= w.actual_args);
        }
        assert(boop_of_bytes(boop_bytes(w), af) =~= w);
    }
    lemma_concat_all_uniform(bparts, 12);
    assert(boops_of_files(bf, af) =~= ws);
}

/// Twice the center of a boop's area, so that it stays whole.
pub open spec fn center2(v: BoopView) -> (int, int) {
    (v.sx + v.ex, v.sy + v.ey)
}

/// The unit vector of a direction: north, east, south, west, with `y` growing downwards.
pub open spec fn dir_vec(d: int) -> (int, int) {
    if d == 0 {
        (0, -1)
    } else if d == 1 {
        (1, 0)
    } else if d == 2 {
        (0, 1)
    } else {
        (-1, 0)
    }
}

/// Twice the vector from the center of boop `i` to the center of boop `j`.
pub open spec fn between(vs: Seq<BoopView>, i: int, j: int) -> (int, int) {
    (center2(vs[j]).0 - center2(vs[i]).0, center2(vs[j]).1 - center2(vs[i]).1)
}

/// The dot product of direction `d` with the vector from `i` to `j` (doubled).
pub open spec fn toward(vs: Seq<BoopView>, i: int, j: int, d: int) -> int {
    dir_vec(d).0 * between(vs, i, j).0 + dir_vec(d).1 * between(vs, i, j).1
}

/// The squared length of the vector from `i` to `j` (doubled).
pub open spec fn dist2(vs: Seq<BoopView>, i: int, j: int) -> int {
    between(vs, i, j).0 * between(vs, i, j).0 + between(vs, i, j).1 * between(vs, i, j).1
}

/// Boop `j` is another boop, with a different center, less than 90 degrees off direction `d`
/// as seen from boop `i`.
pub open spec fn in_cone(vs: Seq<BoopView>, i: int, j: int, d: int) -> bool {
    j != i && dist2(vs, i, j) > 0 && toward(vs, i, j, d) > 0
}

/// Seen from boop `i` in direction `d`, boop `j` scores higher than boop `k`, where the score
/// is cos(angle) / distance, that is `toward / dist2`.
pub open spec fn scores_higher(vs: Seq<BoopView>, i: int, d: int, j: int, k: int) -> bool {
    toward(vs, i, j, d) * dist2(vs, i, k) > toward(vs, i, k, d) * dist2(vs, i, j)
}

/// The neighbour chosen among the first `n` boops: the first in-cone boop with the highest
/// score.
pub open spec fn best_upto(vs: Seq<BoopView>, i: int, d: int, n: int) -> Option<int>
    decreases n,
{
    if n <= 0 {
        None
    } else {
        let prev = best_upto(vs, i, d, n - 1);
        let j = n - 1;
        if in_cone(vs, i, j, d) && (prev is None || scores_higher(vs, i, d, j, prev->0)) {
            Some(j)
        } else {
            prev
        }
    }
}

/// The neighbour of boop `i` in direction `d`, as a boop number.
pub open spec fn neighbour(vs: Seq<BoopView>, i: int, d: int) -> Option<u8> {
    match best_upto(vs, i, d, vs.len() as int) {
        Some(j) => Some(j as u8),
        None => None,
    }
}

/// The boop with its neighbour in direction `d` replaced, and the matching flag.
pub open spec fn set_dir(v: BoopView, d: int, o: Option<u8>) -> BoopView {
    if d == 0 {
        BoopView { north: o, flags: with_flag(v.flags, FLAG_NORTH, o is Some), ..v }
    } else if d == 1 {
        BoopView { east: o, flags: with_flag(v.flags, FLAG_EAST, o is Some), ..v }
    } else if d == 2 {
        BoopView { south: o, flags: with_flag(v.flags, FLAG_SOUTH, o is Some), ..v }
    } else {
        BoopView { west: o, flags: with_flag(v.flags, FLAG_WEST, o is Some), ..v }
    }
}

/// Boop `i` with its four neighbours filled in.
pub open spec fn with_neighbours(vs: Seq<BoopView>, i: int) -> BoopView {
    set_dir(
        set_dir(set_dir(set_dir(vs[i], 0, neighbour(vs, i, 0)), 1, neighbour(vs, i, 1)), 2, neighbour(vs, i, 2)),
        3,
        neighbour(vs, i, 3),
    )
}

/// The dot product of direction `d` (0 north, 1 east, 2 south, 3 west, with `y` growing
/// downwards) with the vector from the center of boop `i` to the center of boop `j`, doubled.
pub open spec fn facing(vs: Seq<BoopView>, i: int, j: int, d: int) -> int {
    let ux: int = if d == 1 { 1 } else if d == 3 { -1 } else { 0 };
    let uy: int = if d == 0 { -1 } else if d == 2 { 1 } else { 0 };
    ux * ((vs[j].sx + vs[j].ex) - (vs[i].sx + vs[i].ex)) + uy * ((vs[j].sy + vs[j].ey) - (vs[i].sy + vs[i].ey))
}

/// The squared length of the vector from the center of boop `i` to the center of boop `j`,
/// doubled.
pub open spec fn span2(vs: Seq<BoopView>, i: int, j: int) -> int {
    let vx = (vs[j].sx + vs[j].ex) - (vs[i].sx + vs[i].ex);
    let vy = (vs[j].sy + vs[j].ey) - (vs[i].sy + vs[i].ey);
    vx * vx + vy * vy
}

/// `o` is the neighbour of boop `i` in direction `d`: writing `v` for the vector from its
/// center to another boop's and `u` for the direction, a boop is in view when `v` is not zero
/// and `u . v > 0` (strictly inside the 90-degree cone). The chosen boop is in view and has the
/// highest score `(u . v) / |v|^2`, which is cos(angle) / distance, of all boops in view, and a
/// strictly higher one than every boop before it; there is none exactly when no boop is in
/// view.
pub open spec fn best_facing(vs: Seq<BoopView>, i: int, d: int, o: Option<u8>) -> bool {
    match o {
        None => forall|j: int| 0 <= j < vs.len() ==> !(span2(vs, i, j) > 0 && #[trigger] facing(vs, i, j, d) > 0),
        Some(k) => {
            &&& k < vs.len()
            &&& span2(vs, i, k as int) > 0 && facing(vs, i, k as int, d) > 0
            &&& forall|j: int|
                0 <= j < vs.len() && span2(vs, i, j) > 0 && #[trigger] facing(vs, i, j, d) > 0 ==> facing(vs, i, j, d)
                    * span2(vs, i, k as int) <= facing(vs, i, k as int, d) * span2(vs, i, j)
            &&& forall|j: int|
                0 <= j < k && span2(vs, i, j) > 0 && #[trigger] facing(vs, i, j, d) > 0 ==> facing(vs, i, j, d)
                    * span2(vs, i, k as int) < facing(vs, i, k as int, d) * span2(vs, i, j)
        },
    }
}

/// The neighbour chosen for boop `i` among at most 256 boops in direction `d` has the best score
/// of all boops in view (see `best_facing`).
pub proof fn lemma_neighbour_faces_best(vs: Seq<BoopView>, i: int, d: int)
    requires
        0 <= i < vs.len(),
        vs.len() <= 256,
        0 <= d < 4,
    ensures
        best_facing(vs, i, d, neighbour(vs, i, d)),
{
    lemma_neighbour_is_best(vs, i, d, vs.len() as int);
    assert forall|j: int| 0 <= j < vs.len() implies #[trigger] facing(vs, i, j, d) == toward(vs, i, j, d) && span2(
        vs,
        i,
        j,
    ) == dist2(vs, i, j) by {}
    match best_upto(vs, i, d, vs.len() as int) {
        Some(k) => {
            assert((k as u8) as int == k);
            assert(facing(vs, i, k, d) == toward(vs, i, k, d));
            assert forall|j: int|
                0 <= j < vs.len() && span2(vs, i, j) > 0 && #[trigger] facing(vs, i, j, d) > 0 implies facing(
                vs,
                i,
                j,
                d,
            ) * span2(vs, i, k) <= facing(vs, i, k, d) * span2(vs, i, j) by {
                assert(j != i);
                assert(in_cone(vs, i, j, d));
                assert(!scores_higher(vs, i, d, j, k));
            }
            assert forall|j: int|
                0 <= j < k && span2(vs, i, j) > 0 && #[trigger] facing(vs, i, j, d) > 0 implies facing(vs, i, j, d)
                * span2(vs, i, k) < facing(vs, i, k, d) * span2(vs, i, j) by {
                assert(j != i);
                assert(in_cone(vs, i, j, d));
                assert(scores_higher(vs, i, d, k, j));
            }
        },
        None => {
            assert forall|j: int| 0 <= j < vs.len() implies !(span2(vs, i, j) > 0 && #[trigger] facing(vs, i, j, d) > 0) by {
                assert(!in_cone(vs, i, j, d));
            }
        },
    }
}

/// Filling in the neighbours of boop `i` among at most 256 boops sets its north, east, south
/// and west neighbours to the boops with the best score in those directions (see
/// `best_facing`).
pub proof fn lemma_filled_neighbours_best(vs: Seq<BoopView>, i: int)
    requires
        0 <= i < vs.len(),
        vs.len() <= 256,
    ensures
        best_facing(vs, i, 0, with_neighbours(vs, i).north),
        best_facing(vs, i, 1, with_neighbours(vs, i).east),
        best_facing(vs, i, 2, with_neighbours(vs, i).south),
        best_facing(vs, i, 3, with_neighbours(vs, i).west),
{
    lemma_neighbour_faces_best(vs, i, 0);
    lemma_neighbour_faces_best(vs, i, 1);
    lemma_neighbour_faces_best(vs, i, 2);
    lemma_neighbour_faces_best(vs, i, 3);
}

/// Cross-multiplied comparison of positive-denominator fractions is transitive.
pub proof fn lemma_fraction_order(a: int, b: int, c: int, d: int, e: int, f: int)
    requires
        b > 0,
        d > 0,
        f > 0,
        a * d > c * b,
        c * f >= e * d,
    ensures
        a * f > e * b,
{
    assert(a * d * f > c * b * f) by (nonlinear_arith)
        requires
            a * d > c * b,
            f > 0,
    ;
    assert(c * f * b >= e * d * b) by (nonlinear_arith)
        requires
            c * f >= e * d,
            b > 0,
    ;
    assert(a * f * d > e * b * d) by (nonlinear_arith)
        requires
            a * d * f > c * b * f,
            c * f * b >= e * d * b,
    ;
    assert(a * f > e * b) by (nonlinear_arith)
        requires
            a * f * d > e * b * d,
            d > 0,
    ;
}

/// The chosen neighbour is in the cone, scores at least as high as every boop in the cone and
/// strictly higher than those before it; there is none exactly when no boop is in the cone.
pub proof fn lemma_neighbour_is_best(vs: Seq<BoopView>, i: int, d: int, n: int)
    requires
        0 <= n,
    ensures
        best_upto(vs, i, d, n) is None <==> forall|j: int| 0 <= j < n ==> !#[trigger] in_cone(vs, i, j, d),
        best_upto(vs, i, d, n) matches Some(k) ==> {
            &&& 0 <= k < n
            &&& in_cone(vs, i, k, d)
            &&& forall|j: int| 0 <= j < n && in_cone(vs, i, j, d) ==> !#[trigger] scores_higher(vs, i, d, j, k)
            &&& forall|j: int| 0 <= j < k && in_cone(vs, i, j, d) ==> #[trigger] scores_higher(vs, i, d, k, j)
        },
    decreases n,
{
    if n > 0 {
        lemma_neighbour_is_best(vs, i, d, n - 1);
        let prev = best_upto(vs, i, d, n - 1);
        let j = n - 1;
        if in_cone(vs, i, j, d) && (prev is None || scores_higher(vs, i, d, j, prev->0)) {
            if let Some(p) = prev {
                assert forall|t: int| 0 <= t < p && in_cone(vs, i, t, d) implies #[trigger] scores_higher(vs, i, d, j, t) by {
                    assert(!scores_higher(vs, i, d, t, p));
                    lemma_fraction_order(toward(vs, i, j, d), dist2(vs, i, j), toward(vs, i, p, d), dist2(vs, i, p), toward(vs, i, t, d), dist2(vs, i, t));
                }
                assert forall|t: int| 0 <= t < n && in_cone(vs, i, t, d) implies !#[trigger] scores_higher(vs, i, d, t, j) by {
                    if t < n - 1 {
                        assert(!scores_higher(vs, i, d, t, p));
                        if scores_higher(vs, i, d, t, j) {
                            lemma_fraction_order(toward(vs, i, t, d), dist2(vs, i, t), toward(vs, i, j, d), dist2(vs, i, j), toward(vs, i, p, d), dist2(vs, i, p));
                        }
                    }
                }
                assert forall|t: int| p <= t < j && in_cone(vs, i, t, d) implies #[trigger] scores_higher(vs, i, d, j, t) by {
                    if t == p {
                    } else {
                        assert(!scores_higher(vs, i, d, t, p));
                        lemma_fraction_order(toward(vs, i, j, d), dist2(vs, i, j), toward(vs, i, p, d), dist2(vs, i, p), toward(vs, i, t, d), dist2(vs, i, t));
                    }
                }
            }
        }
    }
}

/// Whether bit `bit` of `flags` is set.
fn has_flag_exec(flags: u8, bit: u8) -> (r: bool)
    requires
        bit < 8,
    ensures
        r == has_flag(flags, bit),
{
    (flags >> bit) & 1 == 1
}

/// The effect of one flag update on the six flags a boop uses.
proof fn lemma_flags_after(flags: u8, bit: u8, present: bool)
    requires
        bit < 6,
    ensures
        forall|other: u8|
            other < 8 ==> #[trigger] has_flag(with_flag(flags, bit, present), other) == (if other
                == bit {
                present
            } else {
                has_flag(flags, other)
            }),
{
    assert forall|other: u8| other < 8 implies #[trigger] has_flag(
        with_flag(flags, bit, present),
        other,
    ) == (if other == bit {
        present
    } else {
        has_flag(flags, other)
    }) by {
        lemma_with_flag(flags, bit, present, other);
    }
}

} // verus!
