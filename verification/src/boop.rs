//! Boops as read from a CSV file, with their neighbours chosen by direction, and the binary
//! files they are saved to.
use vstd::prelude::*;
use crate::project::csv::{BoopCsv, BoopRecord, BoopRecordV};
use crate::trim::{concat_all, lemma_concat_all_part, lemma_concat_all_uniform};
use crate::domain::boop::lemma_fraction_order;

verus! {

/// The contents of a boop.
pub struct BoopV {
    pub x: u8,
    pub y: u8,
    pub w: u8,
    pub h: u8,
    pub north: Option<u8>,
    pub east: Option<u8>,
    pub south: Option<u8>,
    pub west: Option<u8>,
    pub callback: Option<u8>,
    pub args: Seq<u8>,
}

/// A rectangular area of a screen with its neighbours in the four directions, an optional
/// callback and arguments.
#[derive(Debug, PartialEq, Eq)]
pub struct Boop {
    x: u8,
    y: u8,
    w: u8,
    h: u8,
    north: Option<u8>,
    east: Option<u8>,
    south: Option<u8>,
    west: Option<u8>,
    callback: Option<u8>,
    args: Vec<u8>,
}

impl View for Boop {
    type V = BoopV;

    closed spec fn view(&self) -> BoopV {
        BoopV {
            x: self.x,
            y: self.y,
            w: self.w,
            h: self.h,
            north: self.north,
            east: self.east,
            south: self.south,
            west: self.west,
            callback: self.callback,
            args: self.args@,
        }
    }
}

impl Boop {
    /// A boop for `record` with the given neighbours.
    pub fn new(
        record: &BoopRecord,
        north: Option<u8>,
        east: Option<u8>,
        south: Option<u8>,
        west: Option<u8>,
    ) -> (b: Self)
        ensures
            b@ == (BoopV {
                x: record.x,
                y: record.y,
                w: record.w,
                h: record.h,
                north,
                east,
                south,
                west,
                callback: record.callback,
                args: record.args@,
            }),
    {
        let args = record.args.clone();
        assert(args@ =~= record.args@);
        Boop {
            x: record.x,
            y: record.y,
            w: record.w,
            h: record.h,
            north,
            east,
            south,
            west,
            callback: record.callback,
            args,
        }
    }

    /// Reads a boop from its 11 bytes; a neighbour or callback byte of 255 reads as none. Its
    /// arguments are the `bytes[10]` bytes of `args_data` from `bytes[9]` on, which must lie
    /// inside it.
    pub fn from_bytes(bytes: &[u8; 11], args_data: &[u8]) -> (b: Self)
        requires
            bytes@[9] + bytes@[10] <= args_data@.len(),
        ensures
            b@ == read_boop(bytes@, args_data@),
    {
        let args_index = bytes[9] as usize;
        let args_len = bytes[10] as usize;
        let end = args_index + args_len;
        let mut args: Vec<u8> = Vec::new();
        let mut k = args_index;
        while k < end
            invariant
                args_index <= k <= end,
                end <= args_data@.len(),
                args@ == args_data@.subrange(args_index as int, k as int),
            decreases end - k,
        {
            args.push(args_data[k]);
            assert(args_data@.subrange(args_index as int, k + 1) =~= args_data@.subrange(
                args_index as int,
                k as int,
            ).push(args_data@[k as int]));
            k += 1;
        }
        Boop {
            x: bytes[0],
            y: bytes[1],
            w: bytes[2],
            h: bytes[3],
            north: read_byte_option(bytes[4]),
            east: read_byte_option(bytes[5]),
            south: read_byte_option(bytes[6]),
            west: read_byte_option(bytes[7]),
            callback: read_byte_option(bytes[8]),
            args,
        }
    }
}

/// The boop that 11 saved bytes and the arguments file stand for.
pub open spec fn read_boop(bytes: Seq<u8>, args_data: Seq<u8>) -> BoopV {
    BoopV {
        x: bytes[0],
        y: bytes[1],
        w: bytes[2],
        h: bytes[3],
        north: byte_option(bytes[4]),
        east: byte_option(bytes[5]),
        south: byte_option(bytes[6]),
        west: byte_option(bytes[7]),
        callback: byte_option(bytes[8]),
        args: args_data.subrange(bytes[9] as int, bytes[9] + bytes[10]),
    }
}

/// No neighbour or callback of the boop is 255, the byte that saves none.
pub open spec fn no_none_marker(v: BoopV) -> bool {
    &&& v.north != Some(255u8)
    &&& v.east != Some(255u8)
    &&& v.south != Some(255u8)
    &&& v.west != Some(255u8)
    &&& v.callback != Some(255u8)
}

/// A saved neighbour or callback byte: 255 stands for none.
pub open spec fn byte_option(b: u8) -> Option<u8> {
    if b == 255 {
        None
    } else {
        Some(b)
    }
}

/// Reads a saved neighbour or callback byte.
fn read_byte_option(b: u8) -> (o: Option<u8>)
    ensures
        o == byte_option(b),
{
    if b == 255 {
        None
    } else {
        Some(b)
    }
}

/// A neighbour or callback as saved: 255 for none.
pub open spec fn or_255(o: Option<u8>) -> u8 {
    match o {
        Some(v) => v,
        None => 255u8,
    }
}

/// The 11 bytes a boop is saved as when its arguments start at `offset` of the arguments
/// file: x, y, w, h, the four neighbours and the callback (255 for none), the arguments
/// index (0 when there are no arguments) and the number of arguments.
pub open spec fn boop_bytes(v: BoopV, offset: int) -> Seq<u8> {
    seq![
        v.x,
        v.y,
        v.w,
        v.h,
        or_255(v.north),
        or_255(v.east),
        or_255(v.south),
        or_255(v.west),
        or_255(v.callback),
        if v.args.len() == 0 {
            0u8
        } else {
            offset as u8
        },
        v.args.len() as u8,
    ]
}

/// The bytes of a boop, split into fields, ready to be saved.
pub struct BoopBytes {
    pub x: u8,
    pub y: u8,
    pub w: u8,
    pub h: u8,
    pub north: u8,
    pub east: u8,
    pub south: u8,
    pub west: u8,
    pub callback: u8,
    pub args_index: u8,
    pub args_len: u8,
}

pub open spec fn boop_bytes_fields(b: BoopBytes) -> Seq<u8> {
    seq![
        b.x,
        b.y,
        b.w,
        b.h,
        b.north,
        b.east,
        b.south,
        b.west,
        b.callback,
        b.args_index,
        b.args_len,
    ]
}

impl BoopBytes {
    /// The bytes of `boop`, whose arguments are appended to `all_args`.
    pub fn new(boop: &Boop, all_args: &mut Vec<u8>) -> (b: Self)
        ensures
            boop_bytes_fields(b) == boop_bytes(boop@, old(all_args)@.len() as int),
            final(all_args)@ == old(all_args)@ + boop@.args,
    {
        let args_index: u8 = if boop.args.len() == 0 {
            0
        } else {
            #[verifier::truncate]
            (all_args.len() as u8)
        };
        let b = BoopBytes {
            x: boop.x,
            y: boop.y,
            w: boop.w,
            h: boop.h,
            north: boop.north.unwrap_or(255),
            east: boop.east.unwrap_or(255),
            south: boop.south.unwrap_or(255),
            west: boop.west.unwrap_or(255),
            callback: boop.callback.unwrap_or(255),
            args_index,
            args_len: #[verifier::truncate]
            (boop.args.len() as u8),
        };
        let ghost before = all_args@;
        let mut k: usize = 0;
        while k < boop.args.len()
            invariant
                k <= boop@.args.len(),
                boop@.args == boop.args@,
                all_args@ == before + boop.args@.take(k as int),
            decreases boop@.args.len() - k,
        {
            all_args.push(boop.args[k]);
            assert(boop.args@.take(k + 1) =~= boop.args@.take(k as int).push(boop.args@[k as int]));
            k += 1;
        }
        assert(boop.args@.take(k as int) =~= boop.args@);
        assert(boop_bytes_fields(b) =~= boop_bytes(boop@, before.len() as int));
        b
    }

    /// The 11 bytes, in order.
    pub fn as_bytes(&self) -> (v: Vec<u8>)
        ensures
            v@ == boop_bytes_fields(*self),
    {
        let v = vec![
            self.x,
            self.y,
            self.w,
            self.h,
            self.north,
            self.east,
            self.south,
            self.west,
            self.callback,
            self.args_index,
            self.args_len,
        ];
        assert(v@ =~= boop_bytes_fields(*self));
        v
    }
}

/// The contents of each boop of a list.
pub open spec fn boops_view(bs: Seq<Boop>) -> Seq<BoopV> {
    bs.map_values(|b: Boop| b@)
}

/// Where the arguments of boop `k` start in the arguments file.
pub open spec fn args_start(vs: Seq<BoopV>, k: int) -> int
    decreases k,
{
    if k <= 0 {
        0
    } else {
        args_start(vs, k - 1) + vs[k - 1].args.len()
    }
}

/// The boops file: 11 bytes per boop, in order.
pub open spec fn boops_file(vs: Seq<BoopV>) -> Seq<u8> {
    concat_all(Seq::new(vs.len(), |k: int| boop_bytes(vs[k], args_start(vs, k))))
}

/// The arguments file: the arguments of every boop, in order.
pub open spec fn args_file(vs: Seq<BoopV>) -> Seq<u8> {
    concat_all(vs.map_values(|v: BoopV| v.args))
}

/// Twice the center of a record's area, so that it stays whole.
pub open spec fn record_center2(r: BoopRecordV) -> (int, int) {
    (2 * r.x + r.w, 2 * r.y + r.h)
}

/// The unit vector of a direction: north, east, south, west, with `y` growing downwards.
pub open spec fn direction(d: int) -> (int, int) {
    if d == 0 {
        (0, -1)
    } else if d == 1 {
        (1, 0)
    } else if d == 2 {
        (0, 1)
    } else {
        (-1, 0)
    }
}

/// The dot product of direction `d` with the (doubled) vector from `from` to `to`.
pub open spec fn toward(from: (int, int), to: (int, int), d: int) -> int {
    direction(d).0 * (to.0 - from.0) + direction(d).1 * (to.1 - from.1)
}

/// The squared length of the (doubled) vector from `from` to `to`.
pub open spec fn dist2(from: (int, int), to: (int, int)) -> int {
    (to.0 - from.0) * (to.0 - from.0) + (to.1 - from.1) * (to.1 - from.1)
}

/// `to` has a different center and lies less than 90 degrees off direction `d`.
pub open spec fn in_cone(from: (int, int), to: (int, int), d: int) -> bool {
    dist2(from, to) > 0 && toward(from, to, d) > 0
}

/// `a` scores higher than `b` as seen from `from`, the score being
/// cos(angle) / distance, that is `toward / dist2`.
pub open spec fn scores_higher(from: (int, int), d: int, a: (int, int), b: (int, int)) -> bool {
    toward(from, a, d) * dist2(from, b) > toward(from, b, d) * dist2(from, a)
}

/// The centers of a list of records.
pub open spec fn centers(rs: Seq<BoopRecordV>) -> Seq<(int, int)> {
    rs.map_values(|r: BoopRecordV| record_center2(r))
}

/// The contents of each record of a list.
pub open spec fn records_view(rs: Seq<BoopRecord>) -> Seq<BoopRecordV> {
    rs.map_values(|r: BoopRecord| r@)
}

/// The boops of a list of records, in order, each with its neighbour in every direction.
pub open spec fn csv_boops(rs: Seq<BoopRecordV>) -> Seq<BoopV> {
    Seq::new(
        rs.len(),
        |i: int|
            {
                let r = rs[i];
                let f = record_center2(r);
                BoopV {
                    x: r.x,
                    y: r.y,
                    w: r.w,
                    h: r.h,
                    north: pick(f, centers(rs), 0),
                    east: pick(f, centers(rs), 1),
                    south: pick(f, centers(rs), 2),
                    west: pick(f, centers(rs), 3),
                    callback: r.callback,
                    args: r.args,
                }
            },
    )
}

/// The choice among the first `n` centers: the last in-cone center with the highest score.
pub open spec fn last_best(from: (int, int), cs: Seq<(int, int)>, d: int, n: int) -> Option<int>
    decreases n,
{
    if n <= 0 {
        None
    } else {
        let prev = last_best(from, cs, d, n - 1);
        if in_cone(from, cs[n - 1], d) && (prev is None || !scores_higher(
            from,
            d,
            cs[prev->0],
            cs[n - 1],
        )) {
            Some(n - 1)
        } else {
            prev
        }
    }
}

/// The neighbour of a boop at `from` in direction `d`, as a boop number.
pub open spec fn pick(from: (int, int), cs: Seq<(int, int)>, d: int) -> Option<u8> {
    match last_best(from, cs, d, cs.len() as int) {
        Some(j) => Some(j as u8),
        None => None,
    }
}

/// The chosen center is in the cone, scores at least as high as every center in the cone and
/// strictly higher than those after it; there is none exactly when no center is in the cone.
pub proof fn lemma_last_best_is_best(from: (int, int), cs: Seq<(int, int)>, d: int, n: int)
    requires
        0 <= n <= cs.len(),
    ensures
        last_best(from, cs, d, n) is None <==> forall|j: int| 0 <= j < n ==> !#[trigger] in_cone(from, cs[j], d),
        last_best(from, cs, d, n) matches Some(k) ==> {
            &&& 0 <= k < n
            &&& in_cone(from, cs[k], d)
            &&& forall|j: int| 0 <= j < n && in_cone(from, cs[j], d) ==> !#[trigger] scores_higher(from, d, cs[j], cs[k])
            &&& forall|j: int| k < j < n && in_cone(from, cs[j], d) ==> #[trigger] scores_higher(from, d, cs[k], cs[j])
        },
    decreases n,
{
    if n > 0 {
        lemma_last_best_is_best(from, cs, d, n - 1);
        let prev = last_best(from, cs, d, n - 1);
        let m = n - 1;
        let c = cs[m];
        if in_cone(from, c, d) && (prev is None || !scores_higher(from, d, cs[prev->0], c)) {
            if let Some(p) = prev {
                let cp = cs[p];
                assert forall|j: int| 0 <= j < n && in_cone(from, cs[j], d) implies !#[trigger] scores_higher(from, d, cs[j], c) by {
                    if j < m {
                        assert(!scores_higher(from, d, cs[j], cp));
                        if scores_higher(from, d, cs[j], c) {
                            lemma_fraction_order(toward(from, cs[j], d), dist2(from, cs[j]), toward(from, c, d), dist2(from, c), toward(from, cp, d), dist2(from, cp));
                        }
                    }
                }
            }
        } else if let Some(k) = prev {
            let ck = cs[k];
            if in_cone(from, c, d) {
                assert(scores_higher(from, d, ck, c));
            }
        }
    }
}

/// The dot product of direction `d` (0 north, 1 east, 2 south, 3 west, with `y` growing
/// downwards) with the vector from the center of `from` to the center of `r`, both doubled.
pub open spec fn view_dot(from: BoopRecordV, r: BoopRecordV, d: int) -> int {
    let ux: int = if d == 1 { 1 } else if d == 3 { -1 } else { 0 };
    let uy: int = if d == 0 { -1 } else if d == 2 { 1 } else { 0 };
    ux * ((2 * r.x + r.w) - (2 * from.x + from.w)) + uy * ((2 * r.y + r.h) - (2 * from.y + from.h))
}

/// The squared length of the vector from the center of `from` to the center of `r`, doubled.
pub open spec fn view_len2(from: BoopRecordV, r: BoopRecordV) -> int {
    let vx = (2 * r.x + r.w) - (2 * from.x + from.w);
    let vy = (2 * r.y + r.h) - (2 * from.y + from.h);
    vx * vx + vy * vy
}

/// `o` is the neighbour of `from` among the records `rs` in direction `d`: writing `v` for the
/// vector from `from`'s center to a record's and `u` for the direction, a record is in view
/// when `v` is not zero and `u . v > 0`. The chosen record is in view and has the highest score
/// `(u . v) / |v|^2`, which is cos(angle) / distance, of all records in view, and a strictly
/// higher one than every record after it; there is none exactly when no record is in view.
pub open spec fn best_in_view(from: BoopRecordV, rs: Seq<BoopRecordV>, d: int, o: Option<u8>) -> bool {
    match o {
        None => forall|j: int|
            0 <= j < rs.len() ==> !(view_len2(from, #[trigger] rs[j]) > 0 && view_dot(from, rs[j], d) > 0),
        Some(k) => {
            &&& k < rs.len()
            &&& view_len2(from, rs[k as int]) > 0 && view_dot(from, rs[k as int], d) > 0
            &&& forall|j: int|
                0 <= j < rs.len() && view_len2(from, #[trigger] rs[j]) > 0 && view_dot(from, rs[j], d) > 0
                    ==> view_dot(from, rs[j], d) * view_len2(from, rs[k as int]) <= view_dot(from, rs[k as int], d)
                    * view_len2(from, rs[j])
            &&& forall|j: int|
                k < j < rs.len() && view_len2(from, #[trigger] rs[j]) > 0 && view_dot(from, rs[j], d) > 0
                    ==> view_dot(from, rs[j], d) * view_len2(from, rs[k as int]) < view_dot(from, rs[k as int], d)
                    * view_len2(from, rs[j])
        },
    }
}

/// The neighbour chosen for a record among at most 256 records in a direction has the best
/// score of all records in view (see `best_in_view`).
pub proof fn lemma_neighbour_has_best_score(from: BoopRecordV, rs: Seq<BoopRecordV>, d: int)
    requires
        0 <= d < 4,
        rs.len() <= 256,
    ensures
        best_in_view(from, rs, d, pick(record_center2(from), centers(rs), d)),
{
    let f = record_center2(from);
    let cs = centers(rs);
    lemma_last_best_is_best(f, cs, d, cs.len() as int);
    assert forall|j: int| 0 <= j < rs.len() implies toward(f, #[trigger] cs[j], d) == view_dot(from, rs[j], d) && dist2(
        f,
        cs[j],
    ) == view_len2(from, rs[j]) by {
        assert(cs[j] == record_center2(rs[j]));
    }
    match last_best(f, cs, d, cs.len() as int) {
        Some(k) => {
            assert((k as u8) as int == k);
            assert(toward(f, cs[k], d) == view_dot(from, rs[k], d) && dist2(f, cs[k]) == view_len2(from, rs[k]));
            assert forall|j: int|
                0 <= j < rs.len() && view_len2(from, #[trigger] rs[j]) > 0 && view_dot(from, rs[j], d) > 0 implies view_dot(
                from,
                rs[j],
                d,
            ) * view_len2(from, rs[k]) <= view_dot(from, rs[k], d) * view_len2(from, rs[j]) by {
                assert(toward(f, cs[j], d) == view_dot(from, rs[j], d) && dist2(f, cs[j]) == view_len2(from, rs[j]));
                assert(in_cone(f, cs[j], d));
                assert(!scores_higher(f, d, cs[j], cs[k]));
            }
            assert forall|j: int|
                k < j < rs.len() && view_len2(from, #[trigger] rs[j]) > 0 && view_dot(from, rs[j], d) > 0 implies view_dot(
                from,
                rs[j],
                d,
            ) * view_len2(from, rs[k]) < view_dot(from, rs[k], d) * view_len2(from, rs[j]) by {
                assert(toward(f, cs[j], d) == view_dot(from, rs[j], d) && dist2(f, cs[j]) == view_len2(from, rs[j]));
                assert(in_cone(f, cs[j], d));
                assert(scores_higher(f, d, cs[k], cs[j]));
            }
        },
        None => {
            assert forall|j: int| 0 <= j < rs.len() implies !(view_len2(from, #[trigger] rs[j]) > 0 && view_dot(
                from,
                rs[j],
                d,
            ) > 0) by {
                assert(toward(f, cs[j], d) == view_dot(from, rs[j], d) && dist2(f, cs[j]) == view_len2(from, rs[j]));
                assert(!in_cone(f, cs[j], d));
            }
        },
    }
}

/// The boops made from at most 256 records have as north, east, south and west neighbours the
/// records with the best score in those directions (see `best_in_view`).
pub proof fn lemma_csv_neighbours_best(rs: Seq<BoopRecordV>, i: int)
    requires
        0 <= i < rs.len(),
        rs.len() <= 256,
    ensures
        best_in_view(rs[i], rs, 0, csv_boops(rs)[i].north),
        best_in_view(rs[i], rs, 1, csv_boops(rs)[i].east),
        best_in_view(rs[i], rs, 2, csv_boops(rs)[i].south),
        best_in_view(rs[i], rs, 3, csv_boops(rs)[i].west),
{
    lemma_neighbour_has_best_score(rs[i], rs, 0);
    lemma_neighbour_has_best_score(rs[i], rs, 1);
    lemma_neighbour_has_best_score(rs[i], rs, 2);
    lemma_neighbour_has_best_score(rs[i], rs, 3);
}

/// The score of `to` as seen from `from` in direction `d` (0 north, 1 east, 2 south, 3 west),
/// as the fraction `(toward, dist2)`; none when `to` has the same center or lies 90 degrees or
/// more off the direction.
pub fn score_boop_for_direction(from: &BoopRecord, to: &BoopRecord, d: usize) -> (score: Option<(i64, i64)>)
    requires
        d < 4,
    ensures
        ({
            let (f, t) = (record_center2(from@), record_center2(to@));
            &&& in_cone(f, t, d as int) <==> score is Some
            &&& score matches Some(p) ==> p.0 == toward(f, t, d as int) && p.1 == dist2(f, t)
                && 0 < p.0 <= 765 && 0 < p.1 <= 1170450
        }),
{
    let (dx, dy): (i64, i64) = if d == 0 {
        (0, -1)
    } else if d == 1 {
        (1, 0)
    } else if d == 2 {
        (0, 1)
    } else {
        (-1, 0)
    };
    let cx = 2 * (from.x as i64) + from.w as i64;
    let cy = 2 * (from.y as i64) + from.h as i64;
    let tx = 2 * (to.x as i64) + to.w as i64;
    let ty = 2 * (to.y as i64) + to.h as i64;
    let vx = tx - cx;
    let vy = ty - cy;
    assert(-765 <= vx <= 765 && -765 <= vy <= 765);
    assert(0 <= vx * vx <= 585225 && 0 <= vy * vy <= 585225) by (nonlinear_arith)
        requires
            -765 <= vx <= 765,
            -765 <= vy <= 765,
    ;
    assert(-765 <= dx * vx + dy * vy <= 765) by (nonlinear_arith)
        requires
            -765 <= vx <= 765,
            -765 <= vy <= 765,
            (dx == 0 && (dy == 1 || dy == -1)) || (dy == 0 && (dx == 1 || dx == -1)),
    ;
    let q = vx * vx + vy * vy;
    let t = dx * vx + dy * vy;
    if q == 0 || t <= 0 {
        None
    } else {
        Some((t, q))
    }
}

/// The neighbour of `from` in direction `d` among `records`: the last record in the cone with
/// the highest score.
pub fn best_boop_idx_for_direction(from: &BoopRecord, records: &[BoopRecord], d: usize) -> (r: Option<u8>)
    requires
        d < 4,
    ensures
        r == pick(record_center2(from@), centers(records_view(records@)), d as int),
{
    let ghost f = record_center2(from@);
    let ghost cs = centers(records_view(records@));
    let len = records.len();
    let mut best: Option<usize> = None;
    let mut best_toward: i64 = 0;
    let mut best_dist2: i64 = 0;
    let mut j: usize = 0;
    while j < len
        invariant
            len == records@.len(),
            cs == centers(records_view(records@)),
            f == record_center2(from@),
            d < 4,
            j <= len,
            match best {
                Some(k) => last_best(f, cs, d as int, j as int) == Some(k as int) && best_toward
                    == toward(f, cs[k as int], d as int) && best_dist2 == dist2(f, cs[k as int]) && 0
                    < best_toward <= 765 && 0 < best_dist2 <= 1170450,
                None => last_best(f, cs, d as int, j as int) is None,
            },
        decreases len - j,
    {
        assert(cs[j as int] == record_center2(records@[j as int]@));
        match score_boop_for_direction(from, &records[j], d) {
            Some((t, q)) => {
                let replace = match best {
                    None => true,
                    Some(_) => {
                        assert(t * best_dist2 <= 765 * 1170450 && best_toward * q <= 765 * 1170450)
                            by (nonlinear_arith)
                            requires
                                0 < t <= 765,
                                0 < q <= 1170450,
                                0 < best_toward <= 765,
                                0 < best_dist2 <= 1170450,
                        ;
                        !(best_toward * q > t * best_dist2)
                    },
                };
                if replace {
                    best = Some(j);
                    best_toward = t;
                    best_dist2 = q;
                }
            },
            None => {},
        }
        j += 1;
    }
    match best {
        Some(k) => Some(#[verifier::truncate] (k as u8)),
        None => None,
    }
}

/// A named list of boops.
pub struct Boops {
    pub name: String,
    pub boops: Vec<Boop>,
}

impl Boops {
    pub fn new(name: &str, boops: Vec<Boop>) -> (b: Self)
        ensures
            b.name@ == name@,
            b.boops@ == boops@,
    {
        Boops { name: name.to_owned(), boops }
    }

    pub fn name(&self) -> (n: &str)
        ensures
            n@ == self.name@,
    {
        self.name.as_str()
    }

    /// The boops of a CSV file, in order, each with its neighbour in every direction.
    pub fn from(value: BoopCsv) -> (b: Self)
        ensures
            b.name@ == value.name_view(),
            boops_view(b.boops@) == csv_boops(records_view(value.records())),
    {
        let records = value.records_slice();
        let ghost rs = records_view(value.records());
        let mut boops: Vec<Boop> = Vec::new();
        let mut i: usize = 0;
        while i < records.len()
            invariant
                records@ == value.records(),
                rs == records_view(value.records()),
                i <= records@.len(),
                boops@.len() == i,
                forall|k: int| 0 <= k < i ==> #[trigger] boops@[k]@ == csv_boops(rs)[k],
            decreases records@.len() - i,
        {
            let from = &records[i];
            let north = best_boop_idx_for_direction(from, records, 0);
            let east = best_boop_idx_for_direction(from, records, 1);
            let south = best_boop_idx_for_direction(from, records, 2);
            let west = best_boop_idx_for_direction(from, records, 3);
            boops.push(Boop::new(from, north, east, south, west));
            assert(boops@[i as int]@ == csv_boops(rs)[i as int]);
            i += 1;
        }
        let b = Boops::new(value.name(), boops);
        assert(boops_view(b.boops@) =~= csv_boops(rs));
        b
    }

    /// The contents of the boops file and the arguments file.
    pub fn as_data(&self) -> (files: (Vec<u8>, Vec<u8>))
        ensures
            files.0@ == boops_file(boops_view(self.boops@)),
            files.1@ == args_file(boops_view(self.boops@)),
    {
        let ghost vs = boops_view(self.boops@);
        let ghost parts = Seq::new(vs.len(), |k: int| boop_bytes(vs[k], args_start(vs, k)));
        let mut all_args: Vec<u8> = Vec::new();
        let mut out: Vec<u8> = Vec::new();
        let mut i: usize = 0;
        while i < self.boops.len()
            invariant
                i <= vs.len(),
                vs == boops_view(self.boops@),
                parts == Seq::new(vs.len(), |k: int| boop_bytes(vs[k], args_start(vs, k))),
                out@ == concat_all(parts.take(i as int)),
                all_args@ == args_file(vs.take(i as int)),
                all_args@.len() == args_start(vs, i as int),
            decreases vs.len() - i,
        {
            let ghost before_args = all_args@;
            let bb = BoopBytes::new(&self.boops[i], &mut all_args);
            let bytes = bb.as_bytes();
            let ghost before = out@;
            let mut j: usize = 0;
            while j < bytes.len()
                invariant
                    j <= bytes@.len(),
                    out@ == before + bytes@.take(j as int),
                decreases bytes@.len() - j,
            {
                out.push(bytes[j]);
                assert(bytes@.take(j + 1) =~= bytes@.take(j as int).push(bytes@[j as int]));
                j += 1;
            }
            proof {
                assert(bytes@.take(j as int) =~= bytes@);
                assert(parts.take(i + 1).drop_last() =~= parts.take(i as int));
                assert(parts[i as int] == bytes@);
                let g = |v: BoopV| v.args;
                assert(vs.take(i + 1).map_values(g).drop_last() =~= vs.take(i as int).map_values(g));
                assert(vs.take(i + 1).last() == vs[i as int]);
            }
            i += 1;
        }
        assert(parts.take(i as int) =~= parts);
        assert(vs.take(i as int) =~= vs);
        (out, all_args)
    }
}

/// The arguments of the boops before `k` take `args_start(vs, k)` bytes of the arguments file.
proof fn lemma_args_prefix_len(vs: Seq<BoopV>, k: int)
    requires
        0 <= k <= vs.len(),
    ensures
        concat_all(vs.map_values(|v: BoopV| v.args).take(k)).len() == args_start(vs, k),
    decreases k,
{
    let parts = vs.map_values(|v: BoopV| v.args);
    if k > 0 {
        lemma_args_prefix_len(vs, k - 1);
        assert(parts.take(k).drop_last() =~= parts.take(k - 1));
        assert(parts.take(k).last() == vs[k - 1].args);
    }
}

/// Saving boops and reading one back: boop `k`'s 11 bytes in the boops file hold its area,
/// its neighbours and callback (255 for none), and the place of its arguments in the
/// arguments file, where they are found again, as long as that place and their length fit in a
/// byte. Read back, the bytes give the same boop, unless one of its neighbours or its callback
/// is 255 itself.
pub proof fn lemma_saved_boop_round_trip(vs: Seq<BoopV>, k: int)
    requires
        0 <= k < vs.len(),
        vs[k].args.len() > 0 ==> args_start(vs, k) < 256 && vs[k].args.len() < 256,
    ensures
        ({
            let b = boops_file(vs).subrange(11 * k, 11 * k + 11);
            let a = args_file(vs);
            &&& 11 * k + 11 <= boops_file(vs).len()
            &&& b == boop_bytes(vs[k], args_start(vs, k))
            &&& b[0] == vs[k].x && b[1] == vs[k].y && b[2] == vs[k].w && b[3] == vs[k].h
            &&& b[4] == or_255(vs[k].north) && b[5] == or_255(vs[k].east)
            &&& b[6] == or_255(vs[k].south) && b[7] == or_255(vs[k].west)
            &&& b[8] == or_255(vs[k].callback)
            &&& b[9] + b[10] <= a.len()
            &&& a.subrange(b[9] as int, b[9] + b[10]) == vs[k].args
            &&& no_none_marker(vs[k]) ==> read_boop(b, a) == vs[k]
        }),
{
    let parts = Seq::new(vs.len(), |j: int| boop_bytes(vs[j], args_start(vs, j)));
    assert forall|j: int| 0 <= j < parts.len() implies #[trigger] parts[j].len() == 11 by {}
    lemma_concat_all_part(parts, k);
    assert forall|j: int| 0 <= j < parts.take(k).len() implies #[trigger] parts.take(k)[j].len() == 11 by {}
    lemma_concat_all_uniform(parts.take(k), 11);
    let b = boops_file(vs).subrange(11 * k, 11 * k + 11);
    assert(b == parts[k]);
    let args = vs.map_values(|v: BoopV| v.args);
    lemma_concat_all_part(args, k);
    lemma_args_prefix_len(vs, k);
    if vs[k].args.len() > 0 {
        assert(b[9] == args_start(vs, k));
        assert(b[10] == vs[k].args.len());
        assert(args[k] == vs[k].args);
    } else {
        assert(args_file(vs).subrange(0, 0) =~= vs[k].args);
    }
}

} // verus!
