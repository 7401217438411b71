//! The boops CSV file: a header line, then one record per boop.
use vstd::prelude::*;
use crate::error::{Error, ErrorV};
use crate::text::{all_digits, all_digits_exec, chars_of, chars_view, is_digit, parse_u8, parse_u8_chars, remove_spaces, split_chars, split_on, without_spaces};

verus! {

/// The fields of the header line, once spaces are removed.
pub open spec fn boops_header() -> Seq<char> {
    seq!['x', ',', 'y', ',', 'w', ',', 'h', ',', 'c', 'a', 'l', 'l', 'b', 'a', 'c', 'k', ',', 'a', 'r', 'g', 's']
}

/// Whether a header line, with its spaces removed, reads `x,y,w,h,callback,args`.
pub fn is_boops_header(line: &str) -> (r: bool)
    ensures
        r == (remove_spaces(line@) == boops_header()),
{
    let chars = without_spaces(&chars_of(line));
    let expected: Vec<char> = vec!['x', ',', 'y', ',', 'w', ',', 'h', ',', 'c', 'a', 'l', 'l', 'b', 'a', 'c', 'k', ',', 'a', 'r', 'g', 's'];
    assert(expected@ =~= boops_header());
    if chars.len() != expected.len() {
        assert(chars@.len() != boops_header().len());
        return false;
    }
    let mut i: usize = 0;
    while i < chars.len()
        invariant
            chars@ == remove_spaces(line@),
            expected@ == boops_header(),
            chars@.len() == expected@.len(),
            i <= chars@.len(),
            forall|k: int| 0 <= k < i ==> chars@[k] == expected@[k],
        decreases chars@.len() - i,
    {
        if chars[i] != expected[i] {
            assert(chars@[i as int] != boops_header()[i as int]);
            return false;
        }
        i += 1;
    }
    assert(chars@ =~= expected@);
    true
}

/// The arguments field: digits and `|`, where every `|` follows a digit.
pub open spec fn is_args_shape(s: Seq<char>) -> bool {
    forall|i: int|
        0 <= i < s.len() ==> (is_digit(#[trigger] s[i]) || s[i] == '|') && (s[i] == '|' ==> i > 0
            && is_digit(s[i - 1]))
}

/// Six comma-separated fields: four non-empty numbers, an optional number, and arguments.
pub open spec fn record_shape(f: Seq<Seq<char>>) -> bool {
    &&& f.len() == 6
    &&& forall|k: int| 0 <= k < 4 ==> #[trigger] f[k].len() > 0 && all_digits(f[k])
    &&& all_digits(f[4])
    &&& is_args_shape(f[5])
}

/// The argument bytes, when every `|`-separated piece is a byte.
pub open spec fn args_values(pieces: Seq<Seq<char>>) -> Option<Seq<u8>> {
    if forall|k: int| 0 <= k < pieces.len() ==> #[trigger] parse_u8(pieces[k]) is Some {
        Some(Seq::new(pieces.len(), |k: int| parse_u8(pieces[k])->0))
    } else {
        None
    }
}

/// The fields of a record line once its spaces are removed.
pub open spec fn record_fields(line: Seq<char>) -> Seq<Seq<char>> {
    split_on(remove_spaces(line), ',')
}

/// The bytes of an arguments field: none when it is empty.
pub open spec fn record_args(f: Seq<char>) -> Option<Seq<u8>> {
    if f.len() == 0 {
        Some(Seq::empty())
    } else {
        args_values(split_on(f, '|'))
    }
}

/// The callback of a callback field: none when it is empty.
pub open spec fn record_callback(f: Seq<char>) -> Option<Option<u8>> {
    if f.len() == 0 {
        Some(None)
    } else {
        match parse_u8(f) {
            Some(v) => Some(Some(v)),
            None => None,
        }
    }
}

/// The line parses: its shape is right and every number fits in a byte.
pub open spec fn record_numbers_fit(f: Seq<Seq<char>>) -> bool {
    &&& forall|k: int| 0 <= k < 4 ==> #[trigger] parse_u8(f[k]) is Some
    &&& record_callback(f[4]) is Some
    &&& record_args(f[5]) is Some
}

/// One boop as described by a line of the CSV file.
pub struct BoopRecord {
    pub x: u8,
    pub y: u8,
    pub w: u8,
    pub h: u8,
    pub callback: Option<u8>,
    pub args: Vec<u8>,
}

/// The contents of a record.
pub struct BoopRecordV {
    pub x: u8,
    pub y: u8,
    pub w: u8,
    pub h: u8,
    pub callback: Option<u8>,
    pub args: Seq<u8>,
}

impl View for BoopRecord {
    type V = BoopRecordV;

    open spec fn view(&self) -> BoopRecordV {
        BoopRecordV {
            x: self.x,
            y: self.y,
            w: self.w,
            h: self.h,
            callback: self.callback,
            args: self.args@,
        }
    }
}

/// The record a line describes: `RecordFormat` for a line of the wrong shape, `ParseInt` for
/// a number above 255 (or an empty argument after a final `|`).
pub open spec fn parse_record(line: Seq<char>) -> Result<BoopRecordV, ErrorV> {
    let f = record_fields(line);
    if !record_shape(f) {
        Err(ErrorV::RecordFormat)
    } else if !record_numbers_fit(f) {
        Err(ErrorV::ParseInt)
    } else {
        Ok(
            BoopRecordV {
                x: parse_u8(f[0])->0,
                y: parse_u8(f[1])->0,
                w: parse_u8(f[2])->0,
                h: parse_u8(f[3])->0,
                callback: record_callback(f[4])->0,
                args: record_args(f[5])->0,
            },
        )
    }
}

impl BoopRecord {
    /// Parses a record line `x,y,w,h,callback,args` (spaces are ignored): four bytes, an
    /// optional callback byte and `|`-separated argument bytes.
    pub fn try_from(value: String) -> (res: Result<BoopRecord, Error>)
        ensures
            match parse_record(value@) {
                Ok(v) => res matches Ok(r) && r@ == v,
                Err(e) => res matches Err(x) && x@ == e,
            },
    {
        let chars = without_spaces(&chars_of(value.as_str()));
        let fields = split_chars(&chars, ',');
        let ghost f = record_fields(value@);
        assert(chars_view(fields@) == f);
        if fields.len() != 6 {
            return Err(Error::RecordFormat);
        }
        assert(fields@[0]@ == f[0] && fields@[1]@ == f[1] && fields@[2]@ == f[2] && fields@[3]@
            == f[3] && fields@[4]@ == f[4] && fields@[5]@ == f[5]);
        let mut k: usize = 0;
        while k < 4
            invariant
                f == record_fields(value@),
                k <= 4,
                fields@.len() == 6,
                chars_view(fields@) == f,
                forall|j: int| 0 <= j < k ==> #[trigger] f[j].len() > 0 && all_digits(f[j]),
            decreases 4 - k,
        {
            assert(fields@[k as int]@ == f[k as int]);
            if fields[k].len() == 0 || !all_digits_exec(&fields[k]) {
                assert(!(f[k as int].len() > 0 && all_digits(f[k as int])));
                return Err(Error::RecordFormat);
            }
            k += 1;
        }
        if !all_digits_exec(&fields[4]) || !is_args_shape_exec(&fields[5]) {
            return Err(Error::RecordFormat);
        }
        assert(record_shape(f));
        let x = parse_u8_chars(&fields[0]);
        let y = parse_u8_chars(&fields[1]);
        let w = parse_u8_chars(&fields[2]);
        let h = parse_u8_chars(&fields[3]);
        if x.is_none() || y.is_none() || w.is_none() || h.is_none() {
            assert(!record_numbers_fit(f)) by {
                if record_numbers_fit(f) {
                    assert(parse_u8(f[0]) is Some && parse_u8(f[1]) is Some && parse_u8(f[2]) is Some
                        && parse_u8(f[3]) is Some);
                }
            }
            return Err(Error::ParseInt);
        }
        let callback = if fields[4].len() == 0 {
            None
        } else {
            match parse_u8_chars(&fields[4]) {
                Some(v) => Some(v),
                None => {
                    return Err(Error::ParseInt);
                },
            }
        };
        let args = if fields[5].len() == 0 {
            Vec::new()
        } else {
            let pieces = split_chars(&fields[5], '|');
            let mut args: Vec<u8> = Vec::new();
            let mut j: usize = 0;
            while j < pieces.len()
                invariant
                    f == record_fields(value@),
                    f.len() == 6,
                    record_shape(f),
                    f[5].len() > 0,
                    j <= pieces@.len(),
                    chars_view(pieces@) == split_on(f[5], '|'),
                    args@.len() == j,
                    forall|t: int| 0 <= t < j ==> parse_u8(#[trigger] pieces@[t]@) == Some(args@[t]),
                decreases pieces@.len() - j,
            {
                match parse_u8_chars(&pieces[j]) {
                    Some(v) => {
                        args.push(v);
                    },
                    None => {
                        assert(!record_numbers_fit(f)) by {
                            let ps = split_on(f[5], '|');
                            assert(ps[j as int] == pieces@[j as int]@);
                            assert(parse_u8(ps[j as int]) is None);
                        }
                        return Err(Error::ParseInt);
                    },
                }
                j += 1;
            }
            proof {
                let ps = split_on(f[5], '|');
                assert forall|t: int| 0 <= t < ps.len() implies #[trigger] parse_u8(ps[t]) is Some by {
                    assert(ps[t] == pieces@[t]@);
                }
                assert(args@ =~= Seq::new(ps.len(), |t: int| parse_u8(ps[t])->0));
            }
            args
        };
        Ok(BoopRecord { x: x.unwrap(), y: y.unwrap(), w: w.unwrap(), h: h.unwrap(), callback, args })
    }
}

/// Whether a field has the shape of the arguments field.
fn is_args_shape_exec(s: &Vec<char>) -> (r: bool)
    ensures
        r == is_args_shape(s@),
{
    let mut i: usize = 0;
    while i < s.len()
        invariant
            i <= s@.len(),
            forall|k: int|
                0 <= k < i ==> (is_digit(#[trigger] s@[k]) || s@[k] == '|') && (s@[k] == '|' ==> k
                    > 0 && is_digit(s@[k - 1])),
        decreases s@.len() - i,
    {
        let c = s[i];
        let digit = '0' <= c && c <= '9';
        if !digit && c != '|' {
            return false;
        }
        if c == '|' && (i == 0 || !('0' <= s[i - 1] && s[i - 1] <= '9')) {
            return false;
        }
        i += 1;
    }
    true
}

/// The records of a boops file, under the file's name.
pub struct BoopCsv {
    name: String,
    records: Vec<BoopRecord>,
}

impl BoopCsv {
    pub closed spec fn name_view(&self) -> Seq<char> {
        self.name@
    }

    pub closed spec fn records(&self) -> Seq<BoopRecord> {
        self.records@
    }

    pub fn new(name: &str, records: Vec<BoopRecord>) -> (c: Self)
        ensures
            c.name_view() == name@,
            c.records() == records@,
    {
        BoopCsv { name: name.to_owned(), records }
    }

    pub fn name(&self) -> (n: &str)
        ensures
            n@ == self.name_view(),
    {
        self.name.as_str()
    }

    /// The records, in order.
    pub fn records_slice(&self) -> (r: &[BoopRecord])
        ensures
            r@ == self.records(),
    {
        self.records.as_slice()
    }
}

} // verus!
