//! A boops file of a project, given as its lines, and the boops it turns into.
use vstd::prelude::*;
use crate::boop::{BoopV, Boops, csv_boops, records_view};
use crate::error::{Error, ErrorV};
use crate::project::csv::{BoopCsv, BoopRecord, BoopRecordV, boops_header, is_boops_header, parse_record};
use crate::project::digest::{Digests, DigestsV};
use crate::project::strings_view;
use crate::text::remove_spaces;

verus! {

/// The records of lines 1 to `n - 1` of a boops file (line 0 is the header), or the error of
/// the first line that is not a record.
pub open spec fn parse_records(lines: Seq<Seq<char>>, n: int) -> Result<Seq<BoopRecordV>, ErrorV>
    decreases n,
{
    if n <= 1 {
        Ok(Seq::empty())
    } else {
        match parse_records(lines, n - 1) {
            Err(e) => Err(e),
            Ok(rs) => match parse_record(lines[n - 1]) {
                Ok(r) => Ok(rs.push(r)),
                Err(e) => Err(e),
            },
        }
    }
}

/// The boops a boops file turns into, by name and contents, or the first line's error.
pub open spec fn boop_node_result(name: Seq<char>, lines: Seq<Seq<char>>) -> Result<
    (Seq<char>, Seq<BoopV>),
    ErrorV,
> {
    match parse_records(lines, lines.len() as int) {
        Ok(rs) => Ok((name, csv_boops(rs))),
        Err(e) => Err(e),
    }
}

/// The header check of a boops file with at least one line.
pub open spec fn boop_verify(lines: Seq<Seq<char>>) -> Option<ErrorV> {
    if remove_spaces(lines[0]) == boops_header() {
        None
    } else {
        Some(ErrorV::BoopsHeader)
    }
}

proof fn lemma_parse_records_err_stays(lines: Seq<Seq<char>>, n: int, m: int)
    requires
        n <= m,
        parse_records(lines, n) is Err,
    ensures
        parse_records(lines, m) == parse_records(lines, n),
    decreases m - n,
{
    if n < m {
        lemma_parse_records_err_stays(lines, n, m - 1);
    }
}

/// A boops file of a project: its name (the file name without `.csv`) and its lines.
pub struct BoopNode {
    name: String,
    lines: Vec<String>,
}

impl BoopNode {
    pub closed spec fn name_view(&self) -> Seq<char> {
        self.name@
    }

    pub closed spec fn lines(&self) -> Seq<Seq<char>> {
        strings_view(self.lines@)
    }

    pub fn new(name: String, lines: Vec<String>) -> (n: Self)
        ensures
            n.name_view() == name@,
            n.lines() == strings_view(lines@),
    {
        BoopNode { name, lines }
    }

    /// The first line of a boops file must read `x,y,w,h,callback,args`, spaces aside.
    pub fn verify(&self) -> (res: Result<(), Error>)
        requires
            self.lines().len() > 0,
        ensures
            match boop_verify(self.lines()) {
                None => res is Ok,
                Some(e) => res matches Err(x) && x@ == e,
            },
    {
        if !is_boops_header(self.lines[0].as_str()) {
            return Err(Error::BoopsHeader);
        }
        Ok(())
    }

    /// The records of every line after the header, in order; fails on the first line that is
    /// not a record.
    pub fn as_boops(&self) -> (res: Result<BoopCsv, Error>)
        ensures
            match parse_records(self.lines(), self.lines().len() as int) {
                Ok(rs) => res matches Ok(c) && c.name_view() == self.name_view() && records_view(
                    c.records(),
                ) == rs,
                Err(e) => res matches Err(x) && x@ == e,
            },
    {
        let ghost lines = self.lines();
        let mut records: Vec<BoopRecord> = Vec::new();
        let mut k: usize = 1;
        assert(records_view(records@) =~= Seq::<BoopRecordV>::empty());
        while k < self.lines.len()
            invariant
                lines == self.lines(),
                1 <= k,
                records@.len() == k - 1,
                k <= self.lines@.len() || k == 1,
                parse_records(lines, k as int) == Ok::<Seq<BoopRecordV>, ErrorV>(records_view(records@)),
            decreases self.lines@.len() - k,
        {
            let line = self.lines[k].clone();
            assert(line@ == lines[k as int]);
            match BoopRecord::try_from(line) {
                Ok(r) => {
                    let ghost before = records@;
                    let ghost r_view = r@;
                    records.push(r);
                    assert(records_view(records@) =~= records_view(before).push(r_view));
                },
                Err(e) => {
                    proof {
                        lemma_parse_records_err_stays(lines, k + 1, lines.len() as int);
                    }
                    return Err(e);
                },
            }
            k += 1;
        }
        proof {
            if lines.len() == 0 {
                assert(parse_records(lines, 0) == parse_records(lines, 1));
            }
        }
        Ok(BoopCsv::new(self.name.as_str(), records))
    }

    /// Adds the boops of this file to `digests`.
    pub fn digest(&self, digests: &mut Digests) -> (res: Result<(), Error>)
        ensures
            match boop_node_result(self.name_view(), self.lines()) {
                Ok(v) => res is Ok && final(digests)@ == (DigestsV {
                    boops: old(digests)@.boops.push(v),
                    ..old(digests)@
                }),
                Err(e) => res matches Err(x) && x@ == e && final(digests)@ == old(digests)@,
            },
    {
        let csv = self.as_boops()?;
        let boops = Boops::from(csv);
        let ghost before = digests@;
        let ghost bv = (boops.name@, crate::boop::boops_view(boops.boops@));
        digests.boops_mut().push(boops);
        assert(digests@.boops =~= before.boops.push(bv));
        Ok(())
    }
}

} // verus!
