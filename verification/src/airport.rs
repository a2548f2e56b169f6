//! Airport coordinates and the partial index built from the coordinate
//! table for the codes one run needs.

use vstd::prelude::*;

use crate::job::Job;

verus! {

/// One airport: its code and its coordinates in micro-degrees. The
/// great-circle geometry itself runs outside the library; the index only
/// answers which coordinates belong to a code.
#[derive(Debug)]
pub struct Airport {
    pub icao: String,
    pub lat: i64,
    pub lon: i64,
}

impl Clone for Airport {
    fn clone(&self) -> (res: Self)
        ensures
            res == *self,
    {
        Airport { icao: self.icao.clone(), lat: self.lat, lon: self.lon }
    }
}

/// The last row of a table carrying a code, if any: a later row overrides
/// an earlier one with the same code.
pub open spec fn spec_match_row(table: Seq<Airport>, code: Seq<char>) -> Option<Airport>
    decreases table.len(),
{
    if table.len() == 0 {
        None
    } else if table.last().icao@ == code {
        Some(table.last())
    } else {
        spec_match_row(table.drop_last(), code)
    }
}

/// Whether a requested-code list holds a code.
pub open spec fn spec_contains_code(codes: Seq<String>, code: Seq<char>) -> bool {
    exists|i: int| 0 <= i < codes.len() && #[trigger] codes[i]@ == code
}

/// What the index built from `codes` and `table` answers for a code: the
/// last matching table row, and nothing for codes that were not requested.
pub open spec fn spec_table_lookup(
    codes: Seq<String>,
    table: Seq<Airport>,
    code: Seq<char>,
) -> Option<Airport> {
    if spec_contains_code(codes, code) {
        spec_match_row(table, code)
    } else {
        None
    }
}

/// Partial mapping from airport code to coordinates, holding the table rows
/// of the requested codes in table order; on duplicate codes the last row
/// wins.
pub struct AirportIndex {
    pub rows: Vec<Airport>,
}

fn contains_code(codes: &Vec<String>, code: &String) -> (r: bool)
    ensures
        r == spec_contains_code(codes@, code@),
{
    let mut i: usize = 0;
    while i < codes.len()
        invariant
            0 <= i <= codes@.len(),
            forall|k: int| 0 <= k < i ==> #[trigger] codes@[k]@ != code@,
        decreases codes@.len() - i,
    {
        if codes[i] == *code {
            return true;
        }
        i = i + 1;
    }
    false
}

impl AirportIndex {
    /// What this index answers for a code.
    pub open spec fn lookup_spec(self, code: Seq<char>) -> Option<Airport> {
        spec_match_row(self.rows@, code)
    }

    /// The coordinates of a code, if the index holds them.
    pub fn lookup(&self, code: &String) -> (r: Option<Airport>)
        ensures
            r == self.lookup_spec(code@),
    {
        let mut found: Option<Airport> = None;
        let mut i: usize = 0;
        while i < self.rows.len()
            invariant
                0 <= i <= self.rows@.len(),
                found == spec_match_row(self.rows@.take(i as int), code@),
            decreases self.rows@.len() - i,
        {
            proof {
                assert(self.rows@.take(i as int + 1).drop_last() =~= self.rows@.take(i as int));
            }
            if self.rows[i].icao == *code {
                found = Some(self.rows[i].clone());
            }
            i = i + 1;
        }
        proof {
            assert(self.rows@.take(self.rows@.len() as int) =~= self.rows@);
        }
        found
    }

    /// Builds the index for the requested codes from the coordinate table.
    /// A code absent from the table is simply absent from the index; of
    /// duplicate table rows the last one wins.
    pub fn build(codes: &Vec<String>, table: &Vec<Airport>) -> (idx: AirportIndex)
        ensures
            forall|code: Seq<char>| #[trigger]
                idx.lookup_spec(code) == spec_table_lookup(codes@, table@, code),
    {
        let mut idx = AirportIndex { rows: Vec::new() };
        let mut i: usize = 0;
        while i < table.len()
            invariant
                0 <= i <= table@.len(),
                forall|code: Seq<char>| #[trigger]
                    spec_match_row(idx.rows@, code) == spec_table_lookup(
                        codes@,
                        table@.take(i as int),
                        code,
                    ),
            decreases table@.len() - i,
        {
            let ghost before = idx.rows@;
            let row = &table[i];
            if contains_code(codes, &row.icao) {
                idx.rows.push(row.clone());
            }
            proof {
                assert(table@.take(i as int + 1).drop_last() =~= table@.take(i as int));
                assert(table@.take(i as int + 1).last() == table@[i as int]);
                if idx.rows@ != before {
                    assert(idx.rows@.drop_last() =~= before);
                }
                assert forall|code: Seq<char>| #[trigger]
                    spec_match_row(idx.rows@, code) == spec_table_lookup(
                        codes@,
                        table@.take(i as int + 1),
                        code,
                    ) by {
                    assert(spec_match_row(before, code) == spec_table_lookup(
                        codes@,
                        table@.take(i as int),
                        code,
                    ));
                }
            }
            i = i + 1;
        }
        proof {
            assert(table@.take(table@.len() as int) =~= table@);
        }
        idx
    }
}

/// The two endpoints a job's distance is measured between: present exactly
/// when both its codes are in the index. A job with an absent endpoint keeps
/// its distance unset and is later excluded from profit scoring.
pub fn job_endpoints(idx: &AirportIndex, job: &Job) -> (r: Option<(Airport, Airport)>)
    ensures
        r == (match (idx.lookup_spec(job.from_icao@), idx.lookup_spec(job.to_icao@)) {
            (Some(a), Some(b)) => Some((a, b)),
            _ => None::<(Airport, Airport)>,
        }),
{
    let from = idx.lookup(&job.from_icao);
    let to = idx.lookup(&job.to_icao);
    match (from, to) {
        (Some(a), Some(b)) => Some((a, b)),
        _ => None,
    }
}

/// Records a measured distance on a job, or leaves it unset.
pub fn attach_distance(job: &mut Job, dist_centi_nm: Option<u64>)
    ensures
        final(job).dist == dist_centi_nm,
        final(job).to_icao == old(job).to_icao,
        final(job).from_icao == old(job).from_icao,
        final(job).commodity == old(job).commodity,
        final(job).amount == old(job).amount,
        final(job).cargo == old(job).cargo,
        final(job).price == old(job).price,
        final(job).vip == old(job).vip,
        final(job).profit == old(job).profit,
{
    job.dist = dist_centi_nm;
}

} // verus!
