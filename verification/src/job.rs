//! Canonical jobs, raw feed records, and the normalizer that discards jobs
//! already assigned to another aircraft.

use vstd::prelude::*;

verus! {

/// Net profit of a job once scored, in cents, and whether the dry-rental
/// computation produced it.
#[derive(Clone, Copy, PartialEq, Eq, Structural, Debug)]
pub struct JobResult {
    pub profit: i64,
    pub dry: bool,
}

/// One origin-to-destination job. `amount` is passengers or kilograms,
/// `dist` is in centi-nautical miles, `price` and the profit are in cents.
#[derive(Debug)]
pub struct Job {
    pub to_icao: String,
    pub from_icao: String,
    pub commodity: String,
    pub amount: u64,
    pub cargo: bool,
    pub dist: Option<u64>,
    pub price: u64,
    pub vip: bool,
    pub profit: Option<JobResult>,
}

impl Clone for Job {
    fn clone(&self) -> (res: Self)
        ensures
            res == *self,
    {
        Job {
            to_icao: self.to_icao.clone(),
            from_icao: self.from_icao.clone(),
            commodity: self.commodity.clone(),
            amount: self.amount,
            cargo: self.cargo,
            dist: self.dist,
            price: self.price,
            vip: self.vip,
            profit: self.profit,
        }
    }
}

impl Job {
    pub fn new() -> (j: Job)
        ensures
            j.to_icao@ == Seq::<char>::empty(),
            j.from_icao@ == Seq::<char>::empty(),
            j.commodity@ == Seq::<char>::empty(),
            j.amount == 0,
            !j.cargo,
            j.dist is None,
            j.price == 0,
            !j.vip,
            j.profit is None,
    {
        Job {
            to_icao: String::new(),
            from_icao: String::new(),
            commodity: String::new(),
            amount: 0,
            cargo: false,
            dist: None,
            price: 0,
            vip: false,
            profit: None,
        }
    }
}

/// One job record as the feed reports it, before normalization. A non-zero
/// `assigned_aircraft` marks a job already claimed by that aircraft.
#[derive(Debug)]
pub struct RawJob {
    pub to_icao: String,
    pub from_icao: String,
    pub commodity: String,
    pub amount: u64,
    pub cargo: bool,
    pub price: u64,
    pub vip: bool,
    pub assigned_aircraft: u64,
}

/// A raw job may be worked by the querying aircraft: its marker is zero or
/// matches the querying aircraft's own identifier.
pub open spec fn spec_assignable(r: RawJob, own_aircraft: u64) -> bool {
    r.assigned_aircraft == 0 || r.assigned_aircraft == own_aircraft
}

/// The canonical job a raw record denotes; its distance starts unset and it
/// carries no profit yet.
pub open spec fn spec_canonical(r: RawJob) -> Job {
    Job {
        to_icao: r.to_icao,
        from_icao: r.from_icao,
        commodity: r.commodity,
        amount: r.amount,
        cargo: r.cargo,
        dist: None,
        price: r.price,
        vip: r.vip,
        profit: None,
    }
}

/// Discards a record claimed by a different aircraft; otherwise produces the
/// canonical job.
pub fn normalize_job(r: &RawJob, own_aircraft: u64) -> (j: Option<Job>)
    ensures
        j == (if spec_assignable(*r, own_aircraft) {
            Some(spec_canonical(*r))
        } else {
            Option::<Job>::None
        }),
{
    if r.assigned_aircraft == 0 || r.assigned_aircraft == own_aircraft {
        Some(
            Job {
                to_icao: r.to_icao.clone(),
                from_icao: r.from_icao.clone(),
                commodity: r.commodity.clone(),
                amount: r.amount,
                cargo: r.cargo,
                dist: None,
                price: r.price,
                vip: r.vip,
                profit: None,
            },
        )
    } else {
        None
    }
}

/// The normalized job set of a whole feed, in feed order.
pub open spec fn spec_normalize(rs: Seq<RawJob>, own_aircraft: u64) -> Seq<Job>
    decreases rs.len(),
{
    if rs.len() == 0 {
        Seq::empty()
    } else {
        let prefix = spec_normalize(rs.drop_last(), own_aircraft);
        if spec_assignable(rs.last(), own_aircraft) {
            prefix.push(spec_canonical(rs.last()))
        } else {
            prefix
        }
    }
}

pub fn normalize_jobs(rs: &Vec<RawJob>, own_aircraft: u64) -> (jobs: Vec<Job>)
    ensures
        jobs@ == spec_normalize(rs@, own_aircraft),
{
    let mut jobs: Vec<Job> = Vec::new();
    let mut i: usize = 0;
    while i < rs.len()
        invariant
            0 <= i <= rs@.len(),
            jobs@ == spec_normalize(rs@.take(i as int), own_aircraft),
        decreases rs@.len() - i,
    {
        proof {
            assert(rs@.take(i as int + 1).drop_last() =~= rs@.take(i as int));
        }
        match normalize_job(&rs[i], own_aircraft) {
            Some(j) => jobs.push(j),
            None => (),
        }
        i = i + 1;
    }
    proof {
        assert(rs@.take(rs@.len() as int) =~= rs@);
    }
    jobs
}

/// Every normalized job comes from a record the querying aircraft may work:
/// a record whose assignment marker is non-zero and mismatched contributes
/// nothing to the output.
pub proof fn lemma_normalized_assignable(rs: Seq<RawJob>, own_aircraft: u64, k: int)
    requires
        0 <= k < spec_normalize(rs, own_aircraft).len(),
    ensures
        exists|i: int|
            0 <= i < rs.len() && spec_assignable(#[trigger] rs[i], own_aircraft)
                && spec_normalize(rs, own_aircraft)[k] == spec_canonical(rs[i]),
    decreases rs.len(),
{
    let out = spec_normalize(rs, own_aircraft);
    let prefix = spec_normalize(rs.drop_last(), own_aircraft);
    if spec_assignable(rs.last(), own_aircraft) && k == out.len() - 1 {
        assert(rs[rs.len() - 1] == rs.last());
    } else {
        lemma_normalized_assignable(rs.drop_last(), own_aircraft, k);
        let i = choose|i: int|
            0 <= i < rs.drop_last().len() && spec_assignable(#[trigger] rs.drop_last()[i], own_aircraft)
                && prefix[k] == spec_canonical(rs.drop_last()[i]);
        assert(rs[i] == rs.drop_last()[i]);
        assert(spec_assignable(rs[i], own_aircraft) && out[k] == spec_canonical(rs[i]));
    }
}

} // verus!
