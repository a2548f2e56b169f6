//! Feasibility and net profit of a job flown by a selected aircraft, under
//! dry and wet rental pricing.
//!
//! All arithmetic is fixed-point: distances in centi-nautical miles, flight
//! time in milli-hours, fuel in centi-gallons, money in cents. Divisions
//! round toward zero, as the spec functions here state exactly.

use vstd::prelude::*;

use vstd::arithmetic::div_mod::{
    lemma_div_is_ordered, lemma_div_nonincreasing, lemma_div_pos_is_pos,
};

use crate::job::{Job, JobResult};
use crate::limits::{
    DIST_MAX_CENTI_NM, FUEL_PRICE_MAX_CENTS, GPH_MAX_CENTI, RATE_MAX_CENTS, SCORE_PRICE_MAX_CENTS,
};
use crate::plane::Plane;

verus! {

/// Flight characteristics of the aircraft model under consideration, as the
/// command surface supplies them.
#[derive(Clone, Copy)]
pub struct AircraftParams {
    /// Fuel burn, in centi-gallons per hour.
    pub gph_centi: u64,
    /// Cruise speed, in knots.
    pub tas_knots: u64,
    /// Tank size, in centi-gallons.
    pub tank_centi: u64,
    /// Passenger capacity.
    pub max_pax: u64,
    /// Cargo capacity, in kilograms.
    pub max_cargo: u64,
    /// System fuel price, in cents per gallon.
    pub fuel_price_cents: u64,
}

/// Parameters the integer model accepts: a positive cruise speed and burn,
/// price and capacity figures within the documented bounds.
pub open spec fn params_bounded(p: AircraftParams) -> bool {
    &&& 1 <= p.tas_knots
    &&& p.gph_centi <= GPH_MAX_CENTI
    &&& p.fuel_price_cents <= FUEL_PRICE_MAX_CENTS
}

/// A plane whose rates the profit arithmetic accepts.
pub open spec fn plane_rates_bounded(pl: Plane) -> bool {
    &&& (pl.dry_rental matches Some(d) ==> d <= RATE_MAX_CENTS)
    &&& (pl.wet_rental matches Some(w) ==> w <= RATE_MAX_CENTS)
}

/// A job the profit arithmetic accepts; combined legs stay inside these
/// bounds when the combiner's own bounds hold.
pub open spec fn job_score_bounded(j: Job) -> bool {
    &&& j.price <= SCORE_PRICE_MAX_CENTS
    &&& (j.dist matches Some(d) ==> d <= DIST_MAX_CENTI_NM)
}

/// Flight time in milli-hours: distance over ground speed.
pub open spec fn spec_flight_time_milli(dist_centi_nm: int, tas_knots: int) -> int {
    dist_centi_nm * 10 / tas_knots
}

/// Fuel burned over a flight, in centi-gallons.
pub open spec fn spec_fuel_needed_centi(gph_centi: int, time_milli: int) -> int {
    gph_centi * time_milli / 1000
}

/// What that fuel costs at the system fuel price, in cents.
pub open spec fn spec_fuel_cost_cents(fuel_centi: int, fuel_price_cents: int) -> int {
    fuel_centi * fuel_price_cents / 100
}

/// Net profit under a dry rental: the renter buys fuel separately, and the
/// fuel term enters with the sign the pricing model prescribes.
pub open spec fn spec_dry_profit_cents(
    price_cents: int,
    dry_rate_cents: int,
    time_milli: int,
    fuel_cost_cents: int,
) -> int {
    price_cents - dry_rate_cents * time_milli / 1000 + fuel_cost_cents
}

/// Net profit under a wet rental: fuel is already in the rate.
pub open spec fn spec_wet_profit_cents(price_cents: int, wet_rate_cents: int, time_milli: int) -> int {
    price_cents - wet_rate_cents * time_milli / 1000
}

/// Whether a job may be scored against an aircraft at all, and with what
/// result. No result when the aircraft is parked elsewhere, the distance is
/// unknown, the amount exceeds the relevant capacity, the fuel needed
/// reaches the tank size, or both computed profits are exactly zero.
pub open spec fn spec_score(j: Job, pl: Plane, p: AircraftParams) -> Option<JobResult> {
    if pl.location@ != j.from_icao@ {
        None
    } else if j.dist is None {
        None
    } else if (j.cargo && j.amount > p.max_cargo) || (!j.cargo && j.amount > p.max_pax) {
        None
    } else {
        let time = spec_flight_time_milli(j.dist->Some_0 as int, p.tas_knots as int);
        let fuel = spec_fuel_needed_centi(p.gph_centi as int, time);
        if fuel >= p.tank_centi as int {
            None
        } else {
            let fuel_cost = spec_fuel_cost_cents(fuel, p.fuel_price_cents as int);
            match (pl.dry_rental, pl.wet_rental) {
                (None, None) => None,
                (Some(d), None) => Some(
                    JobResult {
                        profit: spec_dry_profit_cents(
                            j.price as int,
                            d as int,
                            time,
                            fuel_cost,
                        ) as i64,
                        dry: true,
                    },
                ),
                (None, Some(w)) => Some(
                    JobResult {
                        profit: spec_wet_profit_cents(j.price as int, w as int, time) as i64,
                        dry: false,
                    },
                ),
                (Some(d), Some(w)) => {
                    let pd = spec_dry_profit_cents(j.price as int, d as int, time, fuel_cost);
                    let pw = spec_wet_profit_cents(j.price as int, w as int, time);
                    if pd == 0 && pw == 0 {
                        None
                    } else if pd > pw {
                        Some(JobResult { profit: pd as i64, dry: true })
                    } else {
                        Some(JobResult { profit: pw as i64, dry: false })
                    }
                },
            }
        }
    }
}

/// Scores one job against the aircraft parked at its origin.
pub fn score_job(j: &Job, pl: &Plane, p: &AircraftParams) -> (r: Option<JobResult>)
    requires
        job_score_bounded(*j),
        plane_rates_bounded(*pl),
        params_bounded(*p),
    ensures
        r == spec_score(*j, *pl, *p),
{
    if !(pl.location == j.from_icao) {
        return None;
    }
    let dist = match j.dist {
        None => {
            return None;
        },
        Some(d) => d,
    };
    if (j.cargo && j.amount > p.max_cargo) || (!j.cargo && j.amount > p.max_pax) {
        return None;
    }
    let time: u64 = dist * 10 / p.tas_knots;
    proof {
        lemma_div_pos_is_pos((dist * 10) as int, p.tas_knots as int);
        lemma_div_nonincreasing((dist * 10) as int, p.tas_knots as int);
    }
    proof {
        assert((p.gph_centi * time) as int <= (GPH_MAX_CENTI * (10 * DIST_MAX_CENTI_NM)) as int)
            by (nonlinear_arith)
            requires
                0 <= p.gph_centi <= GPH_MAX_CENTI && 0 <= time <= 10 * DIST_MAX_CENTI_NM,
        ;
        lemma_div_pos_is_pos((p.gph_centi * time) as int, 1000);
        lemma_div_is_ordered(
            (p.gph_centi * time) as int,
            (GPH_MAX_CENTI * (10 * DIST_MAX_CENTI_NM)) as int,
            1000,
        );
    }
    let fuel: u64 = p.gph_centi * time / 1000;
    if fuel >= p.tank_centi {
        return None;
    }
    proof {
        assert((fuel * p.fuel_price_cents) as int <= ((GPH_MAX_CENTI * (10 * DIST_MAX_CENTI_NM)
            / 1000) * FUEL_PRICE_MAX_CENTS) as int) by (nonlinear_arith)
            requires
                0 <= fuel <= GPH_MAX_CENTI * (10 * DIST_MAX_CENTI_NM) / 1000 && 0
                    <= p.fuel_price_cents <= FUEL_PRICE_MAX_CENTS,
        ;
        lemma_div_pos_is_pos((fuel * p.fuel_price_cents) as int, 100);
        lemma_div_is_ordered(
            (fuel * p.fuel_price_cents) as int,
            (GPH_MAX_CENTI * (10 * DIST_MAX_CENTI_NM) / 1000 * FUEL_PRICE_MAX_CENTS) as int,
            100,
        );
    }
    let fuel_cost: u64 = fuel * p.fuel_price_cents / 100;
    match (pl.dry_rental, pl.wet_rental) {
        (None, None) => None,
        (Some(d), None) => Some(JobResult { profit: dry_profit(j.price, d, time, fuel_cost), dry: true }),
        (None, Some(w)) => Some(JobResult { profit: wet_profit(j.price, w, time), dry: false }),
        (Some(d), Some(w)) => {
            let pd = dry_profit(j.price, d, time, fuel_cost);
            let pw = wet_profit(j.price, w, time);
            if pd == 0 && pw == 0 {
                None
            } else if pd > pw {
                Some(JobResult { profit: pd, dry: true })
            } else {
                Some(JobResult { profit: pw, dry: false })
            }
        },
    }
}

/// The dry-rental profit, in cents.
fn dry_profit(price_cents: u64, dry_rate: u64, time_milli: u64, fuel_cost: u64) -> (r: i64)
    requires
        price_cents <= SCORE_PRICE_MAX_CENTS,
        dry_rate <= RATE_MAX_CENTS,
        time_milli <= 10 * DIST_MAX_CENTI_NM,
        fuel_cost <= GPH_MAX_CENTI * (10 * DIST_MAX_CENTI_NM) / 1000 * FUEL_PRICE_MAX_CENTS / 100,
    ensures
        r as int == spec_dry_profit_cents(
            price_cents as int,
            dry_rate as int,
            time_milli as int,
            fuel_cost as int,
        ),
{
    proof {
        assert((dry_rate * time_milli) as int <= (RATE_MAX_CENTS * (10 * DIST_MAX_CENTI_NM)) as int)
            by (nonlinear_arith)
            requires
                0 <= dry_rate <= RATE_MAX_CENTS && 0 <= time_milli <= 10 * DIST_MAX_CENTI_NM,
        ;
        lemma_div_pos_is_pos((dry_rate * time_milli) as int, 1000);
        lemma_div_is_ordered(
            (dry_rate * time_milli) as int,
            (RATE_MAX_CENTS * (10 * DIST_MAX_CENTI_NM)) as int,
            1000,
        );
    }
    let rent: u64 = dry_rate * time_milli / 1000;
    price_cents as i64 - rent as i64 + fuel_cost as i64
}

/// The wet-rental profit, in cents.
fn wet_profit(price_cents: u64, wet_rate: u64, time_milli: u64) -> (r: i64)
    requires
        price_cents <= SCORE_PRICE_MAX_CENTS,
        wet_rate <= RATE_MAX_CENTS,
        time_milli <= 10 * DIST_MAX_CENTI_NM,
    ensures
        r as int == spec_wet_profit_cents(price_cents as int, wet_rate as int, time_milli as int),
{
    proof {
        assert((wet_rate * time_milli) as int <= (RATE_MAX_CENTS * (10 * DIST_MAX_CENTI_NM)) as int)
            by (nonlinear_arith)
            requires
                0 <= wet_rate <= RATE_MAX_CENTS && 0 <= time_milli <= 10 * DIST_MAX_CENTI_NM,
        ;
        lemma_div_pos_is_pos((wet_rate * time_milli) as int, 1000);
        lemma_div_is_ordered(
            (wet_rate * time_milli) as int,
            (RATE_MAX_CENTS * (10 * DIST_MAX_CENTI_NM)) as int,
            1000,
        );
    }
    let rent: u64 = wet_rate * time_milli / 1000;
    price_cents as i64 - rent as i64
}

/// A range-infeasible job is never scored: when the fuel needed reaches the
/// tank size, no result is produced, whatever the rates.
pub proof fn lemma_range_infeasible(j: Job, pl: Plane, p: AircraftParams)
    requires
        j.dist is Some,
        spec_fuel_needed_centi(
            p.gph_centi as int,
            spec_flight_time_milli(j.dist->Some_0 as int, p.tas_knots as int),
        ) >= p.tank_centi as int,
    ensures
        spec_score(j, pl, p) is None,
{
}

/// The first selected aircraft parked at a given origin.
pub open spec fn spec_find_plane(planes: Seq<Plane>, from: Seq<char>) -> Option<Plane>
    decreases planes.len(),
{
    if planes.len() == 0 {
        None
    } else if planes[0].location@ == from {
        Some(planes[0])
    } else {
        spec_find_plane(planes.drop_first(), from)
    }
}

/// Scans the fleet for the aircraft parked at a job's origin.
pub fn find_plane(planes: &Vec<Plane>, from: &String) -> (r: Option<Plane>)
    ensures
        r == spec_find_plane(planes@, from@),
{
    proof {
        assert(planes@.skip(0) =~= planes@);
    }
    let mut i: usize = 0;
    while i < planes.len()
        invariant
            0 <= i <= planes@.len(),
            spec_find_plane(planes@, from@) == spec_find_plane(planes@.skip(i as int), from@),
        decreases planes@.len() - i,
    {
        proof {
            assert(planes@.skip(i as int)[0] == planes@[i as int]);
            assert(planes@.skip(i as int).drop_first() =~= planes@.skip(i as int + 1));
        }
        if planes[i].location == *from {
            return Some(planes[i].clone());
        }
        i = i + 1;
    }
    proof {
        assert(planes@.skip(planes@.len() as int) =~= Seq::<Plane>::empty());
    }
    None
}

/// Whether every job of a set is within the profit arithmetic's bounds.
pub fn jobs_within_score_bounds(jobs: &Vec<Job>) -> (r: bool)
    ensures
        r == forall|i: int| 0 <= i < jobs@.len() ==> job_score_bounded(#[trigger] jobs@[i]),
{
    let mut i: usize = 0;
    while i < jobs.len()
        invariant
            0 <= i <= jobs@.len(),
            forall|k: int| 0 <= k < i ==> job_score_bounded(#[trigger] jobs@[k]),
        decreases jobs@.len() - i,
    {
        let dist_ok = match jobs[i].dist {
            Some(d) => d <= DIST_MAX_CENTI_NM,
            None => true,
        };
        if !(jobs[i].price <= SCORE_PRICE_MAX_CENTS && dist_ok) {
            return false;
        }
        i = i + 1;
    }
    true
}

/// Whether every plane of a fleet has its rates within the profit
/// arithmetic's bounds.
pub fn planes_within_rate_bounds(planes: &Vec<Plane>) -> (r: bool)
    ensures
        r == forall|i: int| 0 <= i < planes@.len() ==> plane_rates_bounded(#[trigger] planes@[i]),
{
    let mut i: usize = 0;
    while i < planes.len()
        invariant
            0 <= i <= planes@.len(),
            forall|k: int| 0 <= k < i ==> plane_rates_bounded(#[trigger] planes@[k]),
        decreases planes@.len() - i,
    {
        let dry_ok = match planes[i].dry_rental {
            Some(d) => d <= RATE_MAX_CENTS,
            None => true,
        };
        let wet_ok = match planes[i].wet_rental {
            Some(w) => w <= RATE_MAX_CENTS,
            None => true,
        };
        if !(dry_ok && wet_ok) {
            return false;
        }
        i = i + 1;
    }
    true
}

/// A found plane is a member of the fleet it was found in.
pub proof fn lemma_find_plane_member(planes: Seq<Plane>, from: Seq<char>)
    ensures
        spec_find_plane(planes, from) matches Some(pl) ==> exists|i: int|
            0 <= i < planes.len() && #[trigger] planes[i] == pl,
    decreases planes.len(),
{
    if planes.len() > 0 {
        lemma_find_plane_member(planes.drop_first(), from);
        if planes[0].location@ == from {
        } else if spec_find_plane(planes, from) is Some {
            let pl = spec_find_plane(planes, from)->Some_0;
            let i = choose|i: int| 0 <= i < planes.drop_first().len() && #[trigger] planes.drop_first()[i] == pl;
            assert(planes[i + 1] == pl);
        }
    }
}

/// The job as it stands after profit computation: scored against the fleet
/// member at its origin, or left without a result.
pub open spec fn spec_scored_job(j: Job, planes: Seq<Plane>, p: AircraftParams) -> Job {
    Job {
        profit: match spec_find_plane(planes, j.from_icao@) {
            Some(pl) => spec_score(j, pl, p),
            None => None,
        },
        ..j
    }
}

/// Attaches a profit result to every job whose origin hosts a selected
/// aircraft and which is feasible for it.
pub fn score_jobs(jobs: &Vec<Job>, planes: &Vec<Plane>, p: &AircraftParams) -> (out: Vec<Job>)
    requires
        forall|i: int| 0 <= i < jobs@.len() ==> job_score_bounded(#[trigger] jobs@[i]),
        forall|i: int| 0 <= i < planes@.len() ==> plane_rates_bounded(#[trigger] planes@[i]),
        params_bounded(*p),
    ensures
        out@.len() == jobs@.len(),
        forall|i: int|
            0 <= i < jobs@.len() ==> out@[i] == spec_scored_job(#[trigger] jobs@[i], planes@, *p),
{
    let mut out: Vec<Job> = Vec::new();
    let mut i: usize = 0;
    while i < jobs.len()
        invariant
            0 <= i <= jobs@.len(),
            out@.len() == i,
            forall|k: int| 0 <= k < jobs@.len() ==> job_score_bounded(#[trigger] jobs@[k]),
            forall|k: int| 0 <= k < planes@.len() ==> plane_rates_bounded(#[trigger] planes@[k]),
            params_bounded(*p),
            forall|k: int|
                0 <= k < i ==> out@[k] == spec_scored_job(#[trigger] jobs@[k], planes@, *p),
        decreases jobs@.len() - i,
    {
        let pl = find_plane(planes, &jobs[i].from_icao);
        proof {
            lemma_find_plane_member(planes@, jobs@[i as int].from_icao@);
        }
        let result = match pl {
            Some(pl) => score_job(&jobs[i], &pl, p),
            None => None,
        };
        let mut j = jobs[i].clone();
        j.profit = result;
        out.push(j);
        i = i + 1;
    }
    out
}

} // verus!
