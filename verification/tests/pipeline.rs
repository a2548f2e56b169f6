use fse_best_jobs::airport::{attach_distance, job_endpoints, Airport, AirportIndex};
use fse_best_jobs::combine::{combined_legs, jobs_within_combine_bounds, with_combined_legs};
use fse_best_jobs::fleet::{select_from, FleetSelector};
use fse_best_jobs::job::{normalize_job, normalize_jobs, Job, JobResult, RawJob};
use fse_best_jobs::plane::{Plane, Rentable};
use fse_best_jobs::profit::{
    find_plane, jobs_within_score_bounds, planes_within_rate_bounds, score_job, score_jobs,
    AircraftParams,
};
use fse_best_jobs::rank::top_jobs;
use fse_best_jobs::test_rental;

fn plane(location: &str, dry: Option<u64>, wet: Option<u64>) -> Plane {
    Plane { location: location.to_string(), dry_rental: dry, wet_rental: wet }
}

fn job(from: &str, to: &str, amount: u64, cargo: bool, vip: bool, price: u64) -> Job {
    Job {
        to_icao: to.to_string(),
        from_icao: from.to_string(),
        commodity: String::new(),
        amount,
        cargo,
        dist: None,
        price,
        vip,
        profit: None,
    }
}

fn params() -> AircraftParams {
    AircraftParams {
        gph_centi: 1000,
        tas_knots: 120,
        tank_centi: 6000,
        max_pax: 4,
        max_cargo: 500,
        fuel_price_cents: 450,
    }
}

#[test]
fn rental_below_one_cent_is_absent() {
    assert_eq!(test_rental(0), None);
    assert_eq!(test_rental(1), Some(1));
    assert_eq!(test_rental(12345), Some(12345));
}

#[test]
fn rental_average_of_both_rates() {
    let p = plane("AAAA", Some(10000), Some(20000));
    assert_eq!(p.get_rental_avg(), 15000);
}

#[test]
fn rental_average_of_single_rate() {
    assert_eq!(plane("AAAA", Some(10000), None).get_rental_avg(), 10000);
    assert_eq!(plane("AAAA", None, Some(777)).get_rental_avg(), 777);
    assert_eq!(plane("AAAA", None, None).get_rental_avg(), 0);
}

#[test]
fn rental_average_rounds_down() {
    let p = plane("AAAA", Some(5), Some(10));
    assert_eq!(p.get_rental_avg(), 7);
}

#[test]
fn fleet_never_exceeds_three() {
    let listings = vec![
        plane("AAAA", Some(100), None),
        plane("BBBB", Some(200), None),
        plane("CCCC", Some(300), None),
        plane("DDDD", Some(400), None),
        plane("EEEE", Some(50), None),
    ];
    let fleet = select_from(&listings);
    assert_eq!(fleet.len(), 3);
}

#[test]
fn fleet_keeps_three_cheapest() {
    let listings = vec![
        plane("AAAA", Some(400), None),
        plane("BBBB", Some(100), None),
        plane("CCCC", Some(300), None),
        plane("DDDD", Some(200), None),
        plane("EEEE", Some(500), None),
    ];
    let fleet = select_from(&listings);
    let mut avgs: Vec<u64> = fleet.iter().map(|p| p.get_rental_avg()).collect();
    avgs.sort();
    assert_eq!(avgs, vec![100, 200, 300]);
}

#[test]
fn fleet_tie_keeps_first_seen() {
    // the fleet is full; an equally priced newcomer does not replace
    let listings = vec![
        plane("AAAA", Some(100), None),
        plane("BBBB", Some(200), None),
        plane("CCCC", Some(300), None),
        plane("DDDD", Some(300), None),
    ];
    let fleet = select_from(&listings);
    assert_eq!(fleet.len(), 3);
    assert!(fleet.iter().any(|p| p.location == "CCCC"));
    assert!(!fleet.iter().any(|p| p.location == "DDDD"));
}

#[test]
fn fleet_replaces_most_expensive() {
    let listings = vec![
        plane("AAAA", Some(100), None),
        plane("BBBB", Some(900), None),
        plane("CCCC", Some(300), None),
        plane("DDDD", Some(200), None),
    ];
    let fleet = select_from(&listings);
    assert_eq!(fleet.len(), 3);
    assert!(!fleet.iter().any(|p| p.location == "BBBB"));
    assert!(fleet.iter().any(|p| p.location == "DDDD"));
}

#[test]
fn fleet_rejects_invalid_candidates() {
    let listings = vec![
        plane("AAAA", None, None),
        plane("In Flight", Some(100), None),
        plane("BBBB", Some(250), Some(350)),
    ];
    let fleet = select_from(&listings);
    assert_eq!(fleet.len(), 1);
    assert_eq!(fleet[0].location, "BBBB");
}

#[test]
fn fleet_smaller_than_three_is_valid() {
    let listings = vec![plane("AAAA", Some(100), None)];
    let fleet = select_from(&listings);
    assert_eq!(fleet.len(), 1);
}

#[test]
fn fleet_selector_offer_by_hand() {
    let mut sel = FleetSelector::new();
    sel.offer(plane("AAAA", Some(100), None));
    sel.offer(plane("In Flight", Some(1), None));
    let fleet = sel.selected();
    assert_eq!(fleet.len(), 1);
    assert_eq!(fleet[0].location, "AAAA");
}

fn raw(from: &str, to: &str, amount: u64, cargo: bool, vip: bool, price: u64, assigned: u64) -> RawJob {
    RawJob {
        to_icao: to.to_string(),
        from_icao: from.to_string(),
        commodity: String::new(),
        amount,
        cargo,
        price,
        vip,
        assigned_aircraft: assigned,
    }
}

#[test]
fn normalize_discards_mismatched_assignment() {
    assert!(normalize_job(&raw("AAAA", "BBBB", 1, false, false, 100, 77), 5).is_none());
}

#[test]
fn normalize_keeps_unassigned_and_own() {
    let j = normalize_job(&raw("AAAA", "BBBB", 1, false, false, 100, 0), 5).unwrap();
    assert_eq!(j.from_icao, "AAAA");
    assert_eq!(j.dist, None);
    assert!(j.profit.is_none());
    assert!(normalize_job(&raw("AAAA", "BBBB", 1, false, false, 100, 5), 5).is_some());
}

#[test]
fn normalize_jobs_filters_sequence() {
    let rs = vec![
        raw("AAAA", "BBBB", 1, false, false, 100, 0),
        raw("AAAA", "BBBB", 2, false, false, 200, 9),
        raw("CCCC", "DDDD", 3, true, false, 300, 4),
    ];
    let jobs = normalize_jobs(&rs, 4);
    assert_eq!(jobs.len(), 2);
    assert_eq!(jobs[0].amount, 1);
    assert_eq!(jobs[1].amount, 3);
}

#[test]
fn combiner_merges_compatible_chain() {
    let jobs = vec![
        job("AAAA", "BBBB", 10, true, false, 100),
        job("AAAA", "BBBB", 20, true, false, 200),
        job("AAAA", "BBBB", 30, true, false, 300),
    ];
    let extra = combined_legs(&jobs);
    assert_eq!(extra.len(), 1);
    assert_eq!(extra[0].amount, 60);
    assert_eq!(extra[0].price, 600);
    assert!(!extra[0].vip);
    assert!(extra[0].cargo);
}

#[test]
fn combiner_skips_interleaved_vip() {
    // the VIP job neither merges nor interrupts the chain
    let jobs = vec![
        job("AAAA", "BBBB", 10, true, false, 100),
        job("AAAA", "BBBB", 7, true, true, 999),
        job("AAAA", "BBBB", 20, true, false, 200),
        job("AAAA", "BBBB", 30, true, false, 300),
    ];
    let all = with_combined_legs(jobs);
    assert_eq!(all.len(), 5);
    // the VIP job itself is still present, unmerged
    assert!(all.iter().any(|j| j.vip && j.amount == 7));
    // exactly one combined job, with the three non-VIP amounts summed
    let combined: Vec<&Job> = all.iter().filter(|j| j.amount == 60).collect();
    assert_eq!(combined.len(), 1);
    assert_eq!(combined[0].price, 600);
}

#[test]
fn combiner_never_merges_differing_routes() {
    let jobs = vec![
        job("AAAA", "BBBB", 10, true, false, 100),
        job("AAAA", "CCCC", 20, true, false, 200),
        job("AAAA", "BBBB", 30, false, false, 300),
    ];
    assert_eq!(combined_legs(&jobs).len(), 0);
}

#[test]
fn combiner_all_vip_yields_nothing() {
    let jobs = vec![
        job("AAAA", "BBBB", 10, true, true, 100),
        job("AAAA", "BBBB", 20, true, true, 200),
    ];
    assert_eq!(combined_legs(&jobs).len(), 0);
}

#[test]
fn combiner_two_chains_emit_separately() {
    let jobs = vec![
        job("AAAA", "BBBB", 1, true, false, 10),
        job("AAAA", "BBBB", 2, true, false, 20),
        job("CCCC", "DDDD", 4, false, false, 40),
        job("CCCC", "DDDD", 8, false, false, 80),
    ];
    let extra = combined_legs(&jobs);
    assert_eq!(extra.len(), 2);
    assert_eq!(extra[0].amount, 3);
    assert_eq!(extra[1].amount, 12);
}

#[test]
fn index_lookup_finds_requested_codes() {
    let codes = vec!["AAAA".to_string(), "BBBB".to_string()];
    let table = vec![
        Airport { icao: "ZZZZ".to_string(), lat: 1, lon: 2 },
        Airport { icao: "AAAA".to_string(), lat: 47_000_000, lon: 8_000_000 },
        Airport { icao: "AAAA".to_string(), lat: 99, lon: 99 },
    ];
    let idx = AirportIndex::build(&codes, &table);
    // the last matching row wins; unrequested and missing codes are absent
    let a = idx.lookup(&"AAAA".to_string()).unwrap();
    assert_eq!(a.lat, 99);
    assert!(idx.lookup(&"BBBB".to_string()).is_none());
    assert!(idx.lookup(&"ZZZZ".to_string()).is_none());
}

#[test]
fn endpoints_need_both_codes() {
    let codes = vec!["AAAA".to_string(), "BBBB".to_string()];
    let table = vec![
        Airport { icao: "AAAA".to_string(), lat: 1, lon: 2 },
        Airport { icao: "BBBB".to_string(), lat: 3, lon: 4 },
    ];
    let idx = AirportIndex::build(&codes, &table);
    let j1 = job("AAAA", "BBBB", 1, false, false, 10);
    let (from, to) = job_endpoints(&idx, &j1).unwrap();
    assert_eq!(from.lat, 1);
    assert_eq!(to.lat, 3);
    let j2 = job("AAAA", "CCCC", 1, false, false, 10);
    assert!(job_endpoints(&idx, &j2).is_none());
}

#[test]
fn attach_distance_sets_and_clears() {
    let mut j = job("AAAA", "BBBB", 1, false, false, 10);
    attach_distance(&mut j, Some(10000));
    assert_eq!(j.dist, Some(10000));
    attach_distance(&mut j, None);
    assert_eq!(j.dist, None);
}

#[test]
fn score_dry_rental_concrete_arithmetic() {
    // dry 100.00/hr, cruise 120 kt, burn 10 gal/hr, tank 60 gal, fuel 4.50/gal
    // job: 2 passengers, price 500.00, distance 100 nm
    // flight time 833 milli-hours, fuel 8.33 gal, fuel cost 37.48,
    // rent 83.30, profit 500.00 - 83.30 + 37.48 = 454.18
    let pl = plane("AAAA", Some(10000), None);
    let mut j = job("AAAA", "BBBB", 2, false, false, 50000);
    j.dist = Some(10000);
    let r = score_job(&j, &pl, &params()).unwrap();
    assert_eq!(r.profit, 45418);
    assert!(r.dry);
}

#[test]
fn score_wet_rental_has_no_fuel_term() {
    let pl = plane("AAAA", None, Some(10000));
    let mut j = job("AAAA", "BBBB", 2, false, false, 50000);
    j.dist = Some(10000);
    let r = score_job(&j, &pl, &params()).unwrap();
    // 500.00 - 83.30
    assert_eq!(r.profit, 41670);
    assert!(!r.dry);
}

#[test]
fn score_picks_strictly_greater_profit() {
    let pl = plane("AAAA", Some(10000), Some(10000));
    let mut j = job("AAAA", "BBBB", 2, false, false, 50000);
    j.dist = Some(10000);
    let r = score_job(&j, &pl, &params()).unwrap();
    // the dry computation adds the fuel cost back, so it wins here
    assert_eq!(r.profit, 45418);
    assert!(r.dry);
}

#[test]
fn score_tie_uses_wet_rate() {
    // no fuel burned: both computations give the same non-zero profit
    let mut p = params();
    p.gph_centi = 0;
    let pl = plane("AAAA", Some(10000), Some(10000));
    let mut j = job("AAAA", "BBBB", 2, false, false, 50000);
    j.dist = Some(10000);
    let r = score_job(&j, &pl, &p).unwrap();
    assert_eq!(r.profit, 50000 - 8330);
    assert!(!r.dry);
}

#[test]
fn score_zero_under_both_gives_no_result() {
    // no fuel burned, price exactly equal to both rents
    let mut p = params();
    p.gph_centi = 0;
    p.tas_knots = 100;
    let pl = plane("AAAA", Some(5000), Some(5000));
    let mut j = job("AAAA", "BBBB", 2, false, false, 5000);
    j.dist = Some(10000);  // 1000 milli-hours: rent is the rate itself
    assert_eq!(score_job(&j, &pl, &p), None);
}

#[test]
fn score_zero_with_single_rate_still_a_result() {
    // a lone rate whose computed profit is exactly zero still scores: only
    // zero under both computations withholds a result
    let mut p = params();
    p.gph_centi = 0;
    p.tas_knots = 100;
    let mut j = job("AAAA", "BBBB", 2, false, false, 5000);
    j.dist = Some(10000);
    let dry_only = plane("AAAA", Some(5000), None);
    assert_eq!(
        score_job(&j, &dry_only, &p),
        Some(JobResult { profit: 0, dry: true })
    );
    let wet_only = plane("AAAA", None, Some(5000));
    assert_eq!(
        score_job(&j, &wet_only, &p),
        Some(JobResult { profit: 0, dry: false })
    );
}

#[test]
fn score_range_infeasible_gives_no_result() {
    // 1000 nm at 120 kt burns 83.33 gal, past the 60 gal tank
    let pl = plane("AAAA", Some(10000), None);
    let mut j = job("AAAA", "BBBB", 2, false, false, 50000);
    j.dist = Some(100000);
    assert_eq!(score_job(&j, &pl, &params()), None);
}

#[test]
fn score_requires_location_match_distance_and_capacity() {
    let pl = plane("AAAA", Some(10000), None);
    let mut away = job("CCCC", "BBBB", 2, false, false, 50000);
    away.dist = Some(10000);
    assert_eq!(score_job(&away, &pl, &params()), None);

    let no_dist = job("AAAA", "BBBB", 2, false, false, 50000);
    assert_eq!(score_job(&no_dist, &pl, &params()), None);

    let mut crowded = job("AAAA", "BBBB", 5, false, false, 50000);
    crowded.dist = Some(10000);
    assert_eq!(score_job(&crowded, &pl, &params()), None);

    let mut heavy = job("AAAA", "BBBB", 501, true, false, 50000);
    heavy.dist = Some(10000);
    assert_eq!(score_job(&heavy, &pl, &params()), None);

    let mut full_cargo = job("AAAA", "BBBB", 500, true, false, 50000);
    full_cargo.dist = Some(10000);
    assert!(score_job(&full_cargo, &pl, &params()).is_some());
}

#[test]
fn find_plane_matches_first_at_origin() {
    let planes = vec![plane("AAAA", Some(1), None), plane("BBBB", Some(2), None)];
    let found = find_plane(&planes, &"BBBB".to_string()).unwrap();
    assert_eq!(found.dry_rental, Some(2));
    assert!(find_plane(&planes, &"CCCC".to_string()).is_none());
}

#[test]
fn score_jobs_scores_against_origin_plane_only() {
    let planes = vec![plane("AAAA", Some(10000), None)];
    let mut j1 = job("AAAA", "BBBB", 2, false, false, 50000);
    j1.dist = Some(10000);
    let mut j2 = job("CCCC", "BBBB", 2, false, false, 50000);
    j2.dist = Some(10000);
    let scored = score_jobs(&vec![j1, j2], &planes, &params());
    assert_eq!(scored.len(), 2);
    assert_eq!(scored[0].profit, Some(JobResult { profit: 45418, dry: true }));
    assert_eq!(scored[1].profit, None);
}

fn scored_job(from: &str, profit: i64) -> Job {
    let mut j = job(from, "BBBB", 1, false, false, 100);
    j.profit = Some(JobResult { profit, dry: true });
    j
}

#[test]
fn ranking_returns_three_of_five_descending() {
    let jobs = vec![
        scored_job("AAAA", 300),
        scored_job("AAAA", 100),
        scored_job("AAAA", 500),
        scored_job("AAAA", 200),
        scored_job("AAAA", 400),
    ];
    let top = top_jobs(&jobs);
    assert_eq!(top.len(), 3);
    let profits: Vec<i64> = top.iter().map(|j| j.profit.as_ref().unwrap().profit).collect();
    assert_eq!(profits, vec![500, 400, 300]);
}

#[test]
fn ranking_returns_fewer_when_fewer_scored() {
    let mut unscored = job("AAAA", "BBBB", 1, false, false, 100);
    unscored.profit = None;
    let jobs = vec![scored_job("AAAA", 10), unscored, scored_job("AAAA", 20)];
    let top = top_jobs(&jobs);
    assert_eq!(top.len(), 2);
    let profits: Vec<i64> = top.iter().map(|j| j.profit.as_ref().unwrap().profit).collect();
    assert_eq!(profits, vec![20, 10]);
}

#[test]
fn ranking_tie_keeps_input_order() {
    let jobs = vec![
        scored_job("TIE1", 100),
        scored_job("TIE2", 100),
        scored_job("TIE3", 100),
        scored_job("TIE4", 100),
    ];
    let top = top_jobs(&jobs);
    assert_eq!(top.len(), 3);
    assert_eq!(top[0].from_icao, "TIE1");
    assert_eq!(top[1].from_icao, "TIE2");
    assert_eq!(top[2].from_icao, "TIE3");
}

#[test]
fn job_new_is_blank() {
    let j = Job::new();
    assert_eq!(j.from_icao, "");
    assert_eq!(j.to_icao, "");
    assert_eq!(j.amount, 0);
    assert_eq!(j.price, 0);
    assert_eq!(j.dist, None);
    assert!(!j.cargo && !j.vip);
    assert!(j.profit.is_none());
}

#[test]
fn bound_checks_accept_and_reject() {
    let ok = vec![job("AAAA", "BBBB", 10, true, false, 100)];
    assert!(jobs_within_combine_bounds(&ok));
    assert!(jobs_within_score_bounds(&ok));
    let heavy = vec![job("AAAA", "BBBB", 2_000_000_000, true, false, 100)];
    assert!(!jobs_within_combine_bounds(&heavy));
    let mut far = job("AAAA", "BBBB", 1, true, false, 100);
    far.dist = Some(200_000_000);
    assert!(!jobs_within_score_bounds(&vec![far]));
    assert!(planes_within_rate_bounds(&vec![plane("AAAA", Some(100), None)]));
    assert!(!planes_within_rate_bounds(&vec![plane("AAAA", Some(200_000_000), None)]));
}

#[test]
fn end_to_end_pipeline_on_one_route() {
    // three listings, one invalid; five jobs with one VIP interleaved
    let listings = vec![
        plane("AAAA", Some(10000), None),
        plane("In Flight", Some(1000), None),
        plane("CCCC", Some(20000), None),
    ];
    let fleet = select_from(&listings);
    assert_eq!(fleet.len(), 2);

    let raws = vec![
        raw("AAAA", "BBBB", 10, true, false, 10000, 0),
        raw("AAAA", "BBBB", 9, true, true, 90000, 0),
        raw("AAAA", "BBBB", 20, true, false, 20000, 0),
        raw("AAAA", "BBBB", 30, true, false, 30000, 0),
        raw("AAAA", "BBBB", 99, true, false, 99000, 123),
    ];
    let mut jobs = normalize_jobs(&raws, 0);
    assert_eq!(jobs.len(), 4);

    let codes = vec!["AAAA".to_string(), "BBBB".to_string()];
    let table = vec![
        Airport { icao: "AAAA".to_string(), lat: 1, lon: 2 },
        Airport { icao: "BBBB".to_string(), lat: 3, lon: 4 },
    ];
    let idx = AirportIndex::build(&codes, &table);
    for j in jobs.iter_mut() {
        let d = if job_endpoints(&idx, j).is_some() { Some(10000) } else { None };
        attach_distance(j, d);
    }

    let all = with_combined_legs(jobs);
    assert_eq!(all.len(), 5);
    let combined: Vec<&Job> = all.iter().filter(|j| j.amount == 60).collect();
    assert_eq!(combined.len(), 1);
    assert_eq!(combined[0].price, 60000);
    assert!(all.iter().any(|j| j.vip && j.amount == 9));

    let scored = score_jobs(&all, &fleet, &params());
    let top = top_jobs(&scored);
    assert_eq!(top.len(), 3);
    // the VIP job pays most, then the combined job, then the 30-unit job
    assert_eq!(top[0].amount, 9);
    assert_eq!(top[1].amount, 60);
    assert_eq!(top[2].amount, 30);
    let profits: Vec<i64> = top.iter().map(|j| j.profit.as_ref().unwrap().profit).collect();
    assert!(profits[0] >= profits[1] && profits[1] >= profits[2]);
}
