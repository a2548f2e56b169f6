//! Combines runs of compatible, non-VIP jobs on one route into aggregated
//! shipments. The original jobs remain in the job set; each combined job is
//! an additional entry.

use vstd::prelude::*;

use crate::job::Job;
use crate::limits::{AMOUNT_MAX, MAX_JOBS, PRICE_MAX_CENTS};

verus! {

/// Two jobs may be folded together: same origin, same destination, and both
/// cargo or both passenger.
pub open spec fn spec_compatible(a: Job, b: Job) -> bool {
    a.from_icao@ == b.from_icao@ && a.to_icao@ == b.to_icao@ && a.cargo == b.cargo
}

/// The job that stands for `a` and `b` flown as one shipment: amounts and
/// prices sum, route and distance carry over, and the result is never VIP.
pub open spec fn spec_merge(a: Job, b: Job) -> Job {
    Job {
        from_icao: b.from_icao,
        to_icao: b.to_icao,
        commodity: b.commodity,
        amount: (a.amount + b.amount) as u64,
        cargo: b.cargo,
        dist: b.dist,
        price: (a.price + b.price) as u64,
        vip: false,
        profit: None,
    }
}

/// The combiner's walk state: the open accumulator, whether it has absorbed
/// at least one fold, and the combined jobs emitted so far.
pub struct CombState {
    pub acc: Option<Job>,
    pub folded: bool,
    pub out: Seq<Job>,
}

/// How one job moves the walk forward. A VIP job is passed over: it is
/// never folded and never seeds a chain. An incompatible job closes the
/// open chain, emitting its accumulator when the chain folded at least once.
pub open spec fn comb_step(st: CombState, j: Job) -> CombState {
    if j.vip {
        st
    } else {
        match st.acc {
            None => CombState { acc: Some(j), folded: false, out: st.out },
            Some(a) => {
                if spec_compatible(a, j) {
                    CombState { acc: Some(spec_merge(a, j)), folded: true, out: st.out }
                } else {
                    CombState {
                        acc: Some(j),
                        folded: false,
                        out: if st.folded {
                            st.out.push(a)
                        } else {
                            st.out
                        },
                    }
                }
            },
        }
    }
}

pub open spec fn comb_fold(jobs: Seq<Job>) -> CombState
    decreases jobs.len(),
{
    if jobs.len() == 0 {
        CombState { acc: None, folded: false, out: Seq::empty() }
    } else {
        comb_step(comb_fold(jobs.drop_last()), jobs.last())
    }
}

/// The combined jobs a sequence gives rise to, in order of chain closure;
/// a chain still open at the end of the walk is closed and emitted.
pub open spec fn spec_combined_legs(jobs: Seq<Job>) -> Seq<Job> {
    let st = comb_fold(jobs);
    if st.folded {
        match st.acc {
            Some(a) => st.out.push(a),
            None => st.out,
        }
    } else {
        st.out
    }
}

/// A job within the bounds of the integer model.
pub open spec fn job_bounded(j: Job) -> bool {
    j.amount <= AMOUNT_MAX && j.price <= PRICE_MAX_CENTS
}

/// Whether a job set is small enough, and each job bounded enough, for the
/// combiner's sums.
pub fn jobs_within_combine_bounds(jobs: &Vec<Job>) -> (r: bool)
    ensures
        r == (jobs@.len() <= MAX_JOBS && forall|i: int|
            0 <= i < jobs@.len() ==> job_bounded(#[trigger] jobs@[i])),
{
    if jobs.len() > MAX_JOBS {
        return false;
    }
    let mut i: usize = 0;
    while i < jobs.len()
        invariant
            0 <= i <= jobs@.len(),
            forall|k: int| 0 <= k < i ==> job_bounded(#[trigger] jobs@[k]),
        decreases jobs@.len() - i,
    {
        if !(jobs[i].amount <= AMOUNT_MAX && jobs[i].price <= PRICE_MAX_CENTS) {
            return false;
        }
        i = i + 1;
    }
    true
}

/// Bounds carried by the walk: everything the combiner holds is a sum of at
/// most `n` bounded jobs.
proof fn lemma_comb_fold_bounded(jobs: Seq<Job>)
    requires
        forall|i: int| 0 <= i < jobs.len() ==> job_bounded(#[trigger] jobs[i]),
    ensures
        comb_fold(jobs).acc matches Some(a) ==> a.amount <= jobs.len() * AMOUNT_MAX && a.price
            <= jobs.len() * PRICE_MAX_CENTS,
        comb_fold(jobs).folded ==> comb_fold(jobs).acc is Some,
        comb_fold(jobs).acc is None ==> !comb_fold(jobs).folded,
    decreases jobs.len(),
{
    if jobs.len() > 0 {
        assert(forall|i: int|
            0 <= i < jobs.drop_last().len() ==> job_bounded(#[trigger] jobs.drop_last()[i]));
        lemma_comb_fold_bounded(jobs.drop_last());
        assert(jobs.last() == jobs[jobs.len() - 1]);
        assert((jobs.len() - 1) * AMOUNT_MAX + AMOUNT_MAX == jobs.len() * AMOUNT_MAX)
            by (nonlinear_arith);
        assert((jobs.len() - 1) * PRICE_MAX_CENTS + PRICE_MAX_CENTS == jobs.len()
            * PRICE_MAX_CENTS) by (nonlinear_arith);
        assert(jobs.len() * AMOUNT_MAX >= (jobs.len() - 1) * AMOUNT_MAX) by (nonlinear_arith);
        assert(jobs.len() * PRICE_MAX_CENTS >= (jobs.len() - 1) * PRICE_MAX_CENTS)
            by (nonlinear_arith);
    }
}

/// A distance within the integer model's bounds, or none.
pub open spec fn dist_bounded(j: Job) -> bool {
    j.dist matches Some(d) ==> d <= crate::limits::DIST_MAX_CENTI_NM
}

/// Everything the walk holds or emits keeps its price and amount under the
/// sum bounds, and its distance, copied from some input, under the distance
/// bound.
proof fn lemma_comb_fold_score(jobs: Seq<Job>)
    requires
        jobs.len() <= MAX_JOBS,
        forall|i: int| 0 <= i < jobs.len() ==> job_bounded(#[trigger] jobs[i]),
        forall|i: int| 0 <= i < jobs.len() ==> dist_bounded(#[trigger] jobs[i]),
    ensures
        comb_fold(jobs).acc matches Some(a) ==> a.price <= jobs.len() * PRICE_MAX_CENTS
            && dist_bounded(a),
        forall|k: int|
            0 <= k < comb_fold(jobs).out.len() ==> (#[trigger] comb_fold(jobs).out[k]).price
                <= MAX_JOBS * PRICE_MAX_CENTS && dist_bounded(comb_fold(jobs).out[k]),
    decreases jobs.len(),
{
    if jobs.len() > 0 {
        let prefix = jobs.drop_last();
        assert(forall|i: int| 0 <= i < prefix.len() ==> prefix[i] == jobs[i]);
        lemma_comb_fold_score(prefix);
        assert(jobs.last() == jobs[jobs.len() - 1]);
        assert((jobs.len() - 1) * PRICE_MAX_CENTS + PRICE_MAX_CENTS == jobs.len()
            * PRICE_MAX_CENTS) by (nonlinear_arith);
        assert(jobs.len() * PRICE_MAX_CENTS >= (jobs.len() - 1) * PRICE_MAX_CENTS)
            by (nonlinear_arith);
        assert(jobs.len() * PRICE_MAX_CENTS <= MAX_JOBS * PRICE_MAX_CENTS) by (nonlinear_arith)
            requires
                0 <= jobs.len() <= MAX_JOBS,
        ;
    }
}

/// Every combined leg of a bounded job set stays within the bounds the
/// profit calculator accepts: its price is a sum of at most `MAX_JOBS`
/// bounded prices, and its distance is copied from an input job.
pub proof fn lemma_combined_score_bounded(jobs: Seq<Job>, k: int)
    requires
        jobs.len() <= MAX_JOBS,
        forall|i: int| 0 <= i < jobs.len() ==> job_bounded(#[trigger] jobs[i]),
        forall|i: int| 0 <= i < jobs.len() ==> dist_bounded(#[trigger] jobs[i]),
        0 <= k < spec_combined_legs(jobs).len(),
    ensures
        crate::profit::job_score_bounded(spec_combined_legs(jobs)[k]),
{
    lemma_comb_fold_score(jobs);
    assert(jobs.len() * PRICE_MAX_CENTS <= MAX_JOBS * PRICE_MAX_CENTS) by (nonlinear_arith)
        requires
            0 <= jobs.len() <= MAX_JOBS,
    ;
    assert(MAX_JOBS * PRICE_MAX_CENTS <= crate::limits::SCORE_PRICE_MAX_CENTS);
}

/// How many non-VIP jobs a sequence holds.
pub open spec fn count_nonvip(s: Seq<Job>) -> int
    decreases s.len(),
{
    if s.len() == 0 {
        0
    } else {
        count_nonvip(s.drop_last()) + (if s.last().vip {
            0int
        } else {
            1int
        })
    }
}

/// Sum of the amounts of the non-VIP jobs of a sequence.
pub open spec fn sum_amounts_nonvip(s: Seq<Job>) -> int
    decreases s.len(),
{
    if s.len() == 0 {
        0
    } else {
        sum_amounts_nonvip(s.drop_last()) + (if s.last().vip {
            0int
        } else {
            s.last().amount as int
        })
    }
}

/// Sum of the prices of the non-VIP jobs of a sequence.
pub open spec fn sum_prices_nonvip(s: Seq<Job>) -> int
    decreases s.len(),
{
    if s.len() == 0 {
        0
    } else {
        sum_prices_nonvip(s.drop_last()) + (if s.last().vip {
            0int
        } else {
            s.last().price as int
        })
    }
}

/// Everything the walk holds or has emitted is non-VIP, and shares its route
/// with some non-VIP input job.
proof fn lemma_comb_fold_shape(jobs: Seq<Job>)
    ensures
        comb_fold(jobs).acc matches Some(a) ==> !a.vip && exists|i: int|
            0 <= i < jobs.len() && !(#[trigger] jobs[i]).vip && spec_compatible(jobs[i], a),
        forall|k: int|
            0 <= k < comb_fold(jobs).out.len() ==> !(#[trigger] comb_fold(jobs).out[k]).vip
                && exists|i: int|
                0 <= i < jobs.len() && !(#[trigger] jobs[i]).vip && spec_compatible(
                    jobs[i],
                    comb_fold(jobs).out[k],
                ),
    decreases jobs.len(),
{
    if jobs.len() > 0 {
        lemma_comb_fold_shape(jobs.drop_last());
        let st0 = comb_fold(jobs.drop_last());
        let j = jobs.last();
        assert(jobs[jobs.len() - 1] == j);
        assert forall|i: int|
            0 <= i < jobs.drop_last().len() implies jobs.drop_last()[i] == jobs[i] by {}
        if !j.vip {
            match st0.acc {
                None => {
                    assert(spec_compatible(j, j));
                },
                Some(a) => {
                    if spec_compatible(a, j) {
                        assert(spec_compatible(j, spec_merge(a, j)));
                    } else {
                        assert(spec_compatible(j, j));
                    }
                },
            }
        }
    }
}

/// No combined job is VIP: a VIP job is never merged and never seeds a
/// chain.
pub proof fn lemma_combined_not_vip(jobs: Seq<Job>, k: int)
    requires
        0 <= k < spec_combined_legs(jobs).len(),
    ensures
        !spec_combined_legs(jobs)[k].vip,
{
    lemma_comb_fold_shape(jobs);
}

/// Every combined job shares its origin, destination and cargo flag with a
/// non-VIP input job: jobs with differing routes are never merged together.
pub proof fn lemma_combined_route(jobs: Seq<Job>, k: int)
    requires
        0 <= k < spec_combined_legs(jobs).len(),
    ensures
        exists|i: int|
            0 <= i < jobs.len() && !(#[trigger] jobs[i]).vip && spec_compatible(
                jobs[i],
                spec_combined_legs(jobs)[k],
            ),
{
    lemma_comb_fold_shape(jobs);
    let st = comb_fold(jobs);
    if st.folded && st.acc is Some && k == st.out.len() {
        let a = st.acc->Some_0;
        assert(spec_combined_legs(jobs)[k] == a);
        let i = choose|i: int|
            0 <= i < jobs.len() && !(#[trigger] jobs[i]).vip && spec_compatible(jobs[i], a);
        assert(0 <= i < jobs.len() && !jobs[i].vip && spec_compatible(
            jobs[i],
            spec_combined_legs(jobs)[k],
        ));
    } else {
        assert(spec_combined_legs(jobs)[k] == st.out[k]);
    }
}

/// A chain of compatible jobs on one route combines into exactly one job
/// whose amount and price are the sums over the chain's non-VIP members;
/// with fewer than two non-VIP members nothing is combined. VIP jobs may
/// stand anywhere in the sequence: they contribute nothing.
pub proof fn lemma_route_chain(jobs: Seq<Job>)
    requires
        jobs.len() <= MAX_JOBS,
        forall|i: int| 0 <= i < jobs.len() ==> job_bounded(#[trigger] jobs[i]),
        forall|i: int, j: int|
            0 <= i < jobs.len() && 0 <= j < jobs.len() ==> spec_compatible(
                #[trigger] jobs[i],
                #[trigger] jobs[j],
            ),
    ensures
        count_nonvip(jobs) >= 2 ==> spec_combined_legs(jobs).len() == 1 && spec_combined_legs(
            jobs,
        )[0].amount == sum_amounts_nonvip(jobs) && spec_combined_legs(jobs)[0].price
            == sum_prices_nonvip(jobs) && !spec_combined_legs(jobs)[0].vip,
        count_nonvip(jobs) < 2 ==> spec_combined_legs(jobs).len() == 0,
{
    assert(Seq::<Job>::empty() + jobs =~= jobs);
    lemma_fold_append(Seq::<Job>::empty(), jobs);
    lemma_run_segment(comb_fold(Seq::<Job>::empty()), jobs);
}

/// Walks a sequence onward from a given state.
pub open spec fn comb_fold_from(st: CombState, jobs: Seq<Job>) -> CombState
    decreases jobs.len(),
{
    if jobs.len() == 0 {
        st
    } else {
        comb_step(comb_fold_from(st, jobs.drop_last()), jobs.last())
    }
}

/// The walk over a concatenation continues the walk over its first part.
proof fn lemma_fold_append(a: Seq<Job>, b: Seq<Job>)
    ensures
        comb_fold(a + b) == comb_fold_from(comb_fold(a), b),
    decreases b.len(),
{
    if b.len() == 0 {
        assert(a + b =~= a);
    } else {
        lemma_fold_append(a, b.drop_last());
        assert((a + b).drop_last() =~= a + b.drop_last());
        assert((a + b).last() == b.last());
    }
}

/// Reaching a run that the open chain does not match closes that chain and
/// accumulates the run: afterwards the accumulator carries the run's sums.
proof fn lemma_run_segment(st0: CombState, m: Seq<Job>)
    requires
        m.len() <= MAX_JOBS,
        forall|i: int| 0 <= i < m.len() ==> job_bounded(#[trigger] m[i]),
        forall|i: int, j: int|
            0 <= i < m.len() && 0 <= j < m.len() ==> spec_compatible(
                #[trigger] m[i],
                #[trigger] m[j],
            ),
        st0.folded ==> st0.acc is Some,
        st0.acc matches Some(a) ==> (m.len() > 0 ==> !spec_compatible(a, m[0])),
    ensures
        count_nonvip(m) == 0 ==> comb_fold_from(st0, m) == st0,
        count_nonvip(m) >= 1 ==> comb_fold_from(st0, m).out == (if st0.folded {
            st0.out.push(st0.acc->Some_0)
        } else {
            st0.out
        }),
        count_nonvip(m) >= 1 ==> (comb_fold_from(st0, m).acc matches Some(a) && !a.vip
            && a.amount == sum_amounts_nonvip(m) && a.price == sum_prices_nonvip(m)
            && spec_compatible(a, m[0])),
        count_nonvip(m) >= 1 ==> (comb_fold_from(st0, m).folded <==> count_nonvip(m) >= 2),
        count_nonvip(m) >= 0,
        count_nonvip(m) == 0 ==> sum_amounts_nonvip(m) == 0 && sum_prices_nonvip(m) == 0,
        sum_amounts_nonvip(m) <= m.len() * AMOUNT_MAX,
        sum_prices_nonvip(m) <= m.len() * PRICE_MAX_CENTS,
        sum_amounts_nonvip(m) >= 0,
        sum_prices_nonvip(m) >= 0,
    decreases m.len(),
{
    if m.len() == 0 {
    } else {
        let prefix = m.drop_last();
        assert(forall|i: int| 0 <= i < prefix.len() ==> prefix[i] == m[i]);
        lemma_run_segment(st0, prefix);
        let j = m.last();
        assert(j == m[m.len() - 1]);
        assert((m.len() - 1) * AMOUNT_MAX + AMOUNT_MAX == m.len() * AMOUNT_MAX)
            by (nonlinear_arith);
        assert((m.len() - 1) * PRICE_MAX_CENTS + PRICE_MAX_CENTS == m.len() * PRICE_MAX_CENTS)
            by (nonlinear_arith);
        assert(m.len() * AMOUNT_MAX >= (m.len() - 1) * AMOUNT_MAX) by (nonlinear_arith);
        assert(m.len() * PRICE_MAX_CENTS >= (m.len() - 1) * PRICE_MAX_CENTS)
            by (nonlinear_arith);
        assert(m.len() * AMOUNT_MAX <= MAX_JOBS * AMOUNT_MAX) by (nonlinear_arith)
            requires
                0 <= m.len() <= MAX_JOBS,
        ;
        assert(m.len() * PRICE_MAX_CENTS <= MAX_JOBS * PRICE_MAX_CENTS) by (nonlinear_arith)
            requires
                0 <= m.len() <= MAX_JOBS,
        ;
        let st1 = comb_fold_from(st0, prefix);
        if !j.vip {
            if count_nonvip(prefix) >= 1 {
                let a = st1.acc->Some_0;
                assert(prefix[0] == m[0]);
                assert(spec_compatible(a, prefix[0]));
                assert(spec_compatible(m[0], j));
                assert(spec_compatible(a, j));
                assert(comb_fold_from(st0, m).acc == Some(spec_merge(a, j)));
            } else {
                assert(st1 == st0);
                assert(sum_amounts_nonvip(prefix) == 0);
                match st0.acc {
                    Some(a) => {
                        assert(!spec_compatible(a, m[0]));
                        assert(spec_compatible(j, m[0]));
                        assert(!spec_compatible(a, j));
                        assert(comb_fold_from(st0, m).acc == Some(j));
                    },
                    None => {
                        assert(comb_fold_from(st0, m).acc == Some(j));
                    },
                }
                assert(spec_compatible(j, m[0]));
            }
        } else {
            assert(comb_fold_from(st0, m) == st1);
            assert(count_nonvip(m) == count_nonvip(prefix));
            assert(sum_amounts_nonvip(m) == sum_amounts_nonvip(prefix));
            assert(sum_prices_nonvip(m) == sum_prices_nonvip(prefix));
        }
    }
}

/// After the run, jobs that do not match the closed chain push it out
/// unchanged: it stands in the output once, and nothing emitted after it
/// matches it.
proof fn lemma_tail_segment(st0: CombState, b: Seq<Job>)
    requires
        st0.folded,
        st0.acc is Some,
        forall|i: int|
            0 <= i < b.len() ==> (!(#[trigger] b[i]).vip ==> !spec_compatible(
                b[i],
                st0.acc->Some_0,
            )),
    ensures
        count_nonvip(b) >= 0,
        count_nonvip(b) == 0 ==> comb_fold_from(st0, b) == st0,
        count_nonvip(b) >= 1 ==> comb_fold_from(st0, b).acc is Some,
        count_nonvip(b) >= 1 ==> comb_fold_from(st0, b).out.len() > st0.out.len(),
        count_nonvip(b) >= 1 ==> comb_fold_from(st0, b).out.take(st0.out.len() as int)
            == st0.out,
        count_nonvip(b) >= 1 ==> comb_fold_from(st0, b).out[st0.out.len() as int]
            == st0.acc->Some_0,
        count_nonvip(b) >= 1 ==> forall|k: int|
            st0.out.len() < k < comb_fold_from(st0, b).out.len() ==> !spec_compatible(
                #[trigger] comb_fold_from(st0, b).out[k],
                st0.acc->Some_0,
            ),
        count_nonvip(b) >= 1 ==> (comb_fold_from(st0, b).acc matches Some(x)
            ==> !spec_compatible(x, st0.acc->Some_0)),
        count_nonvip(b) >= 1 ==> (comb_fold_from(st0, b).folded ==> comb_fold_from(
            st0,
            b,
        ).acc is Some),
    decreases b.len(),
{
    if b.len() == 0 {
    } else {
        let prefix = b.drop_last();
        assert(forall|i: int| 0 <= i < prefix.len() ==> prefix[i] == b[i]);
        lemma_tail_segment(st0, prefix);
        let j = b.last();
        assert(j == b[b.len() - 1]);
        let st1 = comb_fold_from(st0, prefix);
        let a0 = st0.acc->Some_0;
        if !j.vip {
            assert(!spec_compatible(j, a0));
            if count_nonvip(prefix) == 0 {
                assert(st1 == st0);
                assert(!spec_compatible(a0, j));
                assert(comb_fold_from(st0, b).out =~= st0.out.push(a0));
                assert(st0.out.push(a0).take(st0.out.len() as int) =~= st0.out);
            } else {
                let x = st1.acc->Some_0;
                if spec_compatible(x, j) {
                    assert(comb_fold_from(st0, b).acc == Some(spec_merge(x, j)));
                    assert(spec_compatible(spec_merge(x, j), j));
                    assert(!spec_compatible(spec_merge(x, j), a0));
                } else {
                    assert(comb_fold_from(st0, b).acc == Some(j));
                    if st1.folded {
                        assert(comb_fold_from(st0, b).out == st1.out.push(x));
                        assert(st1.out.push(x).take(st0.out.len() as int) =~= st1.out.take(
                            st0.out.len() as int,
                        ));
                    }
                }
            }
        } else {
            assert(comb_fold_from(st0, b) == st1);
            assert(count_nonvip(b) == count_nonvip(prefix));
        }
    }
}

/// A run of jobs on one route, embedded anywhere in the sequence, combines
/// into exactly one job in the output: its amount and price are the sums
/// over the run's non-VIP members, and no other combined job shares the
/// run's route. The run may hold VIP jobs; they contribute nothing. Jobs
/// outside the run must not share the run's route unless they are VIP.
#[verifier::rlimit(60)]
pub proof fn lemma_embedded_run(jobs: Seq<Job>, lo: int, hi: int)
    requires
        jobs.len() <= MAX_JOBS,
        forall|i: int| 0 <= i < jobs.len() ==> job_bounded(#[trigger] jobs[i]),
        0 <= lo < hi <= jobs.len(),
        forall|i: int, j: int|
            lo <= i < hi && lo <= j < hi ==> spec_compatible(#[trigger] jobs[i], #[trigger] jobs[j]),
        count_nonvip(jobs.subrange(lo, hi)) >= 2,
        forall|i: int|
            (0 <= i < lo || hi <= i < jobs.len()) ==> (!(#[trigger] jobs[i]).vip
                ==> !spec_compatible(jobs[i], jobs[lo])),
    ensures
        exists|k: int|
            0 <= k < spec_combined_legs(jobs).len() && spec_compatible(
                #[trigger] spec_combined_legs(jobs)[k],
                jobs[lo],
            ) && spec_combined_legs(jobs)[k].amount == sum_amounts_nonvip(jobs.subrange(lo, hi))
                && spec_combined_legs(jobs)[k].price == sum_prices_nonvip(jobs.subrange(lo, hi))
                && !spec_combined_legs(jobs)[k].vip && (forall|k2: int|
                0 <= k2 < spec_combined_legs(jobs).len() && k2 != k ==> !spec_compatible(
                    #[trigger] spec_combined_legs(jobs)[k2],
                    jobs[lo],
                )),
{
    let a = jobs.subrange(0, lo);
    let m = jobs.subrange(lo, hi);
    let b = jobs.subrange(hi, jobs.len() as int);
    assert(jobs =~= a + m + b);
    assert(m[0] == jobs[lo]);
    lemma_fold_append(a + m, b);
    lemma_fold_append(a, m);
    assert(comb_fold(a + m + b) == comb_fold_from(comb_fold_from(comb_fold(a), m), b)) by {
        assert((a + m) + b =~= a + m + b);
    }
    let st_a = comb_fold(a);
    lemma_comb_fold_shape(a);
    lemma_comb_fold_bounded(a);
    assert(forall|i: int| 0 <= i < a.len() ==> a[i] == jobs[i]);
    // whatever chain is open after the prefix does not match the run
    assert(st_a.acc matches Some(x) ==> !spec_compatible(x, m[0])) by {
        if st_a.acc is Some {
            let x = st_a.acc->Some_0;
            let i = choose|i: int| 0 <= i < a.len() && !(#[trigger] a[i]).vip && spec_compatible(a[i], x);
            assert(!spec_compatible(jobs[i], jobs[lo]));
        }
    }
    let st_m = comb_fold_from(st_a, m);
    assert(forall|i: int| 0 <= i < m.len() ==> m[i] == jobs[lo + i]);
    lemma_run_segment(st_a, m);
    let run_job = st_m.acc->Some_0;
    assert(spec_compatible(run_job, jobs[lo]));
    // nothing after the run matches the combined run job
    assert(forall|i: int| 0 <= i < b.len() ==> b[i] == jobs[hi + i]);
    assert forall|i: int|
        0 <= i < b.len() implies (!(#[trigger] b[i]).vip ==> !spec_compatible(
        b[i],
        run_job,
    )) by {
        if !b[i].vip {
            assert(!spec_compatible(jobs[hi + i], jobs[lo]));
        }
    }
    lemma_tail_segment(st_m, b);
    let st_b = comb_fold_from(st_m, b);
    let out = spec_combined_legs(jobs);
    // nothing emitted before the run matches it either
    assert forall|k: int|
        0 <= k < st_m.out.len() implies !spec_compatible(#[trigger] st_m.out[k], jobs[lo]) by {
        if k < st_a.out.len() {
            assert(st_m.out[k] == st_a.out[k]);
            let i = choose|i: int|
                0 <= i < a.len() && !(#[trigger] a[i]).vip && spec_compatible(a[i], st_a.out[k]);
            assert(!spec_compatible(jobs[i], jobs[lo]));
        } else {
            assert(st_m.out[k] == st_a.acc->Some_0);
        }
    }
    if count_nonvip(b) == 0 {
        assert(st_b == st_m);
        assert(out =~= st_m.out.push(run_job));
        let k = st_m.out.len() as int;
        assert(out[k] == run_job);
        assert(forall|k2: int| 0 <= k2 < k ==> !spec_compatible(#[trigger] out[k2], jobs[lo]));
    } else {
        let k = st_m.out.len() as int;
        assert(st_b.out[k] == run_job);
        assert forall|k2: int|
            0 <= k2 < out.len() && k2 != k implies !spec_compatible(
            #[trigger] out[k2],
            jobs[lo],
        ) by {
            if k2 < st_b.out.len() {
                if k2 < k {
                    assert(st_b.out.take(k)[k2] == st_b.out[k2]);
                    assert(out[k2] == st_m.out[k2]);
                } else {
                    assert(!spec_compatible(st_b.out[k2], run_job));
                }
            } else {
                // the chain still open at the end of the walk
                assert(out[k2] == st_b.acc->Some_0);
                assert(!spec_compatible(st_b.acc->Some_0, run_job));
            }
        }
        assert(0 <= k < out.len() && out[k] == run_job);
    }
}

/// Walks the job sequence and returns the combined jobs it produces.
pub fn combined_legs(jobs: &Vec<Job>) -> (out: Vec<Job>)
    requires
        jobs@.len() <= MAX_JOBS,
        forall|i: int| 0 <= i < jobs@.len() ==> job_bounded(#[trigger] jobs@[i]),
    ensures
        out@ == spec_combined_legs(jobs@),
{
    let mut out: Vec<Job> = Vec::new();
    let mut acc: Option<Job> = None;
    let mut folded: bool = false;
    let mut i: usize = 0;
    while i < jobs.len()
        invariant
            0 <= i <= jobs@.len(),
            jobs@.len() <= MAX_JOBS,
            forall|k: int| 0 <= k < jobs@.len() ==> job_bounded(#[trigger] jobs@[k]),
            comb_fold(jobs@.take(i as int)) == (CombState { acc, folded, out: out@ }),
        decreases jobs@.len() - i,
    {
        proof {
            assert(jobs@.take(i as int + 1).drop_last() =~= jobs@.take(i as int));
            assert(forall|k: int|
                0 <= k < jobs@.take(i as int).len() ==> job_bounded(
                    #[trigger] jobs@.take(i as int)[k],
                ));
            lemma_comb_fold_bounded(jobs@.take(i as int));
            assert(i as int * AMOUNT_MAX <= MAX_JOBS * AMOUNT_MAX) by (nonlinear_arith)
                requires
                    0 <= i <= MAX_JOBS,
            ;
            assert(i as int * PRICE_MAX_CENTS <= MAX_JOBS * PRICE_MAX_CENTS) by (nonlinear_arith)
                requires
                    0 <= i <= MAX_JOBS,
            ;
        }
        let j = &jobs[i];
        if !j.vip {
            match acc {
                None => {
                    acc = Some(j.clone());
                    folded = false;
                },
                Some(a) => {
                    if a.from_icao == j.from_icao && a.to_icao == j.to_icao && a.cargo == j.cargo {
                        let merged = Job {
                            from_icao: j.from_icao.clone(),
                            to_icao: j.to_icao.clone(),
                            commodity: j.commodity.clone(),
                            amount: a.amount + j.amount,
                            cargo: j.cargo,
                            dist: j.dist,
                            price: a.price + j.price,
                            vip: false,
                            profit: None,
                        };
                        acc = Some(merged);
                        folded = true;
                    } else {
                        if folded {
                            out.push(a);
                        }
                        acc = Some(j.clone());
                        folded = false;
                    }
                },
            }
        }
        i = i + 1;
    }
    proof {
        assert(jobs@.take(jobs@.len() as int) =~= jobs@);
    }
    if folded {
        match acc {
            Some(a) => out.push(a),
            None => (),
        }
    }
    out
}

/// Appends the combined jobs to the original job set.
pub fn with_combined_legs(jobs: Vec<Job>) -> (out: Vec<Job>)
    requires
        jobs@.len() <= MAX_JOBS,
        forall|i: int| 0 <= i < jobs@.len() ==> job_bounded(#[trigger] jobs@[i]),
    ensures
        out@ == jobs@ + spec_combined_legs(jobs@),
{
    let mut all = jobs;
    let mut extra = combined_legs(&all);
    all.append(&mut extra);
    all
}

} // verus!
