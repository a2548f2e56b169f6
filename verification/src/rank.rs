//! Final ranking: totally orders the profit-bearing jobs, descending by
//! profit with input order as the stable tie-break, and extracts the top
//! three.

use vstd::prelude::*;

use crate::job::Job;

verus! {

/// How many results the ranking reports.
pub const TOP_N: usize = 3;

/// The profit a scored job carries; 0 stands in for a job without a result,
/// which the ranking never consults.
pub open spec fn spec_profit_of(j: Job) -> int {
    match j.profit {
        Some(r) => r.profit as int,
        None => 0,
    }
}

/// The ranking's strict total order on distinct scored indices: greater
/// profit first, earlier input position on equal profit.
pub open spec fn spec_ranked_before(jobs: Seq<Job>, i: int, k: int) -> bool {
    spec_profit_of(jobs[i]) > spec_profit_of(jobs[k]) || (spec_profit_of(jobs[i])
        == spec_profit_of(jobs[k]) && i < k)
}

/// Where an index lands in an already ranked sequence.
pub open spec fn spec_insert_ranked(s: Seq<usize>, jobs: Seq<Job>, i: usize) -> Seq<usize>
    decreases s.len(),
{
    if s.len() == 0 {
        seq![i]
    } else if spec_ranked_before(jobs, i as int, s[0] as int) {
        seq![i] + s
    } else {
        seq![s[0]] + spec_insert_ranked(s.drop_first(), jobs, i)
    }
}

/// The ranked indices of the scored jobs among the first `n`.
pub open spec fn spec_ranking(jobs: Seq<Job>, n: int) -> Seq<usize>
    decreases n,
{
    if n <= 0 {
        Seq::empty()
    } else {
        let s = spec_ranking(jobs, n - 1);
        if jobs[n - 1].profit is Some {
            spec_insert_ranked(s, jobs, (n - 1) as usize)
        } else {
            s
        }
    }
}

/// How many of the first `n` jobs carry a profit result.
pub open spec fn spec_count_scored(jobs: Seq<Job>, n: int) -> int
    decreases n,
{
    if n <= 0 {
        0
    } else {
        spec_count_scored(jobs, n - 1) + (if jobs[n - 1].profit is Some {
            1int
        } else {
            0int
        })
    }
}

/// A sequence of indices in ranking order.
pub open spec fn spec_sorted_ranking(s: Seq<usize>, jobs: Seq<Job>) -> bool {
    forall|a: int, b: int|
        0 <= a < b < s.len() ==> spec_ranked_before(jobs, #[trigger] s[a] as int, #[trigger] s[b] as int)
}

/// The up-to-three best jobs, best first.
pub open spec fn spec_top_jobs(jobs: Seq<Job>) -> Seq<Job> {
    let ord = spec_ranking(jobs, jobs.len() as int);
    let keep = if ord.len() < TOP_N as int {
        ord.len() as int
    } else {
        TOP_N as int
    };
    ord.take(keep).map(|_q: int, k: usize| jobs[k as int])
}

/// Inserting at the first position whose occupant the new index outranks is
/// what the recursive insertion says.
proof fn lemma_insert_ranked_at(s: Seq<usize>, jobs: Seq<Job>, i: usize, p: int)
    requires
        0 <= p <= s.len(),
        forall|q: int| 0 <= q < p ==> !spec_ranked_before(jobs, i as int, #[trigger] s[q] as int),
        p < s.len() ==> spec_ranked_before(jobs, i as int, s[p] as int),
    ensures
        spec_insert_ranked(s, jobs, i) == s.insert(p, i),
    decreases s.len(),
{
    if s.len() == 0 {
        assert(spec_insert_ranked(s, jobs, i) =~= s.insert(0, i));
    } else if spec_ranked_before(jobs, i as int, s[0] as int) {
        assert(p == 0);
        assert(seq![i] + s =~= s.insert(0, i));
    } else {
        assert(p >= 1);
        lemma_insert_ranked_at(s.drop_first(), jobs, i, p - 1);
        assert(seq![s[0]] + s.drop_first().insert(p - 1, i) =~= s.insert(p, i));
    }
}

/// Ranked insertion keeps the order sorted, adds exactly the new index, and
/// grows the length by one.
proof fn lemma_insert_ranked_sorted(s: Seq<usize>, jobs: Seq<Job>, i: usize)
    requires
        spec_sorted_ranking(s, jobs),
        forall|q: int| 0 <= q < s.len() ==> #[trigger] s[q] != i,
    ensures
        spec_sorted_ranking(spec_insert_ranked(s, jobs, i), jobs),
        spec_insert_ranked(s, jobs, i).len() == s.len() + 1,
        forall|x: usize|
            #![trigger spec_insert_ranked(s, jobs, i).contains(x)]
            #![trigger s.contains(x)]
            spec_insert_ranked(s, jobs, i).contains(x) <==> (s.contains(x) || x == i),
    decreases s.len(),
{
    let out = spec_insert_ranked(s, jobs, i);
    if s.len() == 0 {
        assert(out =~= seq![i]);
        assert(out[0] == i);
        assert forall|x: usize| out.contains(x) <==> (s.contains(x) || x == i) by {
            if out.contains(x) {
                let q = choose|q: int| 0 <= q < out.len() && out[q] == x;
                assert(x == i);
            }
            if x == i {
                assert(out[0] == x);
            }
        }
    } else if spec_ranked_before(jobs, i as int, s[0] as int) {
        assert(out =~= seq![i] + s);
        assert forall|a: int, b: int|
            0 <= a < b < out.len() implies spec_ranked_before(
            jobs,
            out[a] as int,
            out[b] as int,
        ) by {
            if a == 0 {
                // i outranks s[0], and s[0] outranks or equals every later entry
                if b > 1 {
                    assert(spec_ranked_before(jobs, s[0] as int, s[b - 1] as int));
                }
            } else {
                assert(spec_ranked_before(jobs, s[a - 1] as int, s[b - 1] as int));
            }
        }
        assert forall|x: usize| out.contains(x) <==> (s.contains(x) || x == i) by {
            if out.contains(x) {
                let q = choose|q: int| 0 <= q < out.len() && out[q] == x;
                if q == 0 {
                } else {
                    assert(s[q - 1] == x);
                }
            }
            if s.contains(x) {
                let q = choose|q: int| 0 <= q < s.len() && s[q] == x;
                assert(out[q + 1] == x);
            }
            if x == i {
                assert(out[0] == x);
            }
        }
    } else {
        let tail = s.drop_first();
        assert(forall|a: int, b: int|
            0 <= a < b < tail.len() ==> spec_ranked_before(
                jobs,
                #[trigger] tail[a] as int,
                #[trigger] tail[b] as int,
            ));
        assert(forall|q: int| 0 <= q < tail.len() ==> #[trigger] tail[q] != i);
        lemma_insert_ranked_sorted(tail, jobs, i);
        let rec = spec_insert_ranked(tail, jobs, i);
        assert(out =~= seq![s[0]] + rec);
        // s[0] outranks i here: the order is total on distinct indices
        assert(spec_ranked_before(jobs, s[0] as int, i as int));
        assert forall|a: int, b: int|
            0 <= a < b < out.len() implies spec_ranked_before(
            jobs,
            out[a] as int,
            out[b] as int,
        ) by {
            if a == 0 {
                assert(rec.contains(rec[b - 1]));
                let x = rec[b - 1];
                if x == i {
                } else {
                    assert(tail.contains(x));
                    let q = choose|q: int| 0 <= q < tail.len() && tail[q] == x;
                    assert(spec_ranked_before(jobs, s[0] as int, tail[q] as int));
                }
            } else {
                assert(spec_ranked_before(jobs, rec[a - 1] as int, rec[b - 1] as int));
            }
        }
        assert forall|x: usize| out.contains(x) <==> (s.contains(x) || x == i) by {
            if out.contains(x) {
                let q = choose|q: int| 0 <= q < out.len() && out[q] == x;
                if q == 0 {
                    assert(s[0] == x);
                } else {
                    assert(rec[q - 1] == x);
                    assert(rec.contains(x));
                    if x != i {
                        assert(tail.contains(x));
                        let t = choose|t: int| 0 <= t < tail.len() && tail[t] == x;
                        assert(s[t + 1] == x);
                    }
                }
            }
            if s.contains(x) {
                let q = choose|q: int| 0 <= q < s.len() && s[q] == x;
                if q == 0 {
                    assert(out[0] == x);
                } else {
                    assert(tail[q - 1] == x);
                    assert(tail.contains(x));
                    assert(rec.contains(x));
                    let t = choose|t: int| 0 <= t < rec.len() && rec[t] == x;
                    assert(out[t + 1] == x);
                }
            }
            if x == i {
                assert(rec.contains(x) <==> (tail.contains(x) || x == i));
                assert(rec.contains(x));
                let t = choose|t: int| 0 <= t < rec.len() && rec[t] == x;
                assert(out[t + 1] == x);
            }
        }
    }
}

/// The ranking of the first `n` jobs is sorted and holds exactly the scored
/// indices below `n`.
pub proof fn lemma_ranking_sorted(jobs: Seq<Job>, n: int)
    requires
        0 <= n <= jobs.len(),
        jobs.len() <= usize::MAX,
    ensures
        spec_sorted_ranking(spec_ranking(jobs, n), jobs),
        spec_ranking(jobs, n).len() == spec_count_scored(jobs, n),
        forall|x: usize|
            spec_ranking(jobs, n).contains(x) <==> (x < n && jobs[x as int].profit is Some),
    decreases n,
{
    if n > 0 {
        lemma_ranking_sorted(jobs, n - 1);
        let s = spec_ranking(jobs, n - 1);
        if jobs[n - 1].profit is Some {
            assert forall|q: int| 0 <= q < s.len() implies #[trigger] s[q] != (n - 1) as usize by {
                assert(s.contains(s[q]));
            }
            lemma_insert_ranked_sorted(s, jobs, (n - 1) as usize);
        }
    }
}

fn ranked_before(jobs: &Vec<Job>, i: usize, k: usize) -> (r: bool)
    requires
        i < jobs@.len(),
        k < jobs@.len(),
    ensures
        r == spec_ranked_before(jobs@, i as int, k as int),
{
    let pi: i64 = match jobs[i].profit {
        Some(res) => res.profit,
        None => 0,
    };
    let pk: i64 = match jobs[k].profit {
        Some(res) => res.profit,
        None => 0,
    };
    pi > pk || (pi == pk && i < k)
}

/// Whether the scan must move past position `p`: its occupant still
/// outranks the index being inserted.
fn scan_past(jobs: &Vec<Job>, order: &Vec<usize>, i: usize, p: usize) -> (r: bool)
    requires
        i < jobs@.len(),
        p < order@.len(),
        (order@[p as int] as int) < jobs@.len(),
    ensures
        r == !spec_ranked_before(jobs@, i as int, order@[p as int] as int),
{
    let ahead = order[p];
    !ranked_before(jobs, i, ahead)
}

/// Orders the scored jobs' indices, best first.
fn build_ranking(jobs: &Vec<Job>) -> (order: Vec<usize>)
    ensures
        order@ == spec_ranking(jobs@, jobs@.len() as int),
        forall|q: int| 0 <= q < order@.len() ==> (#[trigger] order@[q] as int) < jobs@.len(),
{
    let mut order: Vec<usize> = Vec::new();
    let mut i: usize = 0;
    while i < jobs.len()
        invariant
            0 <= i <= jobs@.len(),
            order@ == spec_ranking(jobs@, i as int),
            forall|q: int| 0 <= q < order@.len() ==> (#[trigger] order@[q] as int) < i,
        decreases jobs@.len() - i,
    {
        if jobs[i].profit.is_some() {
            let ghost s = order@;
            let mut p: usize = 0;
            while p < order.len() && scan_past(jobs, &order, i, p)
                invariant
                    0 <= p <= order@.len(),
                    order@ == s,
                    i < jobs@.len(),
                    forall|q: int| 0 <= q < order@.len() ==> (#[trigger] order@[q] as int) < i,
                    forall|q: int|
                        0 <= q < p ==> !spec_ranked_before(jobs@, i as int, #[trigger] s[q] as int),
                decreases order@.len() - p,
            {
                p = p + 1;
            }
            proof {
                lemma_insert_ranked_at(s, jobs@, i, p as int);
            }
            order.insert(p, i);
        }
        i = i + 1;
    }
    order
}

/// Selects the jobs with a profit result, orders them by descending profit
/// with input order breaking ties, and returns the first `TOP_N`.
pub fn top_jobs(jobs: &Vec<Job>) -> (out: Vec<Job>)
    ensures
        out@ == spec_top_jobs(jobs@),
{
    let order = build_ranking(jobs);
    let keep = if order.len() < TOP_N {
        order.len()
    } else {
        TOP_N
    };
    let mut out: Vec<Job> = Vec::new();
    let mut t: usize = 0;
    while t < keep
        invariant
            0 <= t <= keep,
            keep <= order@.len(),
            order@ == spec_ranking(jobs@, jobs@.len() as int),
            forall|q: int| 0 <= q < order@.len() ==> (#[trigger] order@[q] as int) < jobs@.len(),
            keep as int == (if order@.len() < TOP_N as int {
                order@.len() as int
            } else {
                TOP_N as int
            }),
            out@.len() == t,
            forall|q: int| 0 <= q < t ==> out@[q] == jobs@[#[trigger] order@[q] as int],
        decreases keep - t,
    {
        let k = order[t];
        out.push(jobs[k].clone());
        t = t + 1;
    }
    proof {
        assert(out@ =~= spec_top_jobs(jobs@));
    }
    out
}

/// The ranking returns exactly `TOP_N` jobs when at least that many carry a
/// result, and exactly as many as do otherwise.
pub proof fn lemma_top_jobs_len(jobs: Seq<Job>)
    requires
        jobs.len() <= usize::MAX,
    ensures
        spec_top_jobs(jobs).len() == (if spec_count_scored(jobs, jobs.len() as int) < TOP_N as int {
            spec_count_scored(jobs, jobs.len() as int)
        } else {
            TOP_N as int
        }),
{
    lemma_ranking_sorted(jobs, jobs.len() as int);
}

/// What the ranking returns is ordered by descending profit, and every
/// returned job carries a profit result.
pub proof fn lemma_top_jobs_sorted(jobs: Seq<Job>)
    requires
        jobs.len() <= usize::MAX,
    ensures
        forall|a: int, b: int|
            0 <= a < b < spec_top_jobs(jobs).len() ==> spec_profit_of(
                #[trigger] spec_top_jobs(jobs)[a],
            ) >= spec_profit_of(#[trigger] spec_top_jobs(jobs)[b]),
        forall|a: int|
            0 <= a < spec_top_jobs(jobs).len() ==> (#[trigger] spec_top_jobs(jobs)[a]).profit
                is Some,
{
    lemma_ranking_sorted(jobs, jobs.len() as int);
    let ord = spec_ranking(jobs, jobs.len() as int);
    let out = spec_top_jobs(jobs);
    assert forall|a: int|
        0 <= a < out.len() implies (#[trigger] out[a]).profit is Some by {
        assert(ord.contains(ord[a]));
        assert(out[a] == jobs[ord[a] as int]);
    }
    assert forall|a: int, b: int|
        0 <= a < b < out.len() implies spec_profit_of(#[trigger] out[a]) >= spec_profit_of(
        #[trigger] out[b],
    ) by {
        assert(spec_ranked_before(jobs, ord[a] as int, ord[b] as int));
        assert(out[a] == jobs[ord[a] as int]);
        assert(out[b] == jobs[ord[b] as int]);
    }
}

} // verus!
