//! Bounded selection of the cheapest aircraft: at most three members, each
//! admitted while room is left, and afterwards replacing the single most
//! expensive member only when strictly cheaper than it.

use vstd::prelude::*;

use crate::plane::{Plane, Rentable, spec_rental_avg, spec_valid_candidate};

verus! {

/// Capacity of the selected fleet.
pub const FLEET_SIZE: usize = 3;

/// Index of the first member with the greatest rental average; 0 on a
/// sequence of fewer than two members.
pub open spec fn max_avg_index(s: Seq<Plane>) -> int
    decreases s.len(),
{
    if s.len() <= 1 {
        0
    } else {
        let i = max_avg_index(s.drop_last());
        if spec_rental_avg(s.last()) > spec_rental_avg(s[i]) {
            s.len() - 1
        } else {
            i
        }
    }
}

/// Rental average of the most expensive member; 0 on an empty sequence.
pub open spec fn fleet_max_avg(s: Seq<Plane>) -> int {
    if s.len() == 0 {
        0
    } else {
        spec_rental_avg(s[max_avg_index(s)])
    }
}

/// How one arriving listing changes the selected fleet.
pub open spec fn fleet_step(s: Seq<Plane>, p: Plane) -> Seq<Plane> {
    if !spec_valid_candidate(p) {
        s
    } else if s.len() < FLEET_SIZE as int {
        s.push(p)
    } else if spec_rental_avg(p) < fleet_max_avg(s) {
        s.remove(max_avg_index(s)).push(p)
    } else {
        s
    }
}

/// The fleet selected from a whole sequence of listings.
pub open spec fn select_fleet(ps: Seq<Plane>) -> Seq<Plane>
    decreases ps.len(),
{
    if ps.len() == 0 {
        Seq::empty()
    } else {
        fleet_step(select_fleet(ps.drop_last()), ps.last())
    }
}

pub proof fn lemma_max_avg_index_in_range(s: Seq<Plane>)
    requires
        s.len() > 0,
    ensures
        0 <= max_avg_index(s) < s.len(),
    decreases s.len(),
{
    if s.len() > 1 {
        lemma_max_avg_index_in_range(s.drop_last());
    }
}

/// The most expensive member bounds every member's rental average.
pub proof fn lemma_max_avg_bounds(s: Seq<Plane>, j: int)
    requires
        0 <= j < s.len(),
    ensures
        spec_rental_avg(s[j]) <= fleet_max_avg(s),
    decreases s.len(),
{
    lemma_max_avg_index_in_range(s);
    if s.len() > 1 {
        lemma_max_avg_index_in_range(s.drop_last());
        if j < s.len() - 1 {
            lemma_max_avg_bounds(s.drop_last(), j);
        }
    }
}

/// The selected fleet never holds more than `FLEET_SIZE` aircraft, whatever
/// the input sequence.
pub proof fn lemma_fleet_size(ps: Seq<Plane>)
    ensures
        select_fleet(ps).len() <= FLEET_SIZE as int,
    decreases ps.len(),
{
    if ps.len() > 0 {
        lemma_fleet_size(ps.drop_last());
        let r0 = select_fleet(ps.drop_last());
        if r0.len() > 0 {
            lemma_max_avg_index_in_range(r0);
        }
    }
}

/// Every member of the selected fleet is a valid candidate: it has at least
/// one rental rate, and it is not in flight.
pub proof fn lemma_fleet_members_valid(ps: Seq<Plane>)
    ensures
        forall|j: int|
            0 <= j < select_fleet(ps).len() ==> spec_valid_candidate(#[trigger] select_fleet(ps)[j]),
    decreases ps.len(),
{
    if ps.len() > 0 {
        lemma_fleet_members_valid(ps.drop_last());
        let r0 = select_fleet(ps.drop_last());
        if r0.len() > 0 {
            lemma_max_avg_index_in_range(r0);
        }
    }
}

/// Replacing the most expensive member with a strictly cheaper one keeps the
/// fleet's size and never raises its most expensive rental average.
proof fn lemma_replace_max(s: Seq<Plane>, p: Plane)
    requires
        s.len() > 0,
        spec_rental_avg(p) < fleet_max_avg(s),
    ensures
        s.remove(max_avg_index(s)).push(p).len() == s.len(),
        fleet_max_avg(s.remove(max_avg_index(s)).push(p)) <= fleet_max_avg(s),
{
    let m = max_avg_index(s);
    lemma_max_avg_index_in_range(s);
    let r = s.remove(m).push(p);
    lemma_max_avg_index_in_range(r);
    let k = max_avg_index(r);
    if k == r.len() - 1 {
        assert(r[k] == p);
    } else {
        let orig = if k < m {
            k
        } else {
            k + 1
        };
        assert(r[k] == s[orig]);
        lemma_max_avg_bounds(s, orig);
    }
}

/// The selected fleet is the cheapest set the stream allows: any valid
/// listing left out was only left out because the fleet was full and the
/// listing's rental average was no better than the fleet's most expensive
/// member.
pub proof fn lemma_fleet_cheapest(ps: Seq<Plane>, i: int)
    requires
        0 <= i < ps.len(),
        spec_valid_candidate(ps[i]),
    ensures
        select_fleet(ps).contains(ps[i]) || (select_fleet(ps).len() == FLEET_SIZE as int
            && spec_rental_avg(ps[i]) >= fleet_max_avg(select_fleet(ps))),
    decreases ps.len(),
{
    let r0 = select_fleet(ps.drop_last());
    let p = ps.last();
    let r = select_fleet(ps);
    lemma_fleet_size(ps.drop_last());
    if r0.len() > 0 {
        lemma_max_avg_index_in_range(r0);
    }
    if i == ps.len() - 1 {
        if !spec_valid_candidate(p) {
        } else if r0.len() < FLEET_SIZE as int {
            assert(r[r0.len() as int] == p);
            assert(r.contains(ps[i]));
        } else if spec_rental_avg(p) < fleet_max_avg(r0) {
            assert(r[r.len() - 1] == p);
            assert(r.contains(ps[i]));
        }
    } else {
        lemma_fleet_cheapest(ps.drop_last(), i);
        let x = ps[i];
        assert(ps.drop_last()[i] == x);
        if r0.contains(x) {
            let w = choose|w: int| 0 <= w < r0.len() && r0[w] == x;
            if !spec_valid_candidate(p) {
                assert(r.contains(x));
            } else if r0.len() < FLEET_SIZE as int {
                assert(r[w] == x);
                assert(r.contains(x));
            } else if spec_rental_avg(p) < fleet_max_avg(r0) {
                let m = max_avg_index(r0);
                if w == m && (forall|v: int|
                    0 <= v < r0.len() && r0[v] == x ==> v == m) {
                    // the only occurrence of x was the most expensive member,
                    // and it was just replaced by something cheaper
                    assert(spec_rental_avg(x) == fleet_max_avg(r0));
                    lemma_replace_max(r0, p);
                } else {
                    let w2 = if w != m {
                        w
                    } else {
                        choose|v: int| 0 <= v < r0.len() && r0[v] == x && v != m
                    };
                    let k = if w2 < m {
                        w2
                    } else {
                        w2 - 1
                    };
                    assert(r[k] == r0[w2]);
                    assert(r.contains(x));
                }
            } else {
                assert(r.contains(x));
            }
        } else {
            // the fleet was already full and x no better than its maximum
            if spec_valid_candidate(p) && r0.len() >= FLEET_SIZE as int && spec_rental_avg(p)
                < fleet_max_avg(r0) {
                lemma_replace_max(r0, p);
            }
        }
    }
}

/// Maintains the selected fleet while listings arrive one at a time.
pub struct FleetSelector {
    pub planes: Vec<Plane>,
}

impl FleetSelector {
    pub fn new() -> (s: FleetSelector)
        ensures
            s.planes@ == Seq::<Plane>::empty(),
    {
        FleetSelector { planes: Vec::new() }
    }

    /// Index of the first most expensive member of a non-empty fleet.
    fn max_index(&self) -> (i: usize)
        requires
            self.planes@.len() > 0,
        ensures
            i as int == max_avg_index(self.planes@),
    {
        let mut best: usize = 0;
        let mut j: usize = 1;
        while j < self.planes.len()
            invariant
                1 <= j <= self.planes@.len(),
                0 <= best < j,
                best as int == max_avg_index(self.planes@.take(j as int)),
            decreases self.planes@.len() - j,
        {
            proof {
                assert(self.planes@.take(j as int + 1).drop_last() =~= self.planes@.take(
                    j as int,
                ));
                lemma_max_avg_index_in_range(self.planes@.take(j as int));
            }
            if self.planes[j].get_rental_avg() > self.planes[best].get_rental_avg() {
                best = j;
            }
            j = j + 1;
        }
        proof {
            assert(self.planes@.take(self.planes@.len() as int) =~= self.planes@);
        }
        best
    }

    /// Considers one arriving listing.
    pub fn offer(&mut self, p: Plane)
        ensures
            final(self).planes@ == fleet_step(old(self).planes@, p),
    {
        if !p.is_valid_candidate() {
            return ;
        }
        if self.planes.len() < FLEET_SIZE {
            self.planes.push(p);
            return ;
        }
        let m = self.max_index();
        proof {
            lemma_max_avg_index_in_range(self.planes@);
        }
        if p.get_rental_avg() < self.planes[m].get_rental_avg() {
            self.planes.remove(m);
            self.planes.push(p);
        }
    }

    /// The fleet selected so far, in no particular order.
    pub fn selected(self) -> (v: Vec<Plane>)
        ensures
            v == self.planes,
    {
        self.planes
    }
}

/// Runs the selector over a whole sequence of listings.
pub fn select_from(listings: &Vec<Plane>) -> (fleet: Vec<Plane>)
    ensures
        fleet@ == select_fleet(listings@),
{
    let mut sel = FleetSelector::new();
    let mut i: usize = 0;
    while i < listings.len()
        invariant
            0 <= i <= listings@.len(),
            sel.planes@ == select_fleet(listings@.take(i as int)),
        decreases listings@.len() - i,
    {
        proof {
            assert(listings@.take(i as int + 1).drop_last() =~= listings@.take(i as int));
        }
        let p = listings[i].clone();
        sel.offer(p);
        i = i + 1;
    }
    proof {
        assert(listings@.take(listings@.len() as int) =~= listings@);
    }
    sel.selected()
}

} // verus!
