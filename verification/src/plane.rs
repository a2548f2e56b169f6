//! Rentable aircraft listings and the validity / average-rate rules that the
//! fleet selector applies to them.

use vstd::prelude::*;

verus! {

/// One rentable aircraft as the feed reports it. Rates are in cents per
/// hour; a rate below one cent is mapped to `None` before a listing reaches
/// the library. A listing whose location reads "In Flight" is not parked at
/// any airport.
#[derive(Debug)]
pub struct Plane {
    pub location: String,
    pub dry_rental: Option<u64>,
    pub wet_rental: Option<u64>,
}

impl Clone for Plane {
    fn clone(&self) -> (res: Self)
        ensures
            res == *self,
    {
        Plane {
            location: self.location.clone(),
            dry_rental: self.dry_rental,
            wet_rental: self.wet_rental,
        }
    }
}

/// Mean of the rates that are present; 0 when neither is.
pub open spec fn spec_rental_avg(p: Plane) -> int {
    match (p.dry_rental, p.wet_rental) {
        (Some(d), Some(w)) => (d + w) / 2,
        (Some(d), None) => d as int,
        (None, Some(w)) => w as int,
        (None, None) => 0,
    }
}

/// The feed marks an airborne aircraft with this location text.
pub open spec fn spec_in_flight(p: Plane) -> bool {
    p.location@ == "In Flight"@
}

/// A candidate for selection: at least one rental rate, and parked.
pub open spec fn spec_valid_candidate(p: Plane) -> bool {
    (p.dry_rental is Some || p.wet_rental is Some) && !spec_in_flight(p)
}

pub trait Rentable {
    spec fn rental_avg_spec(&self) -> int;

    fn get_rental_avg(&self) -> (r: u64)
        ensures
            r as int == self.rental_avg_spec(),
    ;
}

impl Rentable for Plane {
    open spec fn rental_avg_spec(&self) -> int {
        spec_rental_avg(*self)
    }

    fn get_rental_avg(&self) -> (r: u64) {
        match (self.dry_rental, self.wet_rental) {
            (Some(d), Some(w)) => {
                let r = d / 2 + w / 2 + (d % 2 + w % 2) / 2;
                proof {
                    assert(d == 2 * (d / 2) + d % 2) by (nonlinear_arith);
                    assert(w == 2 * (w / 2) + w % 2) by (nonlinear_arith);
                    assert((2 * (d / 2 + w / 2) + (d % 2 + w % 2) as int) / 2
                        == d / 2 + w / 2 + (d % 2 + w % 2) / 2) by (nonlinear_arith);
                }
                r
            },
            (Some(d), None) => d,
            (None, Some(w)) => w,
            (None, None) => 0,
        }
    }
}

impl Plane {
    /// Whether this listing may enter the fleet at all.
    pub fn is_valid_candidate(&self) -> (r: bool)
        ensures
            r == spec_valid_candidate(*self),
    {
        (self.dry_rental.is_some() || self.wet_rental.is_some())
            && !(self.location == "In Flight".to_owned())
    }
}

} // verus!
