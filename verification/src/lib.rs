//! Finds the most profitable cargo/passenger flight jobs for a rentable
//! aircraft model in a flight-simulation economy.
//!
//! The crate holds the selection-and-scoring pipeline: bounded top-K
//! selection of the cheapest aircraft, job normalization, combination of
//! compatible legs, distance-constrained profit computation under a dry/wet
//! rental cost model, and final ranking. All money, fuel and distance
//! quantities are fixed-point integers: cents, centi-gallons, centi-nautical
//! miles and milli-hours. Fetching the feeds, parsing wire formats and the
//! great-circle geometry live outside the library and hand it plain records.

pub mod airport;
pub mod combine;
pub mod fleet;
pub mod job;
pub mod limits;
pub mod profit;
pub mod rank;
pub mod plane;

use vstd::prelude::*;

verus! {

/// A rental rate below one cent is a data artifact, not a genuine rate:
/// such a value is treated as absent.
pub const MIN_RATE_CENTS: u64 = 1;

pub fn test_rental(rate_cents: u64) -> (r: Option<u64>)
    ensures
        r == (if rate_cents >= MIN_RATE_CENTS {
            Some(rate_cents)
        } else {
            Option::<u64>::None
        }),
{
    if rate_cents >= MIN_RATE_CENTS {
        Some(rate_cents)
    } else {
        None
    }
}

} // verus!
