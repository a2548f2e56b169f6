//! Input bounds under which the pipeline's fixed-point arithmetic is proved
//! free of overflow. They are machine limits of the integer model, far above
//! any value the flight-economy feeds produce.

use vstd::prelude::*;

verus! {

/// Largest job distance, in centi-nautical miles (one million nm).
pub const DIST_MAX_CENTI_NM: u64 = 100_000_000;

/// Largest fuel burn rate, in centi-gallons per hour (ten thousand gal/hr).
pub const GPH_MAX_CENTI: u64 = 1_000_000;

/// Largest rental rate, in cents per hour (one million per hour).
pub const RATE_MAX_CENTS: u64 = 100_000_000;

/// Largest system fuel price, in cents per gallon (one thousand per gallon).
pub const FUEL_PRICE_MAX_CENTS: u64 = 100_000;

/// Largest amount of a single uncombined job (passengers or kilograms).
pub const AMOUNT_MAX: u64 = 1_000_000_000;

/// Largest pay of a single uncombined job, in cents (ten billion).
pub const PRICE_MAX_CENTS: u64 = 1_000_000_000_000;

/// Largest number of jobs fed to the leg combiner in one run.
pub const MAX_JOBS: usize = 1_000_000;

/// Largest pay of a job handed to the profit calculator, in cents: combined
/// legs sum at most `MAX_JOBS` prices of at most `PRICE_MAX_CENTS` each.
pub const SCORE_PRICE_MAX_CENTS: u64 = 1_000_000_000_000_000_000;

} // verus!
