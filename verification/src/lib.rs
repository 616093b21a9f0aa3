//! Income analysis library.
//!
//! Loads a two-column (`date`, `amount`) CSV text into a collection of
//! dated income records, computes descriptive statistics (total, average,
//! maximum, minimum, and a fixed 24% derivation of the total) per calendar
//! year or across all years, and renders the results as console text.
//!
//! Monetary values are held exactly as integer cents, so every statistic
//! is computed without rounding; rounding happens only when a value is
//! formatted for display.

use vstd::prelude::*;

pub mod analyzers;
pub mod cli;
pub mod data_loader;
pub mod dates;
pub mod errors;
pub mod output;
pub mod records;
pub mod text;

verus! {

/// The largest magnitude, in cents, that a single income amount may have.
///
/// Bounding each amount lets every aggregate (a sum of at most `usize::MAX`
/// amounts) be computed in 128-bit arithmetic with no possibility of
/// overflow.
pub const MAX_AMOUNT_CENTS: i64 = 100_000_000_000_000_000;

} // verus!
