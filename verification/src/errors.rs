//! The failure kinds the loader and the analyzers report.

use vstd::prelude::*;
use crate::text::{push_dec, spec_dec_str};

verus! {

/// Why a load or an analysis failed.
#[derive(Clone, Copy, PartialEq, Eq, Structural, Debug)]
pub enum IncomeError {
    /// The input is missing, or is not CSV with the required header columns.
    DataAccess,
    /// A cell in data row `row` (counted from 0) holds a date that is not
    /// `YYYY-MM-DD`, or a missing or non-numeric amount.
    Parse { row: usize },
    /// An analysis was requested for a year with no matching records.
    NoData { year: i32 },
    /// An aggregate could not be derived, because there were no records.
    Compute,
}

/// The diagnostic text for a no-data failure: the fixed phrase followed by
/// the year number.
pub open spec fn spec_no_data_message(year: int) -> Seq<char> {
    "No data available for the year "@ + spec_dec_str(year)
}

impl IncomeError {
    /// A human-readable description of the failure, for console output.
    pub fn message(&self) -> (r: String)
        ensures
            self matches IncomeError::NoData { year } ==> year >= 0 ==> r@
                == spec_no_data_message(year as int),
    {
        match self {
            IncomeError::DataAccess => String::from_str(
                "The input could not be read as CSV with 'date' and 'amount' columns.",
            ),
            IncomeError::Parse { row } => {
                let mut s = String::from_str("A date or amount could not be parsed in data row ");
                push_dec(*row as u128, &mut s);
                s
            },
            IncomeError::NoData { year } => {
                let mut s = String::from_str("No data available for the year ");
                if *year >= 0 {
                    push_dec(*year as u128, &mut s);
                } else {
                    s.append("-");
                    push_dec((-(*year as i64)) as u128, &mut s);
                }
                s
            },
            IncomeError::Compute => String::from_str(
                "No aggregate statistics can be computed from an empty record set.",
            ),
        }
    }
}

} // verus!
