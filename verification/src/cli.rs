//! Argument handling: mapping the first invocation argument to a mode, and
//! the usage text.

use vstd::prelude::*;
use crate::text::{spec_all_digits, spec_digits_val};
use crate::dates::digit_val;

verus! {

/// What an invocation asks for.
#[derive(Clone, Copy, PartialEq, Eq, Structural, Debug)]
pub enum Mode {
    /// Analyze every available year, then the overall aggregate.
    All,
    /// Analyze one calendar year.
    Year(i32),
    /// Print the usage text and do nothing else.
    Help,
    /// The argument was not recognized.
    Invalid,
}

/// The year a bare token names: one to four digits.
pub open spec fn spec_year_token(s: Seq<char>) -> Option<int> {
    if 1 <= s.len() <= 4 && spec_all_digits(s) {
        Some(spec_digits_val(s))
    } else {
        None
    }
}

/// The mode an invocation selects: no argument means `All`; `all`, `help`
/// and year tokens select their modes; anything else is invalid.
pub open spec fn spec_mode(arg: Option<Seq<char>>) -> Mode {
    match arg {
        None => Mode::All,
        Some(s) => if s == "all"@ {
            Mode::All
        } else if s == "help"@ {
            Mode::Help
        } else {
            match spec_year_token(s) {
                Some(y) => Mode::Year(y as i32),
                None => Mode::Invalid,
            }
        },
    }
}

/// Reads a one-to-four-digit year token.
fn parse_year_token(s: &str) -> (r: Option<i32>)
    ensures
        r is Some <==> spec_year_token(s@) is Some,
        r matches Some(y) ==> spec_year_token(s@) == Some(y as int) && 0 <= y <= 9999,
{
    let n = s.unicode_len();
    if n < 1 || n > 4 {
        return None;
    }
    let mut y: i32 = 0;
    let mut i: usize = 0;
    proof {
        assert(s@.subrange(0, 0) =~= Seq::<char>::empty());
    }
    while i < n
        invariant
            i <= n,
            n == s@.len(),
            1 <= n <= 4,
            forall|k: int| 0 <= k < i ==> crate::dates::spec_is_digit(#[trigger] s@[k]),
            y as int == spec_digits_val(s@.subrange(0, i as int)),
            i == 0 ==> y == 0,
            i == 1 ==> y <= 9,
            i == 2 ==> y <= 99,
            i == 3 ==> y <= 999,
            0 <= y <= 9999,
        decreases n - i,
    {
        let d = match digit_val(s.get_char(i)) {
            Some(d) => d,
            None => {
                proof {
                    assert(!crate::dates::spec_is_digit(s@[i as int]));
                }
                return None;
            },
        };
        proof {
            let pre = s@.subrange(0, i as int);
            let post = s@.subrange(0, i + 1 as int);
            assert(post.drop_last() =~= pre);
            assert(post.last() == s@[i as int]);
        }
        y = y * 10 + d as i32;
        i += 1;
    }
    proof {
        assert(s@.subrange(0, n as int) =~= s@);
        assert(spec_all_digits(s@));
    }
    Some(y)
}

/// Maps the first invocation argument (or its absence) to a mode.
pub fn parse_args(arg: Option<&str>) -> (r: Mode)
    ensures
        ({
            let v = match arg {
                Some(s) => Some(s@),
                None => None,
            };
            r == spec_mode(v)
        }),
{
    match arg {
        None => Mode::All,
        Some(s) => {
            let s_owned = String::from_str(s);
            let all_s = String::from_str("all");
            let help_s = String::from_str("help");
            if s_owned.eq(&all_s) {
                Mode::All
            } else if s_owned.eq(&help_s) {
                Mode::Help
            } else {
                match parse_year_token(s) {
                    Some(y) => Mode::Year(y),
                    None => Mode::Invalid,
                }
            }
        },
    }
}

/// Running with no argument selects the very mode that running with `all`
/// selects, so the two invocations drive the same analyses and produce
/// identical output.
pub proof fn lemma_no_arg_same_as_all()
    ensures
        spec_mode(None) == Mode::All,
        spec_mode(Some("all"@)) == Mode::All,
        spec_mode(None) == spec_mode(Some("all"@)),
{
}

/// The message shown before the usage text for an unrecognized argument.
pub fn invalid_argument_message() -> (r: String)
    ensures
        r@ == "Invalid argument. Use 'help' to see available options."@,
{
    String::from_str("Invalid argument. Use 'help' to see available options.")
}

/// The fixed usage text.
pub fn print_usage() -> (r: String)
    ensures
        r@
            == "Income Analysis Tool\n\nUsage:\n  income_analysis [OPTION]\n\nOptions:\n  (no option)  Show data for all years and overall analysis\n  all          Same as no option, show all data\n  <year>       Show data for one year, e.g. 2023 or 2024\n  help         Show this help message\n\nOutput includes:\n  - Total income\n  - Average income\n  - Highest income\n  - Lowest income\n  - 24% of total income\n\nExamples:\n  income_analysis\n  income_analysis all\n  income_analysis 2023\n  income_analysis 2024\n  income_analysis help\n"@,
{
    String::from_str(
        "Income Analysis Tool\n\nUsage:\n  income_analysis [OPTION]\n\nOptions:\n  (no option)  Show data for all years and overall analysis\n  all          Same as no option, show all data\n  <year>       Show data for one year, e.g. 2023 or 2024\n  help         Show this help message\n\nOutput includes:\n  - Total income\n  - Average income\n  - Highest income\n  - Lowest income\n  - 24% of total income\n\nExamples:\n  income_analysis\n  income_analysis all\n  income_analysis 2023\n  income_analysis 2024\n  income_analysis help\n",
    )
}

} // verus!
