//! Calendar dates and the strict `YYYY-MM-DD` date grammar.

use vstd::prelude::*;

verus! {

/// A calendar date in the proleptic Gregorian calendar, years 0 through 9999.
#[derive(Clone, Copy, PartialEq, Eq, Structural, Debug, Hash)]
pub struct Date {
    pub year: i32,
    pub month: u8,
    pub day: u8,
}

/// Whether `y` is a leap year under the Gregorian rules.
pub open spec fn spec_is_leap_year(y: int) -> bool {
    (y % 4 == 0 && y % 100 != 0) || y % 400 == 0
}

/// The number of days in month `m` of year `y` (0 for an invalid month).
pub open spec fn spec_days_in_month(y: int, m: int) -> int {
    if m == 1 || m == 3 || m == 5 || m == 7 || m == 8 || m == 10 || m == 12 {
        31
    } else if m == 4 || m == 6 || m == 9 || m == 11 {
        30
    } else if m == 2 {
        if spec_is_leap_year(y) {
            29
        } else {
            28
        }
    } else {
        0
    }
}

/// Whether year `y`, month `m`, day `d` name a real calendar date that the
/// four-digit-year date grammar can express.
pub open spec fn spec_valid_ymd(y: int, m: int, d: int) -> bool {
    0 <= y <= 9999 && 1 <= m <= 12 && 1 <= d <= spec_days_in_month(y, m)
}

impl Date {
    /// A `Date` value is well formed when its fields name a real date.
    pub open spec fn wf(self) -> bool {
        spec_valid_ymd(self.year as int, self.month as int, self.day as int)
    }
}

/// Whether `y` is a leap year.
pub fn is_leap_year(y: i32) -> (r: bool)
    ensures
        r == spec_is_leap_year(y as int),
{
    (y % 4 == 0 && y % 100 != 0) || y % 400 == 0
}

/// The number of days in month `m` of year `y`, or 0 for an invalid month.
pub fn days_in_month(y: i32, m: u8) -> (r: u8)
    ensures
        r as int == spec_days_in_month(y as int, m as int),
{
    if m == 1 || m == 3 || m == 5 || m == 7 || m == 8 || m == 10 || m == 12 {
        31
    } else if m == 4 || m == 6 || m == 9 || m == 11 {
        30
    } else if m == 2 {
        if is_leap_year(y) {
            29
        } else {
            28
        }
    } else {
        0
    }
}

impl Date {
    /// Builds a date from its parts, or `None` when they do not name a real
    /// calendar date within years 0 through 9999.
    pub fn from_ymd(year: i32, month: u8, day: u8) -> (r: Option<Date>)
        ensures
            spec_valid_ymd(year as int, month as int, day as int) <==> r is Some,
            r matches Some(d) ==> d == (Date { year, month, day }) && d.wf(),
    {
        if 0 <= year && year <= 9999 && 1 <= month && month <= 12 && 1 <= day && day
            <= days_in_month(year, month) {
            Some(Date { year, month, day })
        } else {
            None
        }
    }
}

/// Whether `c` is an ASCII decimal digit.
pub open spec fn spec_is_digit(c: char) -> bool {
    '0' <= c && c <= '9'
}

/// The numeric value of an ASCII decimal digit (meaningful only when
/// `spec_is_digit(c)` holds).
pub open spec fn spec_digit_val(c: char) -> int {
    c as int - '0' as int
}

/// Whether the character sequence `s` matches the strict date grammar:
/// exactly ten characters, `YYYY-MM-DD`, all digit positions ASCII digits.
pub open spec fn spec_date_shape(s: Seq<char>) -> bool {
    &&& s.len() == 10
    &&& spec_is_digit(s[0])
    &&& spec_is_digit(s[1])
    &&& spec_is_digit(s[2])
    &&& spec_is_digit(s[3])
    &&& s[4] == '-'
    &&& spec_is_digit(s[5])
    &&& spec_is_digit(s[6])
    &&& s[7] == '-'
    &&& spec_is_digit(s[8])
    &&& spec_is_digit(s[9])
}

/// The year named by a well-shaped date string.
pub open spec fn spec_date_year(s: Seq<char>) -> int {
    spec_digit_val(s[0]) * 1000 + spec_digit_val(s[1]) * 100 + spec_digit_val(s[2]) * 10
        + spec_digit_val(s[3])
}

/// The month named by a well-shaped date string.
pub open spec fn spec_date_month(s: Seq<char>) -> int {
    spec_digit_val(s[5]) * 10 + spec_digit_val(s[6])
}

/// The day named by a well-shaped date string.
pub open spec fn spec_date_day(s: Seq<char>) -> int {
    spec_digit_val(s[8]) * 10 + spec_digit_val(s[9])
}

/// The date a character sequence parses to: `Some` exactly when the text
/// matches `YYYY-MM-DD` and names a real calendar date.
pub open spec fn spec_parse_date(s: Seq<char>) -> Option<Date> {
    if spec_date_shape(s) && spec_valid_ymd(
        spec_date_year(s),
        spec_date_month(s),
        spec_date_day(s),
    ) {
        Some(
            Date {
                year: spec_date_year(s) as i32,
                month: spec_date_month(s) as u8,
                day: spec_date_day(s) as u8,
            },
        )
    } else {
        None
    }
}

/// Reads one ASCII digit character, or `None` if `c` is not a digit.
pub fn digit_val(c: char) -> (r: Option<u8>)
    ensures
        r is Some <==> spec_is_digit(c),
        r matches Some(v) ==> v as int == spec_digit_val(c),
{
    if '0' <= c && c <= '9' {
        Some((c as u8) - ('0' as u8))
    } else {
        None
    }
}

/// Parses a date string in the strict `YYYY-MM-DD` format.
///
/// Returns `Some` exactly for ten-character strings with four digit
/// characters, a hyphen, two digits, a hyphen, and two digits, whose
/// fields name a real calendar date; every other string is rejected.
pub fn parse_date(s: &str) -> (r: Option<Date>)
    ensures
        r == spec_parse_date(s@),
        r matches Some(d) ==> d.wf(),
{
    if s.unicode_len() != 10 {
        return None;
    }
    let c4 = s.get_char(4);
    let c7 = s.get_char(7);
    if c4 != '-' || c7 != '-' {
        return None;
    }
    let d0 = digit_val(s.get_char(0));
    let d1 = digit_val(s.get_char(1));
    let d2 = digit_val(s.get_char(2));
    let d3 = digit_val(s.get_char(3));
    let d5 = digit_val(s.get_char(5));
    let d6 = digit_val(s.get_char(6));
    let d8 = digit_val(s.get_char(8));
    let d9 = digit_val(s.get_char(9));
    match (d0, d1, d2, d3, d5, d6, d8, d9) {
        (
            Some(v0),
            Some(v1),
            Some(v2),
            Some(v3),
            Some(v5),
            Some(v6),
            Some(v8),
            Some(v9),
        ) => {
            let year: i32 = (v0 as i32) * 1000 + (v1 as i32) * 100 + (v2 as i32) * 10 + (v3 as i32);
            let month: u8 = v5 * 10 + v6;
            let day: u8 = v8 * 10 + v9;
            Date::from_ymd(year, month, day)
        },
        _ => None,
    }
}

} // verus!
