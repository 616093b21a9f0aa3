//! The reporter: renders an analysis result as the console text the tool
//! prints.
//!
//! Totals, maxima and minima are whole numbers of cents and render
//! exactly. The average (`total / count` cents) and the 24% figure
//! (ten-thousandths of a dollar) are rounded to the nearest cent — halves
//! away from zero — only here, at display time.

use vstd::prelude::*;
use crate::analyzers::{YearAnalysis, Scope};
use crate::records::IncomeRecord;
use crate::dates::Date;
use crate::text::{spec_dec_str, spec_two_digits, spec_four_digits, push_dec, push_two_digits,
    push_four_digits};

verus! {

/// A bound on every cent figure a well-formed analysis can carry, used
/// only to keep display arithmetic in range.
pub const MAX_DISPLAY_E4: i128 = 0x4000_0000_0000_0000_0000_0000_0000_0000;

/// The quotient `a / b` rounded to the nearest whole, halves away from
/// zero.
pub open spec fn spec_round_div(a: int, b: int) -> int
    recommends
        b >= 1,
{
    if a >= 0 {
        (a + b / 2) / b
    } else {
        -(((-a) + b / 2) / b)
    }
}

/// Rounds `a / b` to the nearest whole, halves away from zero.
pub fn round_div(a: i128, b: i128) -> (r: i128)
    requires
        1 <= b <= 0x7fff_ffff_ffff_ffff_ffff,
        -MAX_DISPLAY_E4 <= a <= MAX_DISPLAY_E4,
    ensures
        r as int == spec_round_div(a as int, b as int),
{
    if a >= 0 {
        (a + b / 2) / b
    } else {
        -((-a + b / 2) / b)
    }
}

/// The text of a money value given in cents: `$`, a minus sign for
/// negative values, whole dollars, a point, and exactly two cent digits.
pub open spec fn spec_money_str(c: int) -> Seq<char> {
    if c < 0 {
        "$-"@ + spec_dec_str((-c) / 100) + "."@ + spec_two_digits((-c) % 100)
    } else {
        "$"@ + spec_dec_str(c / 100) + "."@ + spec_two_digits(c % 100)
    }
}

/// Appends the rendering of `cents` as dollars to `out`.
pub fn push_money(cents: i128, out: &mut String)
    requires
        -MAX_DISPLAY_E4 <= cents <= MAX_DISPLAY_E4,
    ensures
        final(out)@ == old(out)@ + spec_money_str(cents as int),
{
    proof {
        reveal_strlit("$");
        reveal_strlit("$-");
        reveal_strlit(".");
    }
    let mag: u128 = if cents < 0 {
        out.append("$-");
        (-cents) as u128
    } else {
        out.append("$");
        cents as u128
    };
    push_dec(mag / 100, out);
    out.append(".");
    push_two_digits((mag % 100) as u8, out);
    proof {
        assert(final(out)@ == old(out)@ + spec_money_str(cents as int));
    }
}

/// The text of a date: `YYYY-MM-DD`, zero padded.
pub open spec fn spec_date_str(d: Date) -> Seq<char> {
    spec_four_digits(d.year as int) + "-"@ + spec_two_digits(d.month as int) + "-"@
        + spec_two_digits(d.day as int)
}

/// Appends the `YYYY-MM-DD` rendering of `d` to `out`.
pub fn push_date(d: Date, out: &mut String)
    requires
        d.wf(),
    ensures
        final(out)@ == old(out)@ + spec_date_str(d),
{
    proof {
        reveal_strlit("-");
    }
    push_four_digits(d.year as u16, out);
    out.append("-");
    push_two_digits(d.month, out);
    out.append("-");
    push_two_digits(d.day, out);
    proof {
        assert(final(out)@ == old(out)@ + spec_date_str(d));
    }
}

/// One line of the tabular rendering: the date, two spaces, the amount.
pub open spec fn spec_row_line(r: IncomeRecord) -> Seq<char> {
    spec_date_str(r.date) + "  "@ + spec_money_str(r.amount as int) + "\n"@
}

/// The tabular rendering of the records, one line each, in order.
pub open spec fn spec_rows_text(rs: Seq<IncomeRecord>) -> Seq<char>
    decreases rs.len(),
{
    if rs.len() == 0 {
        Seq::empty()
    } else {
        spec_rows_text(rs.drop_last()) + spec_row_line(rs.last())
    }
}

/// Appends the tabular rendering of every record to `out`.
fn push_rows(rs: &Vec<IncomeRecord>, out: &mut String)
    requires
        forall|i: int| 0 <= i < rs@.len() ==> (#[trigger] rs@[i]).wf(),
    ensures
        final(out)@ == old(out)@ + spec_rows_text(rs@),
{
    proof {
        reveal_strlit("  ");
        reveal_strlit("\n");
        assert(rs@.subrange(0, 0) =~= Seq::<IncomeRecord>::empty());
        assert(out@ =~= old(out)@ + spec_rows_text(rs@.subrange(0, 0)));
    }
    let n = rs.len();
    let mut i: usize = 0;
    while i < n
        invariant
            i <= n,
            n == rs@.len(),
            forall|k: int| 0 <= k < rs@.len() ==> (#[trigger] rs@[k]).wf(),
            out@ == old(out)@ + spec_rows_text(rs@.subrange(0, i as int)),
        decreases n - i,
    {
        let r = rs[i];
        proof {
            let pre = rs@.subrange(0, i as int);
            let post = rs@.subrange(0, i + 1 as int);
            assert(post.drop_last() =~= pre);
            assert(post.last() == rs@[i as int]);
            assert(rs@[i as int].wf());
        }
        push_date(r.date, out);
        out.append("  ");
        push_money(r.amount as i128, out);
        out.append("\n");
        proof {
            assert(out@ == old(out)@ + spec_rows_text(rs@.subrange(0, i + 1 as int)));
        }
        i += 1;
    }
    proof {
        assert(rs@.subrange(0, n as int) =~= rs@);
    }
}

/// The rounded-to-cents average of a well-formed analysis.
pub open spec fn spec_avg_cents(a: YearAnalysis) -> int {
    spec_round_div(a.total_income as int, a.count as int)
}

/// The rounded-to-cents 24%-of-total figure of a well-formed analysis.
pub open spec fn spec_tfp_cents(a: YearAnalysis) -> int {
    spec_round_div(a.twenty_four_percent as int, 100)
}

/// The full report text for a year-scoped analysis.
pub open spec fn spec_render_year(a: YearAnalysis, y: int) -> Seq<char> {
    "\nIncome Data for "@ + spec_dec_str(y) + ":\n"@ + spec_rows_text(a.records@)
        + "Total Income for "@ + spec_dec_str(y) + ": "@ + spec_money_str(a.total_income as int)
        + "\n"@ + "Average Income for "@ + spec_dec_str(y) + ": "@ + spec_money_str(
        spec_avg_cents(a),
    ) + "\n"@ + "Highest Income for "@ + spec_dec_str(y) + ": "@ + spec_money_str(
        a.max_income as int,
    ) + "\n"@ + "Lowest Income for "@ + spec_dec_str(y) + ": "@ + spec_money_str(
        a.min_income as int,
    ) + "\n"@ + "24% of Total Income for "@ + spec_dec_str(y) + ": "@ + spec_money_str(
        spec_tfp_cents(a),
    ) + "\n"@
}

/// The full report text for the overall analysis.
pub open spec fn spec_render_overall(a: YearAnalysis) -> Seq<char> {
    "\nOverall Income Data:\n"@ + spec_rows_text(a.records@) + "Total Income (Overall): "@
        + spec_money_str(a.total_income as int) + "\n"@ + "Average Income (Overall): "@
        + spec_money_str(spec_avg_cents(a)) + "\n"@ + "Highest Income (Overall): "@
        + spec_money_str(a.max_income as int) + "\n"@ + "Lowest Income (Overall): "@
        + spec_money_str(a.min_income as int) + "\n"@ + "24% of Total Income (Overall): "@
        + spec_money_str(spec_tfp_cents(a)) + "\n"@
}

/// Rounding a quotient never exceeds the dividend's magnitude.
proof fn lemma_round_div_mag(a: int, b: int)
    requires
        b >= 1,
    ensures
        a >= 0 ==> 0 <= spec_round_div(a, b) <= a,
        a < 0 ==> a <= spec_round_div(a, b) <= 0,
{
    if a >= 0 {
        assert(0 <= (a + b / 2) / b <= a) by (nonlinear_arith)
            requires
                a >= 0,
                b >= 1;
    } else {
        assert(0 <= ((-a) + b / 2) / b <= -a) by (nonlinear_arith)
            requires
                -a >= 0,
                b >= 1;
    }
}

/// Bounds every displayed figure of a well-formed analysis.
proof fn lemma_display_bounds(a: YearAnalysis)
    requires
        a.wf(),
    ensures
        -MAX_DISPLAY_E4 <= a.total_income as int <= MAX_DISPLAY_E4,
        -MAX_DISPLAY_E4 <= a.twenty_four_percent as int <= MAX_DISPLAY_E4,
        -MAX_DISPLAY_E4 <= a.max_income as int <= MAX_DISPLAY_E4,
        -MAX_DISPLAY_E4 <= a.min_income as int <= MAX_DISPLAY_E4,
        -MAX_DISPLAY_E4 <= spec_avg_cents(a) <= MAX_DISPLAY_E4,
        -MAX_DISPLAY_E4 <= spec_tfp_cents(a) <= MAX_DISPLAY_E4,
{
    let m = crate::MAX_AMOUNT_CENTS as int;
    let len = a.records@.len() as int;
    assert(m * len <= m * 0x1_0000_0000_0000_0000) by (nonlinear_arith)
        requires
            0 <= len,
            len < 0x1_0000_0000_0000_0000,
            m == crate::MAX_AMOUNT_CENTS as int;
    assert(a.count >= 1);
    lemma_round_div_mag(a.total_income as int, a.count as int);
    lemma_round_div_mag(a.twenty_four_percent as int, 100);
}

/// Renders a year-scoped analysis as the report text the tool prints.
pub fn print_year_analysis(analysis: &YearAnalysis) -> (r: String)
    requires
        analysis.wf(),
        analysis.scope matches Scope::Year(_),
    ensures
        analysis.scope matches Scope::Year(y) ==> r@ == spec_render_year(*analysis, y as int),
{
    proof {
        reveal_strlit("\nIncome Data for ");
        reveal_strlit(":\n");
        reveal_strlit("Total Income for ");
        reveal_strlit("Average Income for ");
        reveal_strlit("Highest Income for ");
        reveal_strlit("Lowest Income for ");
        reveal_strlit("24% of Total Income for ");
        reveal_strlit(": ");
        reveal_strlit("\n");
        lemma_display_bounds(*analysis);
        assert(analysis.records@[0].wf());
    }
    let y: i32 = match analysis.scope {
        Scope::Year(y) => y,
        Scope::Overall => 0,
    };
    let avg = round_div(analysis.total_income, analysis.count as i128);
    let tfp = round_div(analysis.twenty_four_percent, 100);
    let mut out = String::new();
    out.append("\nIncome Data for ");
    push_dec(y as u128, &mut out);
    out.append(":\n");
    push_rows(&analysis.records, &mut out);
    out.append("Total Income for ");
    push_dec(y as u128, &mut out);
    out.append(": ");
    push_money(analysis.total_income, &mut out);
    out.append("\n");
    out.append("Average Income for ");
    push_dec(y as u128, &mut out);
    out.append(": ");
    push_money(avg, &mut out);
    out.append("\n");
    out.append("Highest Income for ");
    push_dec(y as u128, &mut out);
    out.append(": ");
    push_money(analysis.max_income as i128, &mut out);
    out.append("\n");
    out.append("Lowest Income for ");
    push_dec(y as u128, &mut out);
    out.append(": ");
    push_money(analysis.min_income as i128, &mut out);
    out.append("\n");
    out.append("24% of Total Income for ");
    push_dec(y as u128, &mut out);
    out.append(": ");
    push_money(tfp, &mut out);
    out.append("\n");
    out
}

/// Renders the overall analysis as the report text the tool prints.
pub fn print_overall_analysis(analysis: &YearAnalysis) -> (r: String)
    requires
        analysis.wf(),
    ensures
        r@ == spec_render_overall(*analysis),
{
    proof {
        reveal_strlit("\nOverall Income Data:\n");
        reveal_strlit("Total Income (Overall): ");
        reveal_strlit("Average Income (Overall): ");
        reveal_strlit("Highest Income (Overall): ");
        reveal_strlit("Lowest Income (Overall): ");
        reveal_strlit("24% of Total Income (Overall): ");
        reveal_strlit("\n");
        lemma_display_bounds(*analysis);
    }
    let avg = round_div(analysis.total_income, analysis.count as i128);
    let tfp = round_div(analysis.twenty_four_percent, 100);
    let mut out = String::new();
    out.append("\nOverall Income Data:\n");
    push_rows(&analysis.records, &mut out);
    out.append("Total Income (Overall): ");
    push_money(analysis.total_income, &mut out);
    out.append("\n");
    out.append("Average Income (Overall): ");
    push_money(avg, &mut out);
    out.append("\n");
    out.append("Highest Income (Overall): ");
    push_money(analysis.max_income as i128, &mut out);
    out.append("\n");
    out.append("Lowest Income (Overall): ");
    push_money(analysis.min_income as i128, &mut out);
    out.append("\n");
    out.append("24% of Total Income (Overall): ");
    push_money(tfp, &mut out);
    out.append("\n");
    out
}

} // verus!
