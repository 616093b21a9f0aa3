//! The analyzer: descriptive statistics over an income collection, per
//! calendar year or across all loaded records.
//!
//! All statistics are exact. Amounts are integer cents, so the total, the
//! maximum and the minimum are integers in cents; the 24%-of-total figure
//! is an integer in ten-thousandths of a dollar (`24 * total` of them equal
//! 24% of `total` cents exactly); and the average is the exact rational
//! `total / count`, carried as that pair. Rounding happens only in the
//! report renderer.

use vstd::prelude::*;
use vstd::arithmetic::mul::lemma_mul_inequality;
use crate::records::{IncomeCollection, IncomeRecord};
use crate::errors::IncomeError;
use crate::MAX_AMOUNT_CENTS;

verus! {

/// What an analysis describes: one calendar year, or all loaded records.
#[derive(Clone, Copy, PartialEq, Eq, Structural, Debug)]
pub enum Scope {
    Year(i32),
    Overall,
}

/// The sum, in cents, of the amounts of `s`.
pub open spec fn spec_sum(s: Seq<IncomeRecord>) -> int
    decreases s.len(),
{
    if s.len() == 0 {
        0
    } else {
        spec_sum(s.drop_last()) + s.last().amount as int
    }
}

/// The largest amount, in cents, among `s` (meaningful when `s` is
/// non-empty).
pub open spec fn spec_max(s: Seq<IncomeRecord>) -> int
    recommends
        s.len() > 0,
    decreases s.len(),
{
    if s.len() <= 1 {
        if s.len() == 1 {
            s[0].amount as int
        } else {
            0
        }
    } else {
        let m = spec_max(s.drop_last());
        if s.last().amount as int > m {
            s.last().amount as int
        } else {
            m
        }
    }
}

/// The smallest amount, in cents, among `s` (meaningful when `s` is
/// non-empty).
pub open spec fn spec_min(s: Seq<IncomeRecord>) -> int
    recommends
        s.len() > 0,
    decreases s.len(),
{
    if s.len() <= 1 {
        if s.len() == 1 {
            s[0].amount as int
        } else {
            0
        }
    } else {
        let m = spec_min(s.drop_last());
        if (s.last().amount as int) < m {
            s.last().amount as int
        } else {
            m
        }
    }
}

/// The records of `s` dated in year `y`, in order.
pub open spec fn spec_in_year(s: Seq<IncomeRecord>, y: int) -> Seq<IncomeRecord>
    decreases s.len(),
{
    if s.len() == 0 {
        Seq::empty()
    } else {
        let rest = spec_in_year(s.drop_last(), y);
        if s.last().date.year as int == y {
            rest.push(s.last())
        } else {
            rest
        }
    }
}

/// A computed summary of one scope: the records it covers (the retained
/// tabular view) and the derived statistics.
#[derive(Clone, Debug)]
pub struct YearAnalysis {
    /// The year analyzed, or `Overall`.
    pub scope: Scope,
    /// The records the statistics were computed from, in collection order.
    pub records: Vec<IncomeRecord>,
    /// Sum of the amounts, in cents.
    pub total_income: i128,
    /// How many records the scope holds; the exact average income is the
    /// rational `total_income / count` cents.
    pub count: usize,
    /// Largest amount, in cents.
    pub max_income: i64,
    /// Smallest amount, in cents.
    pub min_income: i64,
    /// 24% of the total, exact, in ten-thousandths of a dollar.
    pub twenty_four_percent: i128,
}

impl YearAnalysis {
    /// The invariant every analysis result satisfies: each statistic is
    /// the stated function of exactly the retained records, of which there
    /// is at least one, and a year scope holds only records of that year.
    pub open spec fn wf(self) -> bool {
        &&& self.records@.len() >= 1
        &&& self.count == self.records@.len()
        &&& forall|i: int| 0 <= i < self.records@.len() ==> (#[trigger] self.records@[i]).wf()
        &&& self.total_income as int == spec_sum(self.records@)
        &&& self.max_income as int == spec_max(self.records@)
        &&& self.min_income as int == spec_min(self.records@)
        &&& self.twenty_four_percent as int == 24 * self.total_income as int
        &&& self.scope matches Scope::Year(y) ==> forall|i: int|
            0 <= i < self.records@.len() ==> (#[trigger] self.records@[i]).date.year == y
        &&& -((MAX_AMOUNT_CENTS as int) * self.records@.len()) <= self.total_income as int
        &&& self.total_income as int <= (MAX_AMOUNT_CENTS as int) * self.records@.len()
    }

    /// Whether the exact average income equals the given number of cents,
    /// that is, whether `total_income / count == cents` as rationals.
    pub fn average_equals_cents(&self, cents: i64) -> (r: bool)
        requires
            self.wf(),
            -MAX_AMOUNT_CENTS <= cents <= MAX_AMOUNT_CENTS,
        ensures
            r == (self.total_income as int == cents as int * self.count as int),
    {
        proof {
            assert((cents as int) * (self.count as int) <= (MAX_AMOUNT_CENTS as int)
                * 0x1_0000_0000_0000_0000 && -((MAX_AMOUNT_CENTS as int)
                * 0x1_0000_0000_0000_0000) <= (cents as int) * (self.count as int)) by (nonlinear_arith)
                requires
                    -MAX_AMOUNT_CENTS <= cents as int,
                    cents as int <= MAX_AMOUNT_CENTS,
                    0 <= self.count as int,
                    (self.count as int) < 0x1_0000_0000_0000_0000;
        }
        self.total_income == (cents as i128) * (self.count as i128)
    }
}

/// Folds the statistics over a non-empty record vector.
fn compute_stats(recs: &Vec<IncomeRecord>) -> (r: (i128, i64, i64))
    requires
        recs@.len() >= 1,
        forall|i: int| 0 <= i < recs@.len() ==> (#[trigger] recs@[i]).wf(),
    ensures
        r.0 as int == spec_sum(recs@),
        r.1 as int == spec_max(recs@),
        r.2 as int == spec_min(recs@),
        -((MAX_AMOUNT_CENTS as int) * recs@.len()) <= r.0 as int,
        r.0 as int <= (MAX_AMOUNT_CENTS as int) * recs@.len(),
{
    let ghost m: int = MAX_AMOUNT_CENTS as int;
    let first = recs[0];
    let mut total: i128 = first.amount as i128;
    let mut max_a: i64 = first.amount;
    let mut min_a: i64 = first.amount;
    let mut i: usize = 1;
    proof {
        let p = recs@.subrange(0, 1);
        assert(p.len() == 1);
        assert(p[0] == recs@[0]);
        assert(recs@[0].wf());
        assert(p.drop_last() =~= Seq::<IncomeRecord>::empty());
        assert(spec_sum(p.drop_last()) == 0);
        assert(p.last() == recs@[0]);
        assert(spec_sum(p) == recs@[0].amount as int);
        assert(spec_max(p) == recs@[0].amount as int);
        assert(spec_min(p) == recs@[0].amount as int);
    }
    while i < recs.len()
        invariant
            1 <= i <= recs@.len(),
            forall|k: int| 0 <= k < recs@.len() ==> (#[trigger] recs@[k]).wf(),
            total as int == spec_sum(recs@.subrange(0, i as int)),
            max_a as int == spec_max(recs@.subrange(0, i as int)),
            min_a as int == spec_min(recs@.subrange(0, i as int)),
            -(m * i) <= total as int,
            total as int <= m * i,
            m == MAX_AMOUNT_CENTS as int,
        decreases recs@.len() - i,
    {
        let r = recs[i];
        proof {
            let pre = recs@.subrange(0, i as int);
            let post = recs@.subrange(0, i + 1 as int);
            assert(post.drop_last() =~= pre);
            assert(post.last() == recs@[i as int]);
            assert(recs@[i as int].wf());
            assert(m * (i + 1 as int) == m * (i as int) + m) by (nonlinear_arith);
            assert(m * (i + 1 as int) <= m * 0x1_0000_0000_0000_0000) by (nonlinear_arith)
                requires
                    0 < i + 1 as int,
                    i + 1 as int <= 0x1_0000_0000_0000_0000,
                    m == MAX_AMOUNT_CENTS as int;
            assert(m * 0x1_0000_0000_0000_0000 <= 0x7fff_ffff_ffff_ffff_ffff_ffff_ffff_ffff);
            assert(recs@[i as int].wf());
        }
        total = total + r.amount as i128;
        if r.amount > max_a {
            max_a = r.amount;
        }
        if r.amount < min_a {
            min_a = r.amount;
        }
        i += 1;
    }
    proof {
        assert(recs@.subrange(0, recs@.len() as int) =~= recs@);
    }
    (total, max_a, min_a)
}

/// Analyzes one calendar year of a collection.
///
/// Filters the collection to the records dated in `year`; fails with
/// `NoData` exactly when no record matches; otherwise returns the
/// statistics of exactly those records, tagged with the year.
pub fn analyze_year_data(year: i32, income_data: &IncomeCollection) -> (r: Result<
    YearAnalysis,
    IncomeError,
>)
    requires
        income_data.wf(),
    ensures
        r is Ok <==> spec_in_year(income_data@, year as int).len() > 0,
        r matches Ok(a) ==> {
            &&& a.wf()
            &&& a.scope == Scope::Year(year)
            &&& a.records@ == spec_in_year(income_data@, year as int)
            &&& a.total_income as int == spec_sum(spec_in_year(income_data@, year as int))
            &&& a.max_income as int == spec_max(spec_in_year(income_data@, year as int))
            &&& a.min_income as int == spec_min(spec_in_year(income_data@, year as int))
            &&& a.count == spec_in_year(income_data@, year as int).len()
            &&& a.twenty_four_percent as int == 24 * a.total_income as int
        },
        r matches Err(e) ==> e == (IncomeError::NoData { year }),
{
    let recs = income_data.records();
    let n = recs.len();
    let mut out: Vec<IncomeRecord> = Vec::new();
    let mut i: usize = 0;
    while i < n
        invariant
            i <= n,
            n == income_data@.len(),
            recs@ == income_data@,
            income_data.wf(),
            out@ == spec_in_year(income_data@.subrange(0, i as int), year as int),
            forall|k: int| 0 <= k < out@.len() ==> (#[trigger] out@[k]).wf(),
            forall|k: int| 0 <= k < out@.len() ==> (#[trigger] out@[k]).date.year == year,
        decreases n - i,
    {
        let r = recs[i];
        proof {
            let pre = income_data@.subrange(0, i as int);
            let post = income_data@.subrange(0, i + 1 as int);
            assert(post.drop_last() =~= pre);
            assert(post.last() == income_data@[i as int]);
            assert(income_data@[i as int].wf());
        }
        if r.date.year == year {
            out.push(r);
        }
        i += 1;
    }
    proof {
        assert(income_data@.subrange(0, n as int) =~= income_data@);
    }
    if out.len() == 0 {
        return Err(IncomeError::NoData { year });
    }
    let (total, max_a, min_a) = compute_stats(&out);
    let count = out.len();
    let twenty_four: i128 = 24 * total;
    proof {
        lemma_mul_inequality(out@.len() as int, 0x1_0000_0000_0000_0000, MAX_AMOUNT_CENTS as int);
        assert((MAX_AMOUNT_CENTS as int) * (out@.len() as int) <= (MAX_AMOUNT_CENTS as int)
            * 0x1_0000_0000_0000_0000) by (nonlinear_arith)
            requires
                0 < out@.len() as int,
                out@.len() as int <= 0x1_0000_0000_0000_0000;
    }
    Ok(
        YearAnalysis {
            scope: Scope::Year(year),
            records: out,
            total_income: total,
            count,
            max_income: max_a,
            min_income: min_a,
            twenty_four_percent: twenty_four,
        },
    )
}

/// Analyzes the whole collection, with no year filter.
///
/// Fails with `Compute` exactly when the collection is empty (aggregates
/// of nothing cannot be derived); otherwise returns the statistics of all
/// records, tagged `Overall`.
pub fn analyze_overall_data(income_data: &IncomeCollection) -> (r: Result<
    YearAnalysis,
    IncomeError,
>)
    requires
        income_data.wf(),
    ensures
        r is Ok <==> income_data@.len() > 0,
        r matches Ok(a) ==> {
            &&& a.wf()
            &&& a.scope == Scope::Overall
            &&& a.records@ == income_data@
            &&& a.total_income as int == spec_sum(income_data@)
            &&& a.max_income as int == spec_max(income_data@)
            &&& a.min_income as int == spec_min(income_data@)
            &&& a.count == income_data@.len()
            &&& a.twenty_four_percent as int == 24 * a.total_income as int
        },
        r matches Err(e) ==> e == IncomeError::Compute,
{
    let recs = income_data.records();
    let n = recs.len();
    if n == 0 {
        return Err(IncomeError::Compute);
    }
    let mut out: Vec<IncomeRecord> = Vec::new();
    let mut i: usize = 0;
    while i < n
        invariant
            i <= n,
            n == income_data@.len(),
            recs@ == income_data@,
            income_data.wf(),
            out@ == income_data@.subrange(0, i as int),
        decreases n - i,
    {
        out.push(recs[i]);
        proof {
            assert(out@ =~= income_data@.subrange(0, i + 1 as int));
        }
        i += 1;
    }
    proof {
        assert(out@ =~= income_data@);
        assert(forall|k: int| 0 <= k < out@.len() ==> (#[trigger] out@[k]).wf());
    }
    let (total, max_a, min_a) = compute_stats(&out);
    let count = out.len();
    let twenty_four: i128 = 24 * total;
    proof {
        lemma_mul_inequality(out@.len() as int, 0x1_0000_0000_0000_0000, MAX_AMOUNT_CENTS as int);
        assert((MAX_AMOUNT_CENTS as int) * (out@.len() as int) <= (MAX_AMOUNT_CENTS as int)
            * 0x1_0000_0000_0000_0000) by (nonlinear_arith)
            requires
                0 < out@.len() as int,
                out@.len() as int <= 0x1_0000_0000_0000_0000;
    }
    Ok(
        YearAnalysis {
            scope: Scope::Overall,
            records: out,
            total_income: total,
            count,
            max_income: max_a,
            min_income: min_a,
            twenty_four_percent: twenty_four,
        },
    )
}

/// A record dated outside year `y` never contributes to that year's
/// analysis: appending it to a collection leaves the year-filtered record
/// set — and with it every statistic derived from that set, the total, the
/// average, the maximum and the minimum — unchanged.
pub proof fn lemma_year_filter_excludes(s: Seq<IncomeRecord>, r: IncomeRecord, y: int)
    requires
        r.date.year as int != y,
    ensures
        spec_in_year(s.push(r), y) == spec_in_year(s, y),
        spec_sum(spec_in_year(s.push(r), y)) == spec_sum(spec_in_year(s, y)),
        spec_max(spec_in_year(s.push(r), y)) == spec_max(spec_in_year(s, y)),
        spec_min(spec_in_year(s.push(r), y)) == spec_min(spec_in_year(s, y)),
{
    assert(s.push(r).drop_last() =~= s);
    assert(s.push(r).last() == r);
}

/// In every well-formed analysis result the 24%-of-total figure is exactly
/// 24% of the total: the field holds ten-thousandths of a dollar, and
/// `24 * total` of them equal `0.24 * total` cents with no rounding.
pub proof fn lemma_twenty_four_percent_exact(a: YearAnalysis)
    requires
        a.wf(),
    ensures
        a.twenty_four_percent as int == 24 * (a.total_income as int),
        100 * (a.twenty_four_percent as int) == 24 * (100 * (a.total_income as int)),
{
}

} // verus!
