//! The data model: a dated income record, the raw tabular view read from a
//! CSV file, and the date-keyed income collection the analyzers consume.

use vstd::prelude::*;
use crate::dates::Date;
use crate::MAX_AMOUNT_CENTS;

verus! {

/// One income observation: a calendar date and an amount in whole cents.
#[derive(Clone, Copy, PartialEq, Eq, Structural, Debug)]
pub struct IncomeRecord {
    pub date: Date,
    /// The amount in cents; dollars are worth 100 of these.
    pub amount: i64,
}

impl IncomeRecord {
    /// A record is well formed when its date is real and its amount is
    /// within the supported monetary range.
    pub open spec fn wf(self) -> bool {
        &&& self.date.wf()
        &&& -(MAX_AMOUNT_CENTS as int) <= self.amount as int <= MAX_AMOUNT_CENTS as int
    }
}

/// Whether some record in `s` carries date `d`.
pub open spec fn spec_contains_date(s: Seq<IncomeRecord>, d: Date) -> bool {
    exists|i: int| 0 <= i < s.len() && s[i].date == d
}

/// The index of the record carrying date `d` (meaningful when the dates of
/// `s` are unique and `d` occurs).
pub open spec fn spec_idx_of(s: Seq<IncomeRecord>, d: Date) -> int {
    choose|i: int| 0 <= i < s.len() && s[i].date == d
}

/// The amount stored under date `d`, if any.
pub open spec fn spec_get(s: Seq<IncomeRecord>, d: Date) -> Option<int> {
    if spec_contains_date(s, d) {
        Some(s[spec_idx_of(s, d)].amount as int)
    } else {
        None
    }
}

/// A read-only mapping from calendar date to income amount, with unique
/// dates; duplicate insertions overwrite (last write wins).
///
/// Records keep their insertion order, which is the order reports list
/// them in.
#[derive(Clone, Debug)]
pub struct IncomeCollection {
    records: Vec<IncomeRecord>,
}

impl View for IncomeCollection {
    type V = Seq<IncomeRecord>;

    closed spec fn view(&self) -> Seq<IncomeRecord> {
        self.records@
    }
}

impl IncomeCollection {
    /// Every record is well formed and no two records share a date.
    pub open spec fn wf(self) -> bool {
        &&& forall|i: int| 0 <= i < self@.len() ==> (#[trigger] self@[i]).wf()
        &&& forall|i: int, j: int|
            0 <= i < j < self@.len() ==> self@[i].date != self@[j].date
    }

    /// An empty collection.
    pub fn new() -> (c: IncomeCollection)
        ensures
            c@ == Seq::<IncomeRecord>::empty(),
            c.wf(),
    {
        IncomeCollection { records: Vec::new() }
    }

    /// The number of distinct dates held.
    pub fn len(&self) -> (n: usize)
        ensures
            n == self@.len(),
    {
        self.records.len()
    }

    /// The records, in insertion order.
    pub fn records(&self) -> (r: &Vec<IncomeRecord>)
        ensures
            r@ == self@,
    {
        &self.records
    }

    /// Stores `amount` under `date`; a date already present keeps its place
    /// in the order but takes the new amount (last write wins).
    pub fn insert(&mut self, date: Date, amount: i64)
        requires
            old(self).wf(),
            date.wf(),
            -MAX_AMOUNT_CENTS <= amount <= MAX_AMOUNT_CENTS,
        ensures
            final(self).wf(),
            spec_get(final(self)@, date) == Some(amount as int),
            forall|d: Date|
                d != date ==> spec_get(final(self)@, d) == spec_get(old(self)@, d),
            final(self)@ == if spec_contains_date(old(self)@, date) {
                old(self)@.update(spec_idx_of(old(self)@, date), IncomeRecord { date, amount })
            } else {
                old(self)@.push(IncomeRecord { date, amount })
            },
    {
        let rec = IncomeRecord { date, amount };
        let ghost s0 = self@;
        let n = self.records.len();
        let mut i: usize = 0;
        while i < n
            invariant
                i <= n,
                n == s0.len(),
                s0 == old(self)@,
                self@ == s0,
                self.records@ == s0,
                rec == (IncomeRecord { date, amount }),
                rec.wf(),
                forall|k: int| 0 <= k < s0.len() ==> (#[trigger] s0[k]).wf(),
                forall|k: int, l: int| 0 <= k < l < s0.len() ==> s0[k].date != s0[l].date,
                forall|k: int| 0 <= k < i ==> s0[k].date != date,
            decreases n - i,
        {
            if self.records[i].date == date {
                proof {
                    assert(s0[i as int].date == date);
                    assert(spec_contains_date(s0, date));
                    let j = spec_idx_of(s0, date);
                    assert(0 <= j < s0.len() && s0[j].date == date);
                    assert(j == i as int);
                    lemma_insert_update(s0, i as int, rec);
                }
                self.records[i] = rec;
                return ;
            }
            i += 1;
        }
        self.records.push(rec);
        proof {
            assert(!spec_contains_date(s0, date));
            lemma_insert_push(s0, rec);
        }
    }

    /// Looks up the amount stored under `date`.
    pub fn get(&self, date: Date) -> (r: Option<i64>)
        requires
            self.wf(),
        ensures
            match r {
                Some(a) => spec_get(self@, date) == Some(a as int),
                None => spec_get(self@, date) is None,
            },
    {
        let n = self.records.len();
        let mut i: usize = 0;
        while i < n
            invariant
                i <= n,
                n == self@.len(),
                self.wf(),
                forall|k: int| 0 <= k < i ==> self@[k].date != date,
            decreases n - i,
        {
            if self.records[i].date == date {
                proof {
                    assert(spec_contains_date(self@, date)) by {
                        assert(self@[i as int].date == date);
                    }
                    let j = spec_idx_of(self@, date);
                    assert(0 <= j < self@.len() && self@[j].date == date);
                    assert(j == i as int);
                }
                return Some(self.records[i].amount);
            }
            i += 1;
        }
        proof {
            assert(!spec_contains_date(self@, date));
        }
        None
    }
}

/// Overwriting the record at the (unique) index of `r.date` behaves as a
/// map insertion: that date takes the new amount, every other date keeps
/// its binding, and well-formedness is preserved.
proof fn lemma_insert_update(s: Seq<IncomeRecord>, i: int, r: IncomeRecord)
    requires
        0 <= i < s.len(),
        s[i].date == r.date,
        r.wf(),
        forall|k: int| 0 <= k < s.len() ==> (#[trigger] s[k]).wf(),
        forall|k: int, l: int| 0 <= k < l < s.len() ==> s[k].date != s[l].date,
    ensures
        ({
            let t = s.update(i, r);
            &&& forall|k: int| 0 <= k < t.len() ==> (#[trigger] t[k]).wf()
            &&& forall|k: int, l: int| 0 <= k < l < t.len() ==> t[k].date != t[l].date
            &&& spec_get(t, r.date) == Some(r.amount as int)
            &&& forall|d: Date| d != r.date ==> spec_get(t, d) == spec_get(s, d)
        }),
{
    let t = s.update(i, r);
    assert(spec_contains_date(t, r.date)) by {
        assert(t[i].date == r.date);
    }
    let j = spec_idx_of(t, r.date);
    assert(0 <= j < t.len() && t[j].date == r.date);
    assert(j == i);
    assert forall|d: Date| d != r.date implies spec_get(t, d) == spec_get(s, d) by {
        if spec_contains_date(s, d) {
            let k = spec_idx_of(s, d);
            assert(0 <= k < s.len() && s[k].date == d);
            assert(k != i);
            assert(t[k].date == d);
            assert(spec_contains_date(t, d));
            let k2 = spec_idx_of(t, d);
            assert(0 <= k2 < t.len() && t[k2].date == d);
            assert(k2 != i);
            assert(s[k2].date == d);
            assert(k2 == k);
        } else {
            if spec_contains_date(t, d) {
                let k2 = spec_idx_of(t, d);
                assert(0 <= k2 < t.len() && t[k2].date == d);
                assert(k2 != i);
                assert(s[k2].date == d);
            }
        }
    }
}

/// Appending a record with a fresh date behaves as a map insertion.
proof fn lemma_insert_push(s: Seq<IncomeRecord>, r: IncomeRecord)
    requires
        !spec_contains_date(s, r.date),
        r.wf(),
        forall|k: int| 0 <= k < s.len() ==> (#[trigger] s[k]).wf(),
        forall|k: int, l: int| 0 <= k < l < s.len() ==> s[k].date != s[l].date,
    ensures
        ({
            let t = s.push(r);
            &&& forall|k: int| 0 <= k < t.len() ==> (#[trigger] t[k]).wf()
            &&& forall|k: int, l: int| 0 <= k < l < t.len() ==> t[k].date != t[l].date
            &&& spec_get(t, r.date) == Some(r.amount as int)
            &&& forall|d: Date| d != r.date ==> spec_get(t, d) == spec_get(s, d)
        }),
{
    let t = s.push(r);
    assert forall|k: int, l: int| 0 <= k < l < t.len() implies t[k].date != t[l].date by {
        if l == s.len() as int {
            assert(t[k] == s[k]);
            if s[k].date == r.date {
                assert(spec_contains_date(s, r.date));
            }
        }
    }
    assert(spec_contains_date(t, r.date)) by {
        assert(t[s.len() as int].date == r.date);
    }
    let j = spec_idx_of(t, r.date);
    assert(0 <= j < t.len() && t[j].date == r.date);
    assert(j == s.len() as int) by {
        if j < s.len() {
            assert(s[j].date == r.date);
        }
    }
    assert forall|d: Date| d != r.date implies spec_get(t, d) == spec_get(s, d) by {
        if spec_contains_date(s, d) {
            let k = spec_idx_of(s, d);
            assert(0 <= k < s.len() && s[k].date == d);
            assert(t[k].date == d);
            assert(spec_contains_date(t, d));
            let k2 = spec_idx_of(t, d);
            assert(0 <= k2 < t.len() && t[k2].date == d);
            assert(k2 < s.len());
            assert(s[k2].date == d);
            assert(k2 == k);
        } else {
            if spec_contains_date(t, d) {
                let k2 = spec_idx_of(t, d);
                assert(0 <= k2 < t.len() && t[k2].date == d);
                assert(k2 < s.len());
                assert(s[k2].date == d);
            }
        }
    }
}

/// One raw row of the tabular view: the text of the `date` cell and the
/// text of the `amount` cell, exactly as they stood in the file.
#[derive(Clone, Debug)]
pub struct TableRow {
    pub date: String,
    pub amount: String,
}

impl View for TableRow {
    type V = (Seq<char>, Seq<char>);

    open spec fn view(&self) -> (Seq<char>, Seq<char>) {
        (self.date@, self.amount@)
    }
}

/// The tabular view of the input: the `date` and `amount` cells of each
/// data row, in file order, still as raw text.
#[derive(Clone, Debug)]
pub struct IncomeTable {
    rows: Vec<TableRow>,
}

impl View for IncomeTable {
    type V = Seq<(Seq<char>, Seq<char>)>;

    closed spec fn view(&self) -> Seq<(Seq<char>, Seq<char>)> {
        self.rows@.map_values(|r: TableRow| r@)
    }
}

impl IncomeTable {
    /// An empty table.
    pub fn new() -> (t: IncomeTable)
        ensures
            t@ == Seq::<(Seq<char>, Seq<char>)>::empty(),
    {
        let t = IncomeTable { rows: Vec::new() };
        proof {
            assert(t@ =~= Seq::<(Seq<char>, Seq<char>)>::empty());
        }
        t
    }

    /// The number of data rows.
    pub fn len(&self) -> (n: usize)
        ensures
            n == self@.len(),
    {
        self.rows.len()
    }

    /// Appends a data row.
    pub fn push_row(&mut self, date: String, amount: String)
        ensures
            final(self)@ == old(self)@.push((date@, amount@)),
    {
        let ghost before = self@;
        self.rows.push(TableRow { date, amount });
        proof {
            assert(final(self)@ =~= before.push((date@, amount@)));
        }
    }

    /// The row at `i`.
    pub fn row(&self, i: usize) -> (r: &TableRow)
        requires
            i < self@.len(),
        ensures
            r@ == self@[i as int],
    {
        &self.rows[i]
    }
}

} // verus!
