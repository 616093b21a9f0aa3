//! The data loader: reads CSV text into the tabular view, converts the
//! table into the date-keyed income collection, and reports the years
//! present.
//!
//! The accepted input grammar: lines separated by `'\n'` (a trailing
//! `'\r'` on a line is dropped, so CRLF files load too, and blank lines
//! are skipped); fields separated by `','`; a header line naming, among
//! any other columns, `date` and `amount`; every data line with exactly
//! as many fields as the header. Dates are strict `YYYY-MM-DD`; amounts
//! are plain signed decimals with at most two significant digits of
//! fraction (further digits must be zero, since amounts are held exactly
//! in cents).

use vstd::prelude::*;
use crate::records::{IncomeTable, IncomeCollection, IncomeRecord, spec_get};
use crate::errors::IncomeError;
use crate::text::{spec_find, lemma_find_first, str_chars, spec_all_digits, spec_digits_val,
    lemma_digits_val_prefix_le, lemma_digits_val_nonneg};
use crate::dates::{Date, spec_parse_date, parse_date, spec_is_digit, spec_digit_val, digit_val};
use crate::MAX_AMOUNT_CENTS;

verus! {

/// The views of a vector of strings.
pub open spec fn views_of(q: Seq<String>) -> Seq<Seq<char>> {
    q.map_values(|x: String| x@)
}

/// The fields of `s` split at every occurrence of `sep`; always at least
/// one field, and empty fields are kept.
pub open spec fn spec_split(s: Seq<char>, sep: char) -> Seq<Seq<char>>
    decreases s.len(),
{
    if s.len() == 0 {
        seq![Seq::<char>::empty()]
    } else {
        let rest = spec_split(s.drop_first(), sep);
        if s[0] == sep {
            seq![Seq::<char>::empty()] + rest
        } else {
            seq![seq![s[0]] + rest[0]] + rest.drop_first()
        }
    }
}

/// A split always yields at least one field.
pub proof fn lemma_split_nonempty(s: Seq<char>, sep: char)
    ensures
        spec_split(s, sep).len() >= 1,
    decreases s.len(),
{
    if s.len() > 0 {
        lemma_split_nonempty(s.drop_first(), sep);
    }
}

/// Splitting at the first separator: if no character before `k` is the
/// separator, and `k` is either the end or a separator position, then the
/// split is the text up to `k` followed by the split of what comes after.
pub proof fn lemma_split_at_first_sep(s: Seq<char>, sep: char, k: int)
    requires
        0 <= k <= s.len(),
        forall|j: int| 0 <= j < k ==> s[j] != sep,
        k == s.len() || s[k] == sep,
    ensures
        k == s.len() ==> spec_split(s, sep) == seq![s],
        k < s.len() ==> spec_split(s, sep) == seq![s.subrange(0, k)] + spec_split(
            s.subrange(k + 1, s.len() as int),
            sep,
        ),
    decreases k,
{
    lemma_split_nonempty(s, sep);
    if k == 0 {
        if s.len() == 0 {
            assert(spec_split(s, sep) =~~= seq![s]);
        } else if s[0] == sep {
            assert(s.subrange(0, 0) =~= Seq::<char>::empty());
            assert(s.subrange(1, s.len() as int) =~= s.drop_first());
            assert(spec_split(s, sep) =~~= seq![s.subrange(0, 0)] + spec_split(
                s.subrange(1, s.len() as int),
                sep,
            ));
        }
    } else {
        let t = s.drop_first();
        let rest = spec_split(t, sep);
        lemma_split_nonempty(t, sep);
        assert(forall|j: int| 0 <= j < k - 1 ==> t[j] != sep);
        lemma_split_at_first_sep(t, sep, k - 1);
        if k == s.len() {
            assert(rest == seq![t]);
            assert(rest[0] == t);
            assert(seq![s[0]] + rest[0] =~= s);
            assert(rest.drop_first() =~= Seq::<Seq<char>>::empty());
            assert(spec_split(s, sep) =~~= seq![s]);
        } else {
            assert(rest == seq![t.subrange(0, k - 1)] + spec_split(
                t.subrange(k, t.len() as int),
                sep,
            ));
            assert(rest[0] == t.subrange(0, k - 1));
            assert(seq![s[0]] + rest[0] =~= s.subrange(0, k));
            assert(rest.drop_first() =~~= spec_split(t.subrange(k, t.len() as int), sep));
            assert(t.subrange(k, t.len() as int) =~= s.subrange(k + 1, s.len() as int));
            assert(spec_split(s, sep) =~~= seq![s.subrange(0, k)] + spec_split(
                s.subrange(k + 1, s.len() as int),
                sep,
            ));
        }
    }
}

/// Splits `s` at every occurrence of `sep`, keeping empty fields.
pub fn split_str(s: &str, sep: char) -> (r: Vec<String>)
    ensures
        views_of(r@) == spec_split(s@, sep),
{
    let v = str_chars(s);
    let n = v.len();
    let mut out: Vec<String> = Vec::new();
    let mut pos: usize = 0;
    proof {
        assert(s@.subrange(0, n as int) =~= s@);
        assert(views_of(out@) =~~= Seq::<Seq<char>>::empty());
        assert(views_of(out@) + spec_split(s@.subrange(0, n as int), sep) =~~= spec_split(
            s@,
            sep,
        ));
    }
    loop
        invariant_except_break
            spec_split(s@, sep) == views_of(out@) + spec_split(
                s@.subrange(pos as int, n as int),
                sep,
            ),
        invariant
            n == s@.len(),
            v@ == s@,
            pos <= n,
        ensures
            views_of(out@) == spec_split(s@, sep),
        decreases n - pos,
    {
        let found = find_from_str(s, &v, pos, sep);
        let ghost suffix = s@.subrange(pos as int, n as int);
        proof {
            lemma_find_first(suffix, sep);
        }
        match found {
            Some(j) => {
                proof {
                    lemma_split_at_first_sep(suffix, sep, j - pos);
                    assert(suffix.subrange(0, j - pos) =~= s@.subrange(pos as int, j as int));
                    assert(suffix.subrange(j - pos + 1, suffix.len() as int) =~= s@.subrange(
                        j + 1 as int,
                        n as int,
                    ));
                }
                let piece = String::from_str(s.substring_char(pos, j));
                let ghost before = views_of(out@);
                out.push(piece);
                proof {
                    assert(views_of(out@) =~~= before.push(s@.subrange(pos as int, j as int)));
                    assert(views_of(out@) + spec_split(s@.subrange(j + 1 as int, n as int), sep)
                        =~~= before + (seq![s@.subrange(pos as int, j as int)] + spec_split(
                        s@.subrange(j + 1 as int, n as int),
                        sep,
                    )));
                }
                pos = j + 1;
            },
            None => {
                proof {
                    lemma_split_at_first_sep(suffix, sep, suffix.len() as int);
                }
                let piece = String::from_str(s.substring_char(pos, n));
                let ghost before = views_of(out@);
                out.push(piece);
                proof {
                    assert(views_of(out@) =~~= before.push(suffix));
                    assert(views_of(out@) =~~= before + seq![suffix]);
                }
                break ;
            },
        }
    }
    out
}

/// Finds the first occurrence of `c` in `s` at or after `from`, where `v`
/// holds the characters of `s`.
fn find_from_str(s: &str, v: &Vec<char>, from: usize, c: char) -> (r: Option<usize>)
    requires
        v@ == s@,
        from <= s@.len(),
    ensures
        ({
            let f = spec_find(s@.subrange(from as int, s@.len() as int), c);
            match r {
                Some(j) => from <= j < s@.len() && f == j - from,
                None => f < 0,
            }
        }),
{
    crate::text::find_from(v, from, c)
}

/// A line with a trailing carriage return loses it; others stay as they
/// are.
pub open spec fn spec_strip_cr(l: Seq<char>) -> Seq<char> {
    if l.len() > 0 && l.last() == '\r' {
        l.drop_last()
    } else {
        l
    }
}

/// The lines of a report, cleaned: each stripped of a trailing carriage
/// return, with blank lines dropped.
pub open spec fn spec_clean(ls: Seq<Seq<char>>) -> Seq<Seq<char>>
    decreases ls.len(),
{
    if ls.len() == 0 {
        Seq::empty()
    } else {
        let rest = spec_clean(ls.drop_last());
        let x = spec_strip_cr(ls.last());
        if x.len() == 0 {
            rest
        } else {
            rest.push(x)
        }
    }
}

/// The cleaned lines of a CSV text.
pub open spec fn spec_lines(t: Seq<char>) -> Seq<Seq<char>> {
    spec_clean(spec_split(t, '\n'))
}

/// The index of the first field of `fs` spelling `name`, or -1.
pub open spec fn spec_field_idx(fs: Seq<Seq<char>>, name: Seq<char>) -> int
    decreases fs.len(),
{
    if fs.len() == 0 {
        -1
    } else if fs[0] == name {
        0
    } else {
        let r = spec_field_idx(fs.drop_first(), name);
        if r < 0 {
            -1
        } else {
            r + 1
        }
    }
}

/// `spec_field_idx` names the first match: negative means no field spells
/// `name`; otherwise it is the least index of such a field.
pub proof fn lemma_field_idx_first(fs: Seq<Seq<char>>, name: Seq<char>)
    ensures
        spec_field_idx(fs, name) < 0 ==> forall|i: int| 0 <= i < fs.len() ==> fs[i] != name,
        spec_field_idx(fs, name) >= 0 ==> {
            &&& spec_field_idx(fs, name) < fs.len()
            &&& fs[spec_field_idx(fs, name)] == name
            &&& forall|i: int| 0 <= i < spec_field_idx(fs, name) ==> fs[i] != name
        },
    decreases fs.len(),
{
    if fs.len() > 0 && fs[0] != name {
        let t = fs.drop_first();
        lemma_field_idx_first(t, name);
        let r = spec_field_idx(t, name);
        if r < 0 {
            assert forall|i: int| 0 <= i < fs.len() implies fs[i] != name by {
                if i > 0 {
                    assert(t[i - 1] != name);
                }
            }
        } else {
            assert(fs[r + 1] == t[r]);
            assert forall|i: int| 0 <= i < r + 1 implies fs[i] != name by {
                if i > 0 {
                    assert(t[i - 1] != name);
                }
            }
        }
    }
}

/// Finds the first field of `fields` spelling `name`.
fn field_index(fields: &Vec<String>, name: &str) -> (r: Option<usize>)
    ensures
        ({
            let f = spec_field_idx(views_of(fields@), name@);
            match r {
                Some(j) => j < fields@.len() && f == j,
                None => f < 0,
            }
        }),
{
    let ghost fs = views_of(fields@);
    proof {
        lemma_field_idx_first(fs, name@);
    }
    let name_s = String::from_str(name);
    let n = fields.len();
    let mut i: usize = 0;
    while i < n
        invariant
            i <= n,
            n == fields@.len(),
            fs == views_of(fields@),
            name_s@ == name@,
            forall|k: int| 0 <= k < i ==> fs[k] != name@,
            spec_field_idx(fs, name@) < 0 ==> forall|k: int| 0 <= k < fs.len() ==> fs[k] != name@,
            spec_field_idx(fs, name@) >= 0 ==> {
                &&& spec_field_idx(fs, name@) < fs.len()
                &&& fs[spec_field_idx(fs, name@)] == name@
                &&& forall|k: int| 0 <= k < spec_field_idx(fs, name@) ==> fs[k] != name@
            },
        decreases n - i,
    {
        let hit = fields[i].eq(&name_s);
        proof {
            assert(fs[i as int] == fields@[i as int]@);
        }
        if hit {
            proof {
                assert(fs[i as int] == name@);
                let f = spec_field_idx(fs, name@);
                assert(f >= 0);
                if f < i as int {
                    assert(fs[f] != name@);
                }
                if f > i as int {
                    assert(fs[i as int] != name@);
                }
            }
            return Some(i);
        }
        i += 1;
    }
    proof {
        if spec_field_idx(fs, name@) >= 0 {
            assert(fs[spec_field_idx(fs, name@)] == name@);
        }
    }
    None
}

/// The `(date, amount)` cells of one data line, or `None` when the line
/// does not have exactly `w` fields.
pub open spec fn spec_row_of(line: Seq<char>, di: int, ai: int, w: int) -> Option<
    (Seq<char>, Seq<char>),
> {
    let fs = spec_split(line, ',');
    if fs.len() == w {
        Some((fs[di], fs[ai]))
    } else {
        None
    }
}

/// The `(date, amount)` cells of every data line, or `None` when some line
/// is malformed.
pub open spec fn spec_rows(ls: Seq<Seq<char>>, di: int, ai: int, w: int) -> Option<
    Seq<(Seq<char>, Seq<char>)>,
>
    decreases ls.len(),
{
    if ls.len() == 0 {
        Some(Seq::empty())
    } else {
        match spec_rows(ls.drop_last(), di, ai, w) {
            Some(rs) => match spec_row_of(ls.last(), di, ai, w) {
                Some(r) => Some(rs.push(r)),
                None => None,
            },
            None => None,
        }
    }
}

/// A malformed line anywhere makes the whole row extraction fail.
proof fn lemma_rows_prefix_none(ls: Seq<Seq<char>>, di: int, ai: int, w: int, i: int)
    requires
        0 <= i <= ls.len(),
        spec_rows(ls.subrange(0, i), di, ai, w) is None,
    ensures
        spec_rows(ls, di, ai, w) is None,
    decreases ls.len() - i,
{
    if i == ls.len() {
        assert(ls.subrange(0, i) == ls);
    } else {
        let p = ls.subrange(0, i + 1);
        assert(p.drop_last() =~= ls.subrange(0, i));
        assert(spec_rows(p, di, ai, w) is None);
        lemma_rows_prefix_none(ls, di, ai, w, i + 1);
    }
}

/// What loading a CSV text yields: the `(date, amount)` cells of each data
/// row, in order, or `None` when the text has no lines, lacks a `date` or
/// `amount` header column, or has a data line with the wrong field count.
pub open spec fn spec_load(t: Seq<char>) -> Option<Seq<(Seq<char>, Seq<char>)>> {
    let ls = spec_lines(t);
    if ls.len() == 0 {
        None
    } else {
        let hf = spec_split(ls[0], ',');
        let di = spec_field_idx(hf, "date"@);
        let ai = spec_field_idx(hf, "amount"@);
        if di < 0 || ai < 0 {
            None
        } else {
            spec_rows(ls.subrange(1, ls.len() as int), di, ai, hf.len() as int)
        }
    }
}

/// Loads CSV text into the tabular view: locates the `date` and `amount`
/// columns by name in the header line and extracts those two cells of
/// every data row, in file order. Fails with `DataAccess` exactly when the
/// text is not such a CSV (no lines, missing columns, or a ragged row).
pub fn load_data_from_csv(text: &str) -> (r: Result<IncomeTable, IncomeError>)
    ensures
        r matches Ok(t) ==> spec_load(text@) == Some(t@),
        r matches Err(e) ==> spec_load(text@) is None && e == IncomeError::DataAccess,
{
    let raw = split_str(text, '\n');
    let ghost rawv = views_of(raw@);
    let mut lines: Vec<String> = Vec::new();
    let rn = raw.len();
    let mut i: usize = 0;
    while i < rn
        invariant
            i <= rn,
            rn == raw@.len(),
            rawv == views_of(raw@),
            views_of(lines@) == spec_clean(rawv.subrange(0, i as int)),
        decreases rn - i,
    {
        let l = &raw[i];
        let n = l.unicode_len();
        let ghost pre = rawv.subrange(0, i as int);
        let ghost post = rawv.subrange(0, i + 1 as int);
        proof {
            assert(post.drop_last() =~= pre);
            assert(post.last() == l@);
        }
        let end = if n > 0 && l.get_char(n - 1) == '\r' {
            n - 1
        } else {
            n
        };
        proof {
            assert(spec_strip_cr(l@) =~= l@.subrange(0, end as int));
        }
        if end > 0 {
            let ghost before = views_of(lines@);
            lines.push(String::from_str(l.substring_char(0, end)));
            proof {
                assert(views_of(lines@) =~~= before.push(l@.subrange(0, end as int)));
            }
        }
        i += 1;
    }
    proof {
        assert(rawv.subrange(0, rn as int) =~~= rawv);
        assert(views_of(lines@) == spec_lines(text@));
    }
    if lines.len() == 0 {
        return Err(IncomeError::DataAccess);
    }
    let ghost ls = views_of(lines@);
    let hfields = split_str(lines[0].as_str(), ',');
    proof {
        assert(ls[0] == lines@[0]@);
        assert(views_of(hfields@) == spec_split(ls[0], ','));
        assert(views_of(hfields@).len() == hfields@.len());
    }
    let w = hfields.len();
    let di = match field_index(&hfields, "date") {
        Some(j) => j,
        None => {
            return Err(IncomeError::DataAccess);
        },
    };
    let ai = match field_index(&hfields, "amount") {
        Some(j) => j,
        None => {
            return Err(IncomeError::DataAccess);
        },
    };
    let ghost rows_ls = ls.subrange(1, ls.len() as int);
    let mut table = IncomeTable::new();
    let ln = lines.len();
    let mut j: usize = 1;
    while j < ln
        invariant
            1 <= j <= ln,
            ln == lines@.len(),
            ls == views_of(lines@),
            ls == spec_lines(text@),
            ls.len() == ln,
            ln >= 1,
            rows_ls == ls.subrange(1, ls.len() as int),
            spec_field_idx(spec_split(ls[0], ','), "date"@) == di as int,
            spec_field_idx(spec_split(ls[0], ','), "amount"@) == ai as int,
            (di as int) < w as int,
            (ai as int) < w as int,
            w as int == spec_split(ls[0], ',').len(),
            spec_rows(rows_ls.subrange(0, j - 1), di as int, ai as int, w as int) == Some(
                table@,
            ),
        decreases ln - j,
    {
        let ghost pre = rows_ls.subrange(0, j - 1);
        let ghost post = rows_ls.subrange(0, j as int);
        proof {
            assert(post.drop_last() =~= pre);
            assert(post.last() == ls[j as int]);
        }
        let fs = split_str(lines[j].as_str(), ',');
        if fs.len() != w {
            proof {
                assert(spec_row_of(ls[j as int], di as int, ai as int, w as int) is None);
                assert(spec_rows(post, di as int, ai as int, w as int) is None);
                lemma_rows_prefix_none(rows_ls, di as int, ai as int, w as int, j as int);
            }
            return Err(IncomeError::DataAccess);
        }
        let date_cell = fs[di].clone();
        let amount_cell = fs[ai].clone();
        let ghost tbefore = table@;
        table.push_row(date_cell, amount_cell);
        proof {
            assert(views_of(fs@)[di as int] == fs@[di as int]@);
            assert(views_of(fs@)[ai as int] == fs@[ai as int]@);
            assert(spec_row_of(ls[j as int], di as int, ai as int, w as int) == Some(
                (fs@[di as int]@, fs@[ai as int]@),
            ));
            assert(spec_rows(post, di as int, ai as int, w as int) == Some(table@));
        }
        j += 1;
    }
    proof {
        assert(rows_ls.subrange(0, ln - 1) =~~= rows_ls);
        assert(spec_load(text@) == Some(table@));
    }
    Ok(table)
}


/// Whether a fraction part is acceptable: at least one digit, all digits,
/// and nothing beyond the first two other than zeros (cents are the
/// smallest unit held).
pub open spec fn spec_frac_ok(f: Seq<char>) -> bool {
    &&& f.len() >= 1
    &&& spec_all_digits(f)
    &&& forall|i: int| 2 <= i < f.len() ==> f[i] == '0'
}

/// The cents a fraction part denotes: its first two digits, the second
/// taken as zero when absent.
pub open spec fn spec_frac_cents(f: Seq<char>) -> int {
    if f.len() == 1 {
        spec_digit_val(f[0]) * 10
    } else {
        spec_digit_val(f[0]) * 10 + spec_digit_val(f[1])
    }
}

/// The unsigned cents of an amount with no sign: one or more digits,
/// optionally a dot and a fraction.
pub open spec fn spec_unsigned_cents(s: Seq<char>) -> Option<int> {
    let dot = spec_find(s, '.');
    if dot < 0 {
        if s.len() >= 1 && spec_all_digits(s) {
            Some(spec_digits_val(s) * 100)
        } else {
            None
        }
    } else {
        let ip = s.subrange(0, dot);
        let fp = s.subrange(dot + 1, s.len() as int);
        if ip.len() >= 1 && spec_all_digits(ip) && spec_frac_ok(fp) {
            Some(spec_digits_val(ip) * 100 + spec_frac_cents(fp))
        } else {
            None
        }
    }
}

/// The cents an amount cell denotes: an optional minus sign, then digits
/// with an optional fraction; `None` for anything else, and for magnitudes
/// beyond what the library holds.
pub open spec fn spec_parse_amount(s: Seq<char>) -> Option<int> {
    let body = if s.len() >= 1 && s[0] == '-' {
        match spec_unsigned_cents(s.subrange(1, s.len() as int)) {
            Some(v) => Some(-v),
            None => None,
        }
    } else {
        spec_unsigned_cents(s)
    };
    match body {
        Some(v) => if -(MAX_AMOUNT_CENTS as int) <= v <= MAX_AMOUNT_CENTS as int {
            Some(v)
        } else {
            None
        },
        None => None,
    }
}

/// The largest whole-dollar-digit value an amount may carry: exactly
/// `MAX_AMOUNT_CENTS` once scaled by 100.
const MAX_WHOLE: i64 = 1_000_000_000_000_000;

/// Parses an amount cell into cents.
#[verifier::loop_isolation(false)]
#[verifier::rlimit(100)]
pub fn parse_amount(s: &str) -> (r: Option<i64>)
    ensures
        r is Some <==> spec_parse_amount(s@) is Some,
        r matches Some(c) ==> spec_parse_amount(s@) == Some(c as int) && -MAX_AMOUNT_CENTS <= c
            <= MAX_AMOUNT_CENTS,
{
    let v = str_chars(s);
    let n = v.len();
    let neg = n >= 1 && v[0] == '-';
    let start: usize = if neg {
        1
    } else {
        0
    };
    let ghost body = s@.subrange(start as int, n as int);
    proof {
        lemma_find_first(body, '.');
        if !neg {
            assert(body =~= s@);
        }
    }
    let dotopt = crate::text::find_from(&v, start, '.');
    let dig_end = match dotopt {
        Some(j) => j,
        None => n,
    };
    let ghost ip = s@.subrange(start as int, dig_end as int);
    proof {
        if dotopt is Some {
            assert(body.subrange(0, dig_end - start) =~= ip);
            assert(body.subrange(dig_end - start + 1, body.len() as int) =~= s@.subrange(
                dig_end + 1 as int,
                n as int,
            ));
        } else {
            assert(body =~= ip);
        }
    }
    if dig_end == start {
        proof {
            assert(ip.len() == 0);
        }
        return None;
    }
    // every character before the dot must be a digit
    let mut i: usize = start;
    while i < dig_end
        invariant
            start <= i <= dig_end <= n,
            n == s@.len(),
            v@ == s@,
            ip == s@.subrange(start as int, dig_end as int),
            forall|k: int| start <= k < i ==> spec_is_digit(#[trigger] s@[k]),
        decreases dig_end - i,
    {
        if digit_val(v[i]).is_none() {
            proof {
                assert(!spec_is_digit(ip[i - start]));
            }
            return None;
        }
        i += 1;
    }
    proof {
        assert forall|k: int| 0 <= k < ip.len() implies spec_is_digit(#[trigger] ip[k]) by {
            assert(ip[k] == s@[start + k]);
        }
        assert(spec_all_digits(ip));
        lemma_digits_val_nonneg(ip);
    }
    // fold the whole part, stopping once it cannot fit in cents
    let mut acc: i64 = 0;
    let mut i2: usize = start;
    proof {
        assert(ip.subrange(0, 0) =~= Seq::<char>::empty());
    }
    while i2 < dig_end
        invariant
            start <= i2 <= dig_end <= n,
            n == s@.len(),
            v@ == s@,
            ip == s@.subrange(start as int, dig_end as int),
            spec_all_digits(ip),
            0 <= acc <= MAX_WHOLE,
            acc as int == spec_digits_val(ip.subrange(0, i2 - start)),
        decreases dig_end - i2,
    {
        let d = match digit_val(v[i2]) {
            Some(d) => d,
            None => {
                proof {
                    assert(spec_is_digit(ip[i2 - start]));
                }
                return None;
            },
        };
        proof {
            let pre = ip.subrange(0, i2 - start);
            let post = ip.subrange(0, i2 - start + 1);
            assert(post.drop_last() =~= pre);
            assert(post.last() == s@[i2 as int]);
        }
        acc = acc * 10 + d as i64;
        if acc > MAX_WHOLE {
            proof {
                lemma_digits_val_prefix_le(ip, i2 - start + 1);
                assert(spec_digits_val(ip) * 100 >= acc as int * 100) by (nonlinear_arith)
                    requires
                        spec_digits_val(ip) >= acc as int,
                        acc as int > 0;
                assert(acc as int * 100 > MAX_AMOUNT_CENTS as int);
                if spec_unsigned_cents(body) is Some {
                    assert(spec_unsigned_cents(body)->Some_0 > MAX_AMOUNT_CENTS as int);
                }
            }
            return None;
        }
        i2 += 1;
    }
    proof {
        assert(ip.subrange(0, dig_end - start) =~= ip);
    }
    // the fraction part, when a dot is present
    let frac: i64 = match dotopt {
        Some(j) => {
            let ghost fp = s@.subrange(j + 1 as int, n as int);
            if j + 1 == n {
                proof {
                    assert(fp.len() == 0);
                }
                return None;
            }
            let mut k: usize = j + 1;
            while k < n
                invariant
                    j + 1 <= k <= n,
                    n == s@.len(),
                    v@ == s@,
                    fp == s@.subrange(j + 1 as int, n as int),
                    j + 1 < n,
                    forall|u: int| j + 1 <= u < k ==> spec_is_digit(#[trigger] s@[u]),
                    forall|u: int| j + 3 <= u < k ==> s@[u] == '0',
                decreases n - k,
            {
                let c = v[k];
                if digit_val(c).is_none() {
                    proof {
                        assert(!spec_is_digit(fp[k - j - 1]));
                    }
                    return None;
                }
                if k - j >= 3 && c != '0' {
                    proof {
                        assert(fp[k - j - 1] != '0');
                    }
                    return None;
                }
                k += 1;
            }
            proof {
                assert forall|u: int| 0 <= u < fp.len() implies spec_is_digit(
                    #[trigger] fp[u],
                ) by {
                    assert(fp[u] == s@[j + 1 + u]);
                }
                assert forall|u: int| 2 <= u < fp.len() implies fp[u] == '0' by {
                    assert(fp[u] == s@[j + 1 + u]);
                }
                assert(spec_frac_ok(fp));
            }
            let f0 = match digit_val(v[j + 1]) {
                Some(d) => d,
                None => {
                    proof {
                        assert(spec_is_digit(fp[0]));
                    }
                    return None;
                },
            };
            let f1: u8 = if j + 2 < n {
                match digit_val(v[j + 2]) {
                    Some(d) => d,
                    None => {
                        proof {
                            assert(spec_is_digit(fp[1]));
                        }
                        return None;
                    },
                }
            } else {
                0
            };
            proof {
                assert(fp[0] == s@[j + 1 as int]);
                if j + 2 < n {
                    assert(fp[1] == s@[j + 2 as int]);
                }
                assert(spec_frac_cents(fp) == f0 as int * 10 + f1 as int);
            }
            f0 as i64 * 10 + f1 as i64
        },
        None => 0,
    };
    let cents: i64 = acc * 100 + frac;
    proof {
        if dotopt is Some {
            assert(spec_unsigned_cents(body) == Some(spec_digits_val(ip) * 100 + spec_frac_cents(
                s@.subrange(dig_end + 1 as int, n as int),
            )));
        } else {
            assert(spec_unsigned_cents(body) == Some(spec_digits_val(ip) * 100));
        }
        assert(spec_unsigned_cents(body) == Some(cents as int));
    }
    if cents > MAX_AMOUNT_CENTS {
        return None;
    }
    if neg {
        proof {
            assert(s@[0] == '-');
            assert(body == s@.subrange(1, n as int));
        }
        Some(-cents)
    } else {
        proof {
            assert(body =~= s@);
        }
        Some(cents)
    }
}

/// The parsed date and cents of one table row, or `None` when either cell
/// is malformed.
pub open spec fn spec_row_parse(row: (Seq<char>, Seq<char>)) -> Option<(Date, int)> {
    match (spec_parse_date(row.0), spec_parse_amount(row.1)) {
        (Some(d), Some(a)) => Some((d, a)),
        _ => None,
    }
}

/// The amount the rows leave under date `d` once loaded in order, the last
/// write winning; rows that do not parse are passed over.
pub open spec fn spec_rows_get(rows: Seq<(Seq<char>, Seq<char>)>, d: Date) -> Option<int>
    decreases rows.len(),
{
    if rows.len() == 0 {
        None
    } else {
        match spec_row_parse(rows.last()) {
            Some(p) => if p.0 == d {
                Some(p.1)
            } else {
                spec_rows_get(rows.drop_last(), d)
            },
            None => spec_rows_get(rows.drop_last(), d),
        }
    }
}

/// Converts the tabular view into the date-keyed income collection.
///
/// Every row's date must parse as strict `YYYY-MM-DD` and its amount as a
/// decimal number of cents; otherwise the conversion fails with `Parse`
/// naming the first bad row. On success the collection binds each date to
/// the amount of the last row carrying it (duplicates overwrite silently).
pub fn df_to_hashmap(table: &IncomeTable) -> (r: Result<IncomeCollection, IncomeError>)
    ensures
        r is Ok <==> (forall|i: int|
            0 <= i < table@.len() ==> spec_row_parse(#[trigger] table@[i]) is Some),
        r matches Ok(c) ==> c.wf() && forall|d: Date| spec_get(c@, d) == spec_rows_get(table@, d),
        r matches Err(e) ==> e matches IncomeError::Parse { row } && (row as int) < table@.len()
            && spec_row_parse(table@[row as int]) is None && (forall|k: int|
            0 <= k < row as int ==> spec_row_parse(#[trigger] table@[k]) is Some),
{
    let n = table.len();
    let mut c = IncomeCollection::new();
    let mut i: usize = 0;
    proof {
        assert(table@.subrange(0, 0) =~= Seq::<(Seq<char>, Seq<char>)>::empty());
    }
    while i < n
        invariant
            i <= n,
            n == table@.len(),
            c.wf(),
            forall|k: int| 0 <= k < i ==> spec_row_parse(#[trigger] table@[k]) is Some,
            forall|d: Date| spec_get(c@, d) == spec_rows_get(table@.subrange(0, i as int), d),
        decreases n - i,
    {
        let row = table.row(i);
        let dopt = parse_date(row.date.as_str());
        let aopt = parse_amount(row.amount.as_str());
        proof {
            assert(row@ == table@[i as int]);
        }
        match (dopt, aopt) {
            (Some(d), Some(a)) => {
                let ghost cpre = c@;
                c.insert(d, a);
                proof {
                    let pre = table@.subrange(0, i as int);
                    let post = table@.subrange(0, i + 1 as int);
                    assert(post.drop_last() =~= pre);
                    assert(post.last() == table@[i as int]);
                    assert(spec_row_parse(table@[i as int]) == Some((d, a as int)));
                    assert forall|dd: Date| spec_get(c@, dd) == spec_rows_get(post, dd) by {
                        if dd == d {
                            assert(spec_get(c@, dd) == Some(a as int));
                        } else {
                            assert(spec_get(c@, dd) == spec_get(cpre, dd));
                        }
                    }
                }
            },
            _ => {
                return Err(IncomeError::Parse { row: i });
            },
        }
        i += 1;
    }
    proof {
        assert(table@.subrange(0, n as int) =~= table@);
    }
    Ok(c)
}

/// Whether one of the first `t` listed years is `y`.
pub open spec fn spec_year_listed(ys: Seq<i32>, t: int, y: i32) -> bool {
    exists|u: int| 0 <= u < t && ys[u] == y
}

/// No year is listed twice.
pub open spec fn spec_years_distinct(ys: Seq<i32>) -> bool {
    forall|a: int, b: int| 0 <= a < b < ys.len() ==> ys[a] != ys[b]
}

/// Every listed year is carried by some record.
pub open spec fn spec_years_from(rs: Seq<IncomeRecord>, ys: Seq<i32>) -> bool {
    forall|a: int|
        0 <= a < ys.len() ==> (exists|k: int|
            0 <= k < rs.len() && (#[trigger] rs[k]).date.year == #[trigger] ys[a])
}

/// The year of each of the first `upto` records is listed.
pub open spec fn spec_years_cover(rs: Seq<IncomeRecord>, upto: int, ys: Seq<i32>) -> bool {
    forall|k: int| 0 <= k < upto ==> ys.contains((#[trigger] rs[k]).date.year)
}

/// Whether `ys` lists exactly the distinct years of the dates of `rs`:
/// no year twice, none that no record carries, none missing.
pub open spec fn spec_years_of(rs: Seq<IncomeRecord>, ys: Seq<i32>) -> bool {
    &&& spec_years_distinct(ys)
    &&& spec_years_from(rs, ys)
    &&& spec_years_cover(rs, rs.len() as int, ys)
}

/// The distinct calendar years among the collection's dates, each once, in
/// first-appearance order.
pub fn get_available_years(income_data: &IncomeCollection) -> (r: Vec<i32>)
    ensures
        spec_years_of(income_data@, r@),
{
    let recs = income_data.records();
    let rn = recs.len();
    let mut out: Vec<i32> = Vec::new();
    let mut i: usize = 0;
    while i < rn
        invariant
            i <= rn,
            rn == income_data@.len(),
            recs@ == income_data@,
            spec_years_distinct(out@),
            spec_years_from(income_data@, out@),
            spec_years_cover(income_data@, i as int, out@),
        decreases rn - i,
    {
        let y = recs[i].date.year;
        let on = out.len();
        let mut seen = false;
        let mut t: usize = 0;
        while t < on
            invariant
                t <= on,
                on == out@.len(),
                seen == spec_year_listed(out@, t as int, y),
            decreases on - t,
        {
            if out[t] == y {
                seen = true;
            }
            t += 1;
        }
        if !seen {
            proof {
                assert(forall|u: int| 0 <= u < out@.len() ==> out@[u] != y);
            }
            let ghost before = out@;
            out.push(y);
            proof {
                assert(out@[out@.len() - 1] == y);
                assert(income_data@[i as int].date.year == y);
                assert(spec_years_distinct(out@));
                assert(spec_years_from(income_data@, out@));
                assert forall|k: int|
                    0 <= k < i + 1 implies out@.contains(
                    (#[trigger] income_data@[k]).date.year,
                ) by {
                    if k < i {
                        let yk = income_data@[k].date.year;
                        assert(before.contains(yk));
                        let u = choose|u: int| 0 <= u < before.len() && before[u] == yk;
                        assert(out@[u] == yk);
                    } else {
                        assert(out@[out@.len() - 1] == income_data@[k].date.year);
                    }
                }
            }
        } else {
            proof {
                assert(out@.contains(y));
            }
        }
        i += 1;
    }
    out
}


/// A later row for a date silently overwrites an earlier one: once a row
/// parsing to `(d, a)` is appended, the collection built from the rows
/// binds `d` to `a`, whatever earlier rows said, and every other date's
/// binding is untouched — duplicate dates are no error.
pub proof fn lemma_duplicate_date_overwrites(
    rows: Seq<(Seq<char>, Seq<char>)>,
    r: (Seq<char>, Seq<char>),
    d: Date,
    a: int,
)
    requires
        spec_row_parse(r) == Some((d, a)),
    ensures
        spec_rows_get(rows.push(r), d) == Some(a),
        forall|d2: Date| d2 != d ==> spec_rows_get(rows.push(r), d2) == spec_rows_get(rows, d2),
{
    assert(rows.push(r).drop_last() =~= rows);
    assert(rows.push(r).last() == r);
}

} // verus!
