//! Character-level helpers shared by the loader, the CLI and the reporters:
//! locating separators, reading digit strings, and rendering decimal text.

use vstd::prelude::*;
use crate::dates::{spec_is_digit, spec_digit_val};

verus! {

/// The index of the first occurrence of `c` in `s`, or -1 when absent.
pub open spec fn spec_find(s: Seq<char>, c: char) -> int
    decreases s.len(),
{
    if s.len() == 0 {
        -1
    } else if s[0] == c {
        0
    } else {
        let r = spec_find(s.subrange(1, s.len() as int), c);
        if r < 0 {
            -1
        } else {
            r + 1
        }
    }
}

/// `spec_find` names the first occurrence: a negative result means no
/// occurrence at all, and a non-negative result is the least index holding `c`.
pub proof fn lemma_find_first(s: Seq<char>, c: char)
    ensures
        spec_find(s, c) < 0 ==> forall|i: int| 0 <= i < s.len() ==> s[i] != c,
        spec_find(s, c) >= 0 ==> {
            &&& spec_find(s, c) < s.len()
            &&& s[spec_find(s, c)] == c
            &&& forall|i: int| 0 <= i < spec_find(s, c) ==> s[i] != c
        },
    decreases s.len(),
{
    if s.len() > 0 && s[0] != c {
        let t = s.subrange(1, s.len() as int);
        lemma_find_first(t, c);
        let r = spec_find(t, c);
        if r < 0 {
            assert forall|i: int| 0 <= i < s.len() implies s[i] != c by {
                if i > 0 {
                    assert(t[i - 1] != c);
                }
            }
        } else {
            assert(s[r + 1] == t[r]);
            assert forall|i: int| 0 <= i < r + 1 implies s[i] != c by {
                if i > 0 {
                    assert(t[i - 1] != c);
                }
            }
        }
    }
}

/// Finds the first occurrence of `c` in `v` at or after `from`.
pub fn find_from(v: &Vec<char>, from: usize, c: char) -> (r: Option<usize>)
    requires
        from <= v@.len(),
    ensures
        ({
            let f = spec_find(v@.subrange(from as int, v@.len() as int), c);
            match r {
                Some(j) => from <= j < v@.len() && f == j - from,
                None => f < 0,
            }
        }),
{
    let ghost tail = v@.subrange(from as int, v@.len() as int);
    proof {
        lemma_find_first(tail, c);
    }
    let mut i: usize = from;
    while i < v.len()
        invariant
            from <= i <= v@.len(),
            tail == v@.subrange(from as int, v@.len() as int),
            forall|k: int| from <= k < i ==> v@[k] != c,
            spec_find(tail, c) < 0 ==> forall|k: int| 0 <= k < tail.len() ==> tail[k] != c,
            spec_find(tail, c) >= 0 ==> {
                &&& spec_find(tail, c) < tail.len()
                &&& tail[spec_find(tail, c)] == c
                &&& forall|k: int| 0 <= k < spec_find(tail, c) ==> tail[k] != c
            },
        decreases v@.len() - i,
    {
        if v[i] == c {
            assert(tail[i - from] == c);
            assert(spec_find(tail, c) == i - from) by {
                assert(spec_find(tail, c) >= 0) by {
                    if spec_find(tail, c) < 0 {
                        assert(tail[i - from] != c);
                    }
                }
                if spec_find(tail, c) < i - from {
                    assert(v@[spec_find(tail, c) + from] == c);
                }
                if spec_find(tail, c) > i - from {
                    assert(tail[i - from] != c);
                }
            }
            return Some(i);
        }
        assert(tail[i - from] != c);
        i += 1;
    }
    proof {
        if spec_find(tail, c) >= 0 {
            assert(v@[spec_find(tail, c) + from] == c);
        }
    }
    None
}

/// Whether every character of `s` is an ASCII decimal digit.
pub open spec fn spec_all_digits(s: Seq<char>) -> bool {
    forall|i: int| 0 <= i < s.len() ==> spec_is_digit(#[trigger] s[i])
}

/// The number a digit string denotes, most significant digit first.
pub open spec fn spec_digits_val(s: Seq<char>) -> int
    decreases s.len(),
{
    if s.len() == 0 {
        0
    } else {
        spec_digits_val(s.drop_last()) * 10 + spec_digit_val(s.last())
    }
}

/// A digit string is worth no less than any of its prefixes.
pub proof fn lemma_digits_val_prefix_le(s: Seq<char>, i: int)
    requires
        0 <= i <= s.len(),
        spec_all_digits(s),
    ensures
        0 <= spec_digits_val(s.subrange(0, i)) <= spec_digits_val(s),
    decreases s.len() - i,
{
    if i == s.len() {
        assert(s.subrange(0, i) == s);
        lemma_digits_val_nonneg(s);
    } else {
        lemma_digits_val_prefix_le(s, i + 1);
        let p = s.subrange(0, i + 1);
        assert(p.drop_last() == s.subrange(0, i));
        assert(spec_digits_val(p) == spec_digits_val(s.subrange(0, i)) * 10 + spec_digit_val(
            s[i],
        ));
        lemma_digits_val_nonneg(s.subrange(0, i));
    }
}

/// The value of a digit string is never negative.
pub proof fn lemma_digits_val_nonneg(s: Seq<char>)
    requires
        spec_all_digits(s),
    ensures
        spec_digits_val(s) >= 0,
    decreases s.len(),
{
    if s.len() > 0 {
        assert(spec_all_digits(s.drop_last()));
        lemma_digits_val_nonneg(s.drop_last());
    }
}

/// The decimal digit character for a value 0 through 9.
pub open spec fn spec_digit_char(d: int) -> char {
    if d == 0 {
        '0'
    } else if d == 1 {
        '1'
    } else if d == 2 {
        '2'
    } else if d == 3 {
        '3'
    } else if d == 4 {
        '4'
    } else if d == 5 {
        '5'
    } else if d == 6 {
        '6'
    } else if d == 7 {
        '7'
    } else if d == 8 {
        '8'
    } else {
        '9'
    }
}

/// The decimal rendering of a non-negative number, without leading zeros
/// (a single `'0'` for zero).
pub open spec fn spec_dec_str(n: int) -> Seq<char>
    decreases n,
{
    if n <= 9 {
        seq![spec_digit_char(n)]
    } else {
        spec_dec_str(n / 10).push(spec_digit_char(n % 10))
    }
}

/// Appends the single digit character for `d` to `out`.
fn push_digit_char(d: u8, out: &mut String)
    requires
        d <= 9,
    ensures
        final(out)@ == old(out)@.push(spec_digit_char(d as int)),
{
    let piece: &str = match d {
        0 => "0",
        1 => "1",
        2 => "2",
        3 => "3",
        4 => "4",
        5 => "5",
        6 => "6",
        7 => "7",
        8 => "8",
        _ => "9",
    };
    proof {
        reveal_strlit("0");
        reveal_strlit("1");
        reveal_strlit("2");
        reveal_strlit("3");
        reveal_strlit("4");
        reveal_strlit("5");
        reveal_strlit("6");
        reveal_strlit("7");
        reveal_strlit("8");
        reveal_strlit("9");
    }
    out.append(piece);
    proof {
        assert(out@ == old(out)@.push(spec_digit_char(d as int)));
    }
}

/// Appends the decimal rendering of `n` to `out`.
pub fn push_dec(n: u128, out: &mut String)
    ensures
        final(out)@ == old(out)@ + spec_dec_str(n as int),
    decreases n,
{
    if n <= 9 {
        push_digit_char(n as u8, out);
        proof {
            assert(old(out)@ + spec_dec_str(n as int) == old(out)@.push(
                spec_digit_char(n as int),
            ));
        }
    } else {
        push_dec(n / 10, out);
        push_digit_char((n % 10) as u8, out);
        proof {
            assert(out@ == old(out)@ + spec_dec_str(n as int));
        }
    }
}

/// Appends the two-digit, zero-padded rendering of `n` (0 through 99).
pub fn push_two_digits(n: u8, out: &mut String)
    requires
        n <= 99,
    ensures
        final(out)@ == old(out)@ + spec_two_digits(n as int),
{
    push_digit_char(n / 10, out);
    push_digit_char(n % 10, out);
    proof {
        assert(out@ == old(out)@ + spec_two_digits(n as int));
    }
}

/// The two-digit, zero-padded rendering of a number 0 through 99.
pub open spec fn spec_two_digits(n: int) -> Seq<char> {
    seq![spec_digit_char(n / 10), spec_digit_char(n % 10)]
}

/// The four-digit, zero-padded rendering of a number 0 through 9999.
pub open spec fn spec_four_digits(n: int) -> Seq<char> {
    seq![
        spec_digit_char(n / 1000),
        spec_digit_char(n / 100 % 10),
        spec_digit_char(n / 10 % 10),
        spec_digit_char(n % 10),
    ]
}

/// Appends the four-digit, zero-padded rendering of `n` (0 through 9999).
pub fn push_four_digits(n: u16, out: &mut String)
    requires
        n <= 9999,
    ensures
        final(out)@ == old(out)@ + spec_four_digits(n as int),
{
    push_digit_char((n / 1000) as u8, out);
    push_digit_char((n / 100 % 10) as u8, out);
    push_digit_char((n / 10 % 10) as u8, out);
    push_digit_char((n % 10) as u8, out);
    proof {
        assert(out@ == old(out)@ + spec_four_digits(n as int));
    }
}

/// The characters of `s`, as a vector that verified loops can index.
pub fn str_chars(s: &str) -> (v: Vec<char>)
    ensures
        v@ == s@,
{
    let n = s.unicode_len();
    let mut v: Vec<char> = Vec::new();
    let mut i: usize = 0;
    while i < n
        invariant
            i <= n,
            n == s@.len(),
            v@ == s@.subrange(0, i as int),
        decreases n - i,
    {
        v.push(s.get_char(i));
        proof {
            assert(v@ == s@.subrange(0, i + 1 as int));
        }
        i += 1;
    }
    proof {
        assert(v@ == s@);
    }
    v
}

} // verus!
