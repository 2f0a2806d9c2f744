//! Text helpers: string comparison and decimal integer parsing.

use vstd::prelude::*;
use vstd::string::*;

verus! {

/// Compares two strings character by character.
pub fn text_eq(a: &str, b: &str) -> (r: bool)
    ensures
        r == (a@ == b@),
{
    let n = a.unicode_len();
    let m = b.unicode_len();
    if n != m {
        return false;
    }
    let mut i: usize = 0;
    while i < n
        invariant
            n == a@.len(),
            m == b@.len(),
            n == m,
            i <= n,
            forall|j: int| 0 <= j < i ==> a@[j] == b@[j],
        decreases n - i,
    {
        if a.get_char(i) != b.get_char(i) {
            return false;
        }
        i = i + 1;
    }
    assert(a@ =~= b@);
    true
}

/// Whether `c` is one of the ASCII digits `0` to `9`.
pub open spec fn is_digit(c: char) -> bool {
    '0' <= c && c <= '9'
}

/// The value of an ASCII digit.
pub open spec fn digit_value(c: char) -> int {
    c as int - '0' as int
}

/// Whether `s` is a non-empty run of ASCII digits.
pub open spec fn all_digits(s: Seq<char>) -> bool {
    s.len() > 0 && forall|i: int| 0 <= i < s.len() ==> is_digit(#[trigger] s[i])
}

/// The number that a run of decimal digits denotes.
pub open spec fn digits_value(s: Seq<char>) -> int
    decreases s.len(),
{
    if s.len() == 0 {
        0
    } else {
        10 * digits_value(s.drop_last()) + digit_value(s.last())
    }
}

/// The magnitude and sign that the text of a decimal integer denotes: an
/// optional sign (`+`, or `-` where `signed`) followed by at least one ASCII
/// digit, and nothing else.
pub open spec fn decimal_parts(s: Seq<char>, signed: bool) -> Option<(bool, int)> {
    if s.len() > 0 && (s[0] == '+' || (signed && s[0] == '-')) {
        if all_digits(s.drop_first()) {
            Some((s[0] == '-', digits_value(s.drop_first())))
        } else {
            None
        }
    } else if all_digits(s) {
        Some((false, digits_value(s)))
    } else {
        None
    }
}

/// The `u32` that `s` denotes in decimal, if it denotes one.
pub open spec fn parse_u32_spec(s: Seq<char>) -> Option<u32> {
    match decimal_parts(s, false) {
        Some((_, v)) => if v <= u32::MAX {
            Some(v as u32)
        } else {
            None
        },
        None => None,
    }
}

/// The `i32` that `s` denotes in decimal, if it denotes one.
pub open spec fn parse_i32_spec(s: Seq<char>) -> Option<i32> {
    match decimal_parts(s, true) {
        Some((neg, v)) => {
            let x = if neg {
                -v
            } else {
                v
            };
            if i32::MIN <= x <= i32::MAX {
                Some(x as i32)
            } else {
                None
            }
        },
        None => None,
    }
}

proof fn lemma_digits_value_nonneg(s: Seq<char>)
    requires
        forall|i: int| 0 <= i < s.len() ==> is_digit(#[trigger] s[i]),
    ensures
        digits_value(s) >= 0,
    decreases s.len(),
{
    if s.len() > 0 {
        lemma_digits_value_nonneg(s.drop_last());
    }
}

/// Reads the digits of `s` from index `start` on; `None` when one is not
/// a digit, when there is none, or when the value exceeds `limit`.
fn read_digits(s: &str, start: usize, limit: u64) -> (r: Option<u64>)
    requires
        start <= s@.len(),
        limit <= u32::MAX + 1,
    ensures
        match r {
            Some(v) => all_digits(s@.skip(start as int)) && v == digits_value(
                s@.skip(start as int),
            ) && v <= limit,
            None => !all_digits(s@.skip(start as int)) || digits_value(s@.skip(start as int))
                > limit,
        },
{
    let n = s.unicode_len();
    if start == n {
        return None;
    }
    let ghost t = s@.skip(start as int);
    let mut acc: u64 = 0;
    let mut over = false;
    let mut i: usize = start;
    while i < n
        invariant
            n == s@.len(),
            start < n,
            start <= i <= n,
            t == s@.skip(start as int),
            limit <= u32::MAX + 1,
            forall|j: int| 0 <= j < i - start ==> is_digit(#[trigger] t[j]),
            !over ==> acc == digits_value(t.take(i - start)),
            acc <= limit,
            over ==> digits_value(t.take(i - start)) > limit,
        decreases n - i,
    {
        let c = s.get_char(i);
        assert(t[i - start] == c);
        if c < '0' || c > '9' {
            return None;
        }
        let d = (c as u64) - ('0' as u64);
        let ghost prev = t.take(i - start);
        proof {
            assert(t.take(i - start + 1).drop_last() =~= prev);
            assert(t.take(i - start + 1).last() == c);
            assert forall|j: int| 0 <= j < prev.len() implies is_digit(#[trigger] prev[j]) by {
                assert(prev[j] == t[j]);
            }
            lemma_digits_value_nonneg(prev);
        }
        if !over {
            if acc * 10 + d > limit {
                over = true;
            } else {
                acc = acc * 10 + d;
            }
        }
        i = i + 1;
    }
    assert(t.take(n - start) =~= t);
    if over {
        None
    } else {
        Some(acc)
    }
}

/// Reads a decimal `u32`: ASCII digits with an optional leading `+`.
pub fn parse_u32(s: &str) -> (r: Option<u32>)
    ensures
        r == parse_u32_spec(s@),
{
    let n = s.unicode_len();
    let start: usize = if n > 0 && s.get_char(0) == '+' {
        1
    } else {
        0
    };
    assert(start == 1 ==> s@.drop_first() =~= s@.skip(1));
    assert(start == 0 ==> s@ =~= s@.skip(0));
    match read_digits(s, start, 0xffff_ffff) {
        Some(v) => Some(v as u32),
        None => None,
    }
}

/// Reads a decimal `i32`: ASCII digits with an optional leading `+` or `-`.
pub fn parse_i32(s: &str) -> (r: Option<i32>)
    ensures
        r == parse_i32_spec(s@),
{
    let n = s.unicode_len();
    let first = if n > 0 {
        s.get_char(0)
    } else {
        ' '
    };
    let neg = n > 0 && first == '-';
    let start: usize = if n > 0 && (first == '+' || first == '-') {
        1
    } else {
        0
    };
    assert(start == 1 ==> s@.drop_first() =~= s@.skip(1));
    assert(start == 0 ==> s@ =~= s@.skip(0));
    let limit: u64 = if neg {
        0x8000_0000
    } else {
        0x7fff_ffff
    };
    match read_digits(s, start, limit) {
        Some(v) => if neg {
            Some((0 - (v as i64)) as i32)
        } else {
            Some(v as i32)
        },
        None => None,
    }
}

} // verus!
