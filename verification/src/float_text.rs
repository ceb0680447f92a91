//! Whether a cell's text denotes a floating-point number.
//!
//! Latitude and longitude cells are mandatory: a load fails when one of
//! them does not parse as a floating-point number. The accepted texts are
//! those of Rust's standard floating-point format: an optional sign, then
//! either `inf`, `infinity` or `nan` (case-insensitive), or a mantissa of
//! decimal digits with at most one point and at least one digit, with an
//! optional exponent `e`/`E`, an optional sign and one or more digits.
//! Only the shape of the text matters here, never its numeric value, so
//! the check is stated and verified on characters alone.

use vstd::prelude::*;

use crate::parse_int::all_digits;
use crate::parse_int::is_digit;

verus! {

/// Whether a character equals a lowercase letter, ignoring case.
pub open spec fn eq_ignore_case(c: char, lower: char) -> bool {
    c as u32 == lower as u32 || c as u32 + 32 == lower as u32
}

/// Whether a text spells a lowercase word, ignoring case.
pub open spec fn matches_ignore_case(t: Seq<char>, w: Seq<char>) -> bool {
    t.len() == w.len() && forall|i: int| 0 <= i < t.len() ==> eq_ignore_case(#[trigger] t[i], w[i])
}

/// Whether a text, its sign already stripped, spells one of the special
/// values `inf`, `infinity` or `nan`, ignoring case.
pub open spec fn special_value(t: Seq<char>) -> bool {
    ||| matches_ignore_case(t, "inf"@)
    ||| matches_ignore_case(t, "infinity"@)
    ||| matches_ignore_case(t, "nan"@)
}

/// Whether a text is a mantissa: every character a digit or a point, at
/// most one point, and at least one digit.
pub open spec fn mantissa_ok(m: Seq<char>) -> bool {
    &&& exists|i: int| 0 <= i < m.len() && is_digit(#[trigger] m[i])
    &&& forall|i: int| 0 <= i < m.len() ==> is_digit(#[trigger] m[i]) || m[i] == '.'
    &&& forall|i: int, j: int| 0 <= i < j < m.len() && #[trigger] m[i] == '.' ==> #[trigger] m[j] != '.'
}

/// A text with its leading sign, if any, removed.
pub open spec fn strip_sign(s: Seq<char>) -> Seq<char> {
    if s.len() > 0 && (s[0] == '+' || s[0] == '-') {
        s.drop_first()
    } else {
        s
    }
}

/// Whether a text is an exponent body: an optional sign, then one or
/// more digits.
pub open spec fn exponent_ok(x: Seq<char>) -> bool {
    strip_sign(x).len() > 0 && all_digits(strip_sign(x))
}

/// The index of the first exponent marker `e` or `E` of a text.
pub open spec fn find_exp(t: Seq<char>) -> Option<int>
    decreases t.len(),
{
    if t.len() == 0 {
        None
    } else if t[0] == 'e' || t[0] == 'E' {
        Some(0int)
    } else {
        match find_exp(t.drop_first()) {
            Some(i) => Some(i + 1),
            None => None,
        }
    }
}

/// `find_exp` names the first exponent marker, and `None` means there is
/// none.
pub proof fn lemma_find_exp_first(t: Seq<char>)
    ensures
        match find_exp(t) {
            Some(i) => 0 <= i < t.len() && (t[i] == 'e' || t[i] == 'E') && forall|j: int|
                0 <= j < i ==> t[j] != 'e' && t[j] != 'E',
            None => forall|j: int| 0 <= j < t.len() ==> t[j] != 'e' && t[j] != 'E',
        },
    decreases t.len(),
{
    if t.len() > 0 && t[0] != 'e' && t[0] != 'E' {
        lemma_find_exp_first(t.drop_first());
        match find_exp(t.drop_first()) {
            Some(i) => {
                assert(t.drop_first()[i] == t[i + 1]);
                assert forall|j: int| 0 <= j < i + 1 implies t[j] != 'e' && t[j] != 'E' by {
                    if j > 0 {
                        assert(t.drop_first()[j - 1] == t[j]);
                    }
                }
            },
            None => {
                assert forall|j: int| 0 <= j < t.len() implies t[j] != 'e' && t[j] != 'E' by {
                    if j > 0 {
                        assert(t.drop_first()[j - 1] == t[j]);
                    }
                }
            },
        }
    }
}

/// Whether a text, its sign already stripped, is a number: a mantissa,
/// optionally followed by an exponent.
pub open spec fn number_ok(t: Seq<char>) -> bool {
    match find_exp(t) {
        None => mantissa_ok(t),
        Some(p) => mantissa_ok(t.take(p)) && exponent_ok(t.subrange(p + 1, t.len() as int)),
    }
}

/// Whether a text parses as a floating-point number: an optional sign,
/// then a special value or a number.
pub open spec fn float_text_ok(s: Seq<char>) -> bool {
    special_value(strip_sign(s)) || number_ok(strip_sign(s))
}

/// Whether the characters of `s` from `start` on spell the word `w`,
/// ignoring case.
fn matches_word_from(s: &str, start: usize, w: &str) -> (r: bool)
    requires
        start <= s@.len(),
    ensures
        r == matches_ignore_case(s@.subrange(start as int, s@.len() as int), w@),
{
    let ghost t = s@.subrange(start as int, s@.len() as int);
    let n: usize = s.unicode_len();
    let m: usize = w.unicode_len();
    if n - start != m {
        return false;
    }
    let mut i: usize = 0;
    while i < m
        invariant
            0 <= i <= m,
            start + m == n,
            n == s@.len(),
            m == w@.len(),
            t == s@.subrange(start as int, s@.len() as int),
            forall|j: int| 0 <= j < i ==> eq_ignore_case(#[trigger] t[j], w@[j]),
        decreases m - i,
    {
        let c: char = s.get_char(start + i);
        let l: char = w.get_char(i);
        let cu: u32 = c as u32;
        let lu: u32 = l as u32;
        if !(cu == lu || cu + 32 == lu) {
            assert(!eq_ignore_case(t[i as int], w@[i as int]));
            return false;
        }
        i = i + 1;
    }
    true
}

/// Whether the characters of `s` in `[from, to)` form a mantissa.
fn mantissa_range_ok(s: &str, from: usize, to: usize) -> (r: bool)
    requires
        from <= to <= s@.len(),
    ensures
        r == mantissa_ok(s@.subrange(from as int, to as int)),
{
    let ghost m = s@.subrange(from as int, to as int);
    let mut saw_digit: bool = false;
    let mut saw_dot: bool = false;
    let mut i: usize = from;
    while i < to
        invariant
            from <= i <= to <= s@.len(),
            m == s@.subrange(from as int, to as int),
            saw_digit == exists|j: int| 0 <= j < i - from && is_digit(#[trigger] m[j]),
            saw_dot == exists|j: int| 0 <= j < i - from && #[trigger] m[j] == '.',
            forall|j: int| 0 <= j < i - from ==> is_digit(#[trigger] m[j]) || m[j] == '.',
            forall|j: int, k: int|
                0 <= j < k < i - from && #[trigger] m[j] == '.' ==> #[trigger] m[k] != '.',
        decreases to - i,
    {
        let c: char = s.get_char(i);
        let u: u32 = c as u32;
        proof {
            assert(m[i - from] == s@[i as int]);
        }
        if 48 <= u && u <= 57 {
            saw_digit = true;
        } else if c == '.' {
            if saw_dot {
                return false;
            }
            saw_dot = true;
        } else {
            assert(!is_digit(m[i - from]) && m[i - from] != '.');
            return false;
        }
        i = i + 1;
    }
    saw_digit
}

/// Whether the characters of `s` in `[from, to)` form an exponent body.
fn exponent_range_ok(s: &str, from: usize, to: usize) -> (r: bool)
    requires
        from <= to <= s@.len(),
    ensures
        r == exponent_ok(s@.subrange(from as int, to as int)),
{
    let ghost x = s@.subrange(from as int, to as int);
    let mut i: usize = from;
    if i < to {
        let c: char = s.get_char(i);
        if c == '+' || c == '-' {
            i = i + 1;
        }
    }
    let ghost digits = strip_sign(x);
    proof {
        assert(digits =~= s@.subrange(i as int, to as int));
    }
    if i == to {
        return false;
    }
    let mut k: usize = i;
    while k < to
        invariant
            from <= i <= k <= to <= s@.len(),
            digits == s@.subrange(i as int, to as int),
            digits == strip_sign(s@.subrange(from as int, to as int)),
            forall|j: int| 0 <= j < k - i ==> is_digit(#[trigger] digits[j]),
        decreases to - k,
    {
        let c: char = s.get_char(k);
        let u: u32 = c as u32;
        proof {
            assert(digits[k - i] == s@[k as int]);
        }
        if u < 48 || u > 57 {
            assert(!is_digit(digits[k - i]));
            return false;
        }
        k = k + 1;
    }
    proof {
        assert(forall|j: int| 0 <= j < digits.len() ==> is_digit(#[trigger] digits[j]));
    }
    true
}

/// Finds the first exponent marker of `s` at or after `start`.
fn find_exp_from(s: &str, start: usize) -> (r: Option<usize>)
    requires
        start <= s@.len(),
    ensures
        match r {
            Some(p) => start <= p < s@.len() && find_exp(
                s@.subrange(start as int, s@.len() as int),
            ) == Some(p - start),
            None => find_exp(s@.subrange(start as int, s@.len() as int)) is None,
        },
{
    let ghost t = s@.subrange(start as int, s@.len() as int);
    let n: usize = s.unicode_len();
    let mut p: usize = start;
    while p < n
        invariant
            start <= p <= n,
            n == s@.len(),
            t == s@.subrange(start as int, n as int),
            forall|j: int| 0 <= j < p - start ==> #[trigger] t[j] != 'e' && t[j] != 'E',
        decreases n - p,
    {
        let c: char = s.get_char(p);
        proof {
            assert(t[p - start] == s@[p as int]);
        }
        if c == 'e' || c == 'E' {
            proof {
                lemma_find_exp_first(t);
            }
            return Some(p);
        }
        p = p + 1;
    }
    proof {
        lemma_find_exp_first(t);
    }
    None
}

/// Whether a text parses as a floating-point number.
pub fn is_float_text(s: &str) -> (r: bool)
    ensures
        r == float_text_ok(s@),
{
    let n: usize = s.unicode_len();
    let mut start: usize = 0;
    if n > 0 {
        let c: char = s.get_char(0);
        if c == '+' || c == '-' {
            start = 1;
        }
    }
    let ghost t = strip_sign(s@);
    proof {
        assert(t =~= s@.subrange(start as int, n as int));
    }
    if matches_word_from(s, start, "inf") || matches_word_from(s, start, "infinity")
        || matches_word_from(s, start, "nan") {
        return true;
    }
    match find_exp_from(s, start) {
        None => mantissa_range_ok(s, start, n),
        Some(p) => {
            proof {
                assert(t.take(p - start) =~= s@.subrange(start as int, p as int));
                assert(t.subrange(p - start + 1, t.len() as int) =~= s@.subrange(
                    p + 1,
                    n as int,
                ));
            }
            let m_ok = mantissa_range_ok(s, start, p);
            let e_ok = exponent_range_ok(s, p + 1, n);
            m_ok && e_ok
        },
    }
}

} // verus!
