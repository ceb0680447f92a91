//! Parsing a count cell as a 32-bit integer.
//!
//! A cell holds a count exactly when its text is an optional `+` or `-`
//! sign followed by one or more ASCII decimal digits, and the signed value
//! fits in 32 bits — the same texts that Rust's standard integer parsing
//! accepts. Any other cell is a missing count.

use vstd::prelude::*;

use crate::record::opt_int;

verus! {

/// Whether a character is an ASCII decimal digit.
pub open spec fn is_digit(c: char) -> bool {
    48 <= c as u32 <= 57
}

/// The value of an ASCII decimal digit.
pub open spec fn digit_value(c: char) -> int {
    c as u32 - 48
}

/// Whether every character of the text is an ASCII decimal digit.
pub open spec fn all_digits(s: Seq<char>) -> bool {
    forall|i: int| 0 <= i < s.len() ==> is_digit(#[trigger] s[i])
}

/// The value of a non-empty string of decimal digits.
pub open spec fn digits_value(s: Seq<char>) -> int
    decreases s.len(),
{
    if s.len() == 0 {
        0
    } else {
        digits_value(s.drop_last()) * 10 + digit_value(s.last())
    }
}

/// The 32-bit integer a text denotes: an optional sign, then one or more
/// digits, the value within the 32-bit signed range; `None` otherwise.
pub open spec fn int32_of_text(s: Seq<char>) -> Option<int> {
    let signed = s.len() > 0 && (s[0] == '-' || s[0] == '+');
    let digits = if signed {
        s.subrange(1, s.len() as int)
    } else {
        s
    };
    if digits.len() > 0 && all_digits(digits) {
        let magnitude = digits_value(digits);
        let value = if signed && s[0] == '-' {
            -magnitude
        } else {
            magnitude
        };
        if -0x8000_0000 <= value <= 0x7fff_ffff {
            Some(value)
        } else {
            None
        }
    } else {
        None
    }
}

/// A string of digits has a non-negative value.
proof fn lemma_digits_value_nonneg(s: Seq<char>)
    requires
        all_digits(s),
    ensures
        digits_value(s) >= 0,
    decreases s.len(),
{
    if s.len() > 0 {
        assert(all_digits(s.drop_last())) by {
            assert(forall|i: int|
                0 <= i < s.len() - 1 ==> #[trigger] s.drop_last()[i] == s[i]);
        }
        lemma_digits_value_nonneg(s.drop_last());
    }
}

/// Appending a digit multiplies the value by ten and adds the digit.
proof fn lemma_digits_value_step(s: Seq<char>, k: int)
    requires
        0 <= k < s.len(),
    ensures
        digits_value(s.take(k + 1)) == digits_value(s.take(k)) * 10 + digit_value(s[k]),
{
    assert(s.take(k + 1).drop_last() =~= s.take(k));
    assert(s.take(k + 1).last() == s[k]);
}

/// Parses a count cell, returning `None` for any text that does not
/// denote a 32-bit integer.
pub fn parse_count(s: &str) -> (r: Option<i32>)
    ensures
        opt_int(r) == int32_of_text(s@),
{
    let n: usize = s.unicode_len();
    if n == 0 {
        return None;
    }
    let first: char = s.get_char(0);
    let signed: bool = first == '-' || first == '+';
    let start: usize = if signed { 1 } else { 0 };
    if start == n {
        return None;
    }
    let ghost digits = if signed { s@.subrange(1, s@.len() as int) } else { s@ };
    // The running magnitude: exact while it fits below 2^31, and once the
    // digits exceed that bound it merely stays above it, so the final
    // range test still decides correctly.
    let mut magnitude: i64 = 0;
    let mut i: usize = start;
    while i < n
        invariant
            start <= i <= n,
            0 < n == s@.len(),
            first == s@[0],
            signed == (s@[0] == '-' || s@[0] == '+'),
            start == if signed { 1int } else { 0int },
            digits == if signed { s@.subrange(1, s@.len() as int) } else { s@ },
            all_digits(digits.take(i - start)),
            digits_value(digits.take(i - start)) <= 0x8000_0000
                ==> magnitude == digits_value(digits.take(i - start)),
            digits_value(digits.take(i - start)) > 0x8000_0000 ==> magnitude > 0x8000_0000,
            0 <= magnitude <= 0x5_0000_0009,
        decreases n - i,
    {
        let c: char = s.get_char(i);
        let u: u32 = c as u32;
        if u < 48 || u > 57 {
            proof {
                assert(digits[i - start] == s@[i as int]);
                assert(!is_digit(digits[i - start]));
                assert(!all_digits(digits));
            }
            return None;
        }
        proof {
            assert(digits[i - start] == s@[i as int]);
            assert(all_digits(digits.take(i - start + 1))) by {
                assert(forall|j: int|
                    0 <= j < i - start + 1 ==> #[trigger] digits.take(i - start + 1)[j]
                        == digits.take(i - start).push(digits[i - start])[j]);
            }
            lemma_digits_value_step(digits, i - start);
            lemma_digits_value_nonneg(digits.take(i - start));
        }
        let d: i64 = (u - 48) as i64;
        if magnitude <= 0x8000_0000 {
            magnitude = magnitude * 10 + d;
        }
        i = i + 1;
    }
    proof {
        assert(digits.take(i - start) =~= digits);
    }
    if signed && first == '-' {
        if magnitude <= 0x8000_0000 {
            Some((-magnitude) as i32)
        } else {
            None
        }
    } else {
        if magnitude <= 0x7fff_ffff {
            Some(magnitude as i32)
        } else {
            None
        }
    }
}

} // verus!
