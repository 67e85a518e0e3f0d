//! Decimal text to a 32-bit signed integer.

use vstd::prelude::*;
use crate::charset::{char_is_digit, is_digit};
use crate::text::chars_of;

verus! {

pub open spec fn all_digits(s: Seq<char>) -> bool {
    forall|i: int| 0 <= i < s.len() ==> is_digit(#[trigger] s[i])
}

pub open spec fn digit_value(c: char) -> int {
    c as int - '0' as int
}

/// The number that a run of decimal digits writes; leading zeros count
/// for nothing, and the empty run writes zero.
pub open spec fn digits_value(s: Seq<char>) -> int
    decreases s.len(),
{
    if s.len() == 0 {
        0
    } else {
        10 * digits_value(s.drop_last()) + digit_value(s.last())
    }
}

/// Whether a text starts with a sign.
pub open spec fn has_sign(s: Seq<char>) -> bool {
    s.len() > 0 && (s[0] == '+' || s[0] == '-')
}

/// The number that a text writes, where it writes one that a 32-bit
/// signed integer holds: one sign at most, then one decimal digit at
/// least, and nothing else.
pub open spec fn int_of_text(s: Seq<char>) -> Option<int> {
    let digits = if has_sign(s) {
        s.skip(1)
    } else {
        s
    };
    let value = if has_sign(s) && s[0] == '-' {
        -digits_value(digits)
    } else {
        digits_value(digits)
    };
    if digits.len() > 0 && all_digits(digits) && i32::MIN <= value <= i32::MAX {
        Some(value)
    } else {
        None
    }
}

/// A run of digits writes at least what any of its prefixes writes.
pub proof fn lemma_digits_value_grows(s: Seq<char>, k: int)
    requires
        all_digits(s),
        0 <= k <= s.len(),
    ensures
        0 <= digits_value(s.take(k)) <= digits_value(s),
    decreases s.len() - k,
{
    if k == s.len() {
        assert(s.take(k) =~= s);
        lemma_digits_value_nonnegative(s);
    } else {
        lemma_digits_value_grows(s, k + 1);
        lemma_digits_value_nonnegative(s.take(k));
        assert(s.take(k + 1).drop_last() =~= s.take(k));
    }
}

pub proof fn lemma_digits_value_nonnegative(s: Seq<char>)
    requires
        all_digits(s),
    ensures
        0 <= digits_value(s),
    decreases s.len(),
{
    if s.len() > 0 {
        lemma_digits_value_nonnegative(s.drop_last());
    }
}

/// Reads a 32-bit signed integer from its decimal text.
pub fn parse_i32(text: &str) -> (value: Option<i32>)
    ensures
        value is Some <==> int_of_text(text@) is Some,
        value is Some ==> value->0 as int == int_of_text(text@)->0,
{
    let chars = chars_of(text);
    let signed = chars.len() > 0 && (chars[0] == '+' || chars[0] == '-');
    let negative = signed && chars[0] == '-';
    let first: usize = if signed {
        1
    } else {
        0
    };
    let ghost digits = chars@.skip(first as int);
    proof {
        assert(chars@.skip(0) =~= chars@);
    }
    if first == chars.len() {
        return None;
    }
    let mut total: i64 = 0;
    let mut i: usize = first;
    proof {
        assert(digits.take(0) =~= Seq::<char>::empty());
    }
    while i < chars.len()
        invariant
            first <= i <= chars.len(),
            chars@ == text@,
            signed == has_sign(chars@),
            negative == (signed && chars@[0] == '-'),
            first == if signed { 1int } else { 0int },
            digits == chars@.skip(first as int),
            digits == if has_sign(chars@) { chars@.skip(1) } else { chars@ },
            all_digits(digits.take(i - first)),
            total == digits_value(digits.take(i - first)),
            0 <= total <= 2147483648,
        decreases chars.len() - i,
    {
        let c = chars[i];
        let ghost upto = digits.take(i - first);
        let ghost next = digits.take(i - first + 1);
        proof {
            assert(next.drop_last() =~= upto);
            assert(next.last() == c);
        }
        if !char_is_digit(c) {
            proof {
                assert(digits[i - first] == c);
            }
            return None;
        }
        total = 10 * total + (c as i64 - '0' as i64);
        if total > 2147483648 {
            proof {
                if all_digits(digits) {
                    lemma_digits_value_grows(digits, i - first + 1);
                }
            }
            return None;
        }
        proof {
            assert forall|k: int| 0 <= k < next.len() implies is_digit(#[trigger] next[k]) by {
                if k < upto.len() {
                    assert(next[k] == upto[k]);
                }
            }
        }
        i += 1;
    }
    proof {
        assert(digits.take(chars.len() - first) =~= digits);
    }
    if negative {
        Some((-total) as i32)
    } else if total == 2147483648 {
        None
    } else {
        Some(total as i32)
    }
}

} // verus!
