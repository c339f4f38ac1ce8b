//! Decimal digits and decimal rendering of unsigned integers, shared by
//! the date-token format and the record-id format.

use vstd::prelude::*;
use vstd::arithmetic::div_mod::lemma_fundamental_div_mod;
use crate::fixed::lemma_floor_div_bounds;

verus! {

/// The character for one decimal digit.
pub open spec fn digit_char(k: int) -> char {
    if k == 0 {
        '0'
    } else if k == 1 {
        '1'
    } else if k == 2 {
        '2'
    } else if k == 3 {
        '3'
    } else if k == 4 {
        '4'
    } else if k == 5 {
        '5'
    } else if k == 6 {
        '6'
    } else if k == 7 {
        '7'
    } else if k == 8 {
        '8'
    } else {
        '9'
    }
}

/// Whether a character is a decimal digit.
pub open spec fn is_digit(c: char) -> bool {
    48 <= c as u32 <= 57
}

/// Numeric value of a digit character.
pub open spec fn digit_val(c: char) -> int {
    c as u32 - 48
}

/// Digit characters carry exactly their digit's value.
pub proof fn lemma_digit_char_val(k: int)
    requires
        0 <= k <= 9,
    ensures
        is_digit(digit_char(k)),
        digit_val(digit_char(k)) == k,
{
}

/// The decimal rendering of a non-negative integer, most significant
/// digit first, with no leading zeros (zero itself is one digit).
pub open spec fn dec_digits(n: int) -> Seq<char>
    decreases n,
    when n >= 0
    via dec_digits_dec
{
    if n < 10 {
        seq![digit_char(n)]
    } else {
        dec_digits(n / 10) + seq![digit_char(n % 10)]
    }
}

#[via_fn]
proof fn dec_digits_dec(n: int) {
    if n >= 10 {
        lemma_floor_div_bounds(n, 10);
    }
}

/// A decimal rendering is never empty, and has at least two digits for
/// values of ten or more.
pub proof fn lemma_dec_digits_len(n: int)
    requires
        n >= 0,
    ensures
        dec_digits(n).len() >= 1,
        n >= 10 ==> dec_digits(n).len() >= 2,
    decreases n,
{
    if n >= 10 {
        lemma_floor_div_bounds(n, 10);
        lemma_dec_digits_len(n / 10);
    }
}

/// Every character of a decimal rendering is a digit.
pub proof fn lemma_dec_digits_all_digits(n: int)
    requires
        n >= 0,
    ensures
        forall|i: int| 0 <= i < dec_digits(n).len() ==> is_digit(#[trigger] dec_digits(n)[i]),
    decreases n,
{
    lemma_fundamental_div_mod(n, 10);
    lemma_floor_div_bounds(n, 10);
    if n < 10 {
        lemma_digit_char_val(n);
    } else {
        lemma_dec_digits_all_digits(n / 10);
        lemma_digit_char_val(n % 10);
        assert forall|i: int| 0 <= i < dec_digits(n).len() implies is_digit(
            #[trigger] dec_digits(n)[i],
        ) by {
            if i < dec_digits(n / 10).len() {
                assert(dec_digits(n)[i] == dec_digits(n / 10)[i]);
            } else {
                assert(dec_digits(n)[i] == digit_char(n % 10));
            }
        }
    }
}

/// Decimal renderings carry no leading zeros, so they name their value
/// uniquely: equal renderings mean equal values.
pub proof fn lemma_dec_digits_injective(a: int, b: int)
    requires
        a >= 0,
        b >= 0,
        dec_digits(a) == dec_digits(b),
    ensures
        a == b,
    decreases a + b,
{
    lemma_fundamental_div_mod(a, 10);
    lemma_floor_div_bounds(a, 10);
    lemma_fundamental_div_mod(b, 10);
    lemma_floor_div_bounds(b, 10);
    lemma_dec_digits_len(a);
    lemma_dec_digits_len(b);
    if a < 10 && b < 10 {
        lemma_digit_char_val(a);
        lemma_digit_char_val(b);
        assert(dec_digits(a)[0] == digit_char(a));
        assert(dec_digits(b)[0] == digit_char(b));
        assert(digit_val(digit_char(a)) == digit_val(digit_char(b)));
    } else if a >= 10 && b >= 10 {
        assert(dec_digits(a).last() == dec_digits(b).last());
        lemma_digit_char_val(a % 10);
        lemma_digit_char_val(b % 10);
        assert(digit_char(a % 10) == dec_digits(a).last());
        assert(digit_char(b % 10) == dec_digits(b).last());
        assert(a % 10 == b % 10);
        assert(dec_digits(a).drop_last() =~= dec_digits(a / 10));
        assert(dec_digits(b).drop_last() =~= dec_digits(b / 10));
        assert(dec_digits(a / 10) == dec_digits(b / 10));
        lemma_dec_digits_injective(a / 10, b / 10);
    } else if a < 10 {
        assert(dec_digits(a).len() == 1);
    } else {
        assert(dec_digits(b).len() == 1);
    }
}

/// Append one digit character to a string.
pub fn push_digit(s: &mut String, k: u64)
    requires
        k <= 9,
    ensures
        final(s)@ == old(s)@ + seq![digit_char(k as int)],
{
    let digits = "0123456789";
    proof {
        reveal_strlit("0123456789");
    }
    let ds = digits.substring_ascii(k as usize, k as usize + 1);
    proof {
        assert(ds@ =~= seq![digit_char(k as int)]);
    }
    s.append(ds);
}

/// Append the decimal rendering of a non-negative integer to a string.
pub fn push_uint(s: &mut String, n: u64)
    ensures
        final(s)@ == old(s)@ + dec_digits(n as int),
    decreases n,
{
    proof {
        lemma_fundamental_div_mod(n as int, 10);
        lemma_floor_div_bounds(n as int, 10);
    }
    if n < 10 {
        push_digit(s, n);
    } else {
        push_uint(s, n / 10);
        push_digit(s, n % 10);
        proof {
            assert(old(s)@ + dec_digits(n as int / 10) + seq![digit_char(n as int % 10)] =~= old(
                s,
            )@ + dec_digits(n as int));
        }
    }
}

} // verus!
