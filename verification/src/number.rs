//! Whole numbers and their decimal text.

use vstd::prelude::*;
use crate::text::{chars_of, push_char};

verus! {

/// Whether a character is one of the ten decimal digits.
pub open spec fn is_digit(c: char) -> bool {
    '0' <= c <= '9'
}

/// The value of a decimal digit.
pub open spec fn digit_value(c: char) -> int {
    c as int - '0' as int
}

/// The character of a value from 0 to 9.
pub open spec fn digit_char(value: int) -> char {
    ('0' as int + value) as char
}

/// Whether a text is one or more decimal digits.
pub open spec fn is_decimal(digits: Seq<char>) -> bool {
    digits.len() > 0 && forall|i: int| 0 <= i < digits.len() ==> is_digit(#[trigger] digits[i])
}

/// The value of a run of decimal digits, the most significant first.
pub open spec fn digits_value(digits: Seq<char>) -> int
    decreases digits.len(),
{
    if digits.len() == 0 {
        0
    } else {
        10 * digits_value(digits.drop_last()) + digit_value(digits.last())
    }
}

/// The whole number that a text denotes: an optional sign, `+` or `-`,
/// and one or more decimal digits, with nothing before, between or after.
pub open spec fn integer_of(text: Seq<char>) -> Option<int> {
    if text.len() > 0 && text[0] == '-' {
        if is_decimal(text.skip(1)) {
            Some(-digits_value(text.skip(1)))
        } else {
            None
        }
    } else if text.len() > 0 && text[0] == '+' {
        if is_decimal(text.skip(1)) {
            Some(digits_value(text.skip(1)))
        } else {
            None
        }
    } else if is_decimal(text) {
        Some(digits_value(text))
    } else {
        None
    }
}

/// The 64-bit signed integer that a text denotes, if it denotes a whole
/// number in that range.
pub open spec fn parse_i64(text: Seq<char>) -> Option<i64> {
    match integer_of(text) {
        Some(value) => if i64::MIN <= value <= i64::MAX {
            Some(value as i64)
        } else {
            None
        },
        None => None,
    }
}

/// The decimal digits of a natural number, without leading zeros.
pub open spec fn natural_text(n: nat) -> Seq<char>
    decreases n,
{
    if n < 10 {
        seq![digit_char(n as int)]
    } else {
        natural_text(n / 10).push(digit_char((n % 10) as int))
    }
}

/// The decimal text of a whole number: a minus sign where it is
/// negative, then its digits without leading zeros.
pub open spec fn integer_text(n: int) -> Seq<char> {
    if n < 0 {
        seq!['-'] + natural_text((-n) as nat)
    } else {
        natural_text(n as nat)
    }
}

/// The quotient of a division that rounds towards zero.
pub open spec fn truncated_quotient(x: int, d: int) -> int
    recommends
        d != 0,
{
    let magnitude = abs(x) / abs(d);
    if (x < 0) != (d < 0) {
        -magnitude
    } else {
        magnitude
    }
}

/// The remainder of a division that rounds towards zero: it has the
/// sign of the dividend.
pub open spec fn truncated_remainder(x: int, d: int) -> int
    recommends
        d != 0,
{
    let magnitude = abs(x) % abs(d);
    if x < 0 {
        -magnitude
    } else {
        magnitude
    }
}

/// The absolute value of a whole number.
pub open spec fn abs(x: int) -> int {
    if x < 0 {
        -x
    } else {
        x
    }
}

/// A run of digits is worth at least as much as any run it starts with.
pub proof fn lemma_digits_value_grows(digits: Seq<char>, n: int)
    requires
        0 <= n <= digits.len(),
        forall|i: int| 0 <= i < digits.len() ==> is_digit(#[trigger] digits[i]),
    ensures
        0 <= digits_value(digits.subrange(0, n)) <= digits_value(digits),
    decreases digits.len() - n,
{
    if n < digits.len() {
        let longer = digits.subrange(0, n + 1);
        assert(longer.drop_last() =~= digits.subrange(0, n));
        assert(longer.last() == digits[n]);
        lemma_digits_value_grows(digits, n + 1);
        lemma_digits_value_nonnegative(digits.subrange(0, n));
    } else {
        assert(digits.subrange(0, n) =~= digits);
        lemma_digits_value_nonnegative(digits);
    }
}

/// A run of digits is worth at least zero.
pub proof fn lemma_digits_value_nonnegative(digits: Seq<char>)
    requires
        forall|i: int| 0 <= i < digits.len() ==> is_digit(#[trigger] digits[i]),
    ensures
        0 <= digits_value(digits),
    decreases digits.len(),
{
    if digits.len() > 0 {
        lemma_digits_value_nonnegative(digits.drop_last());
    }
}

/// The digits of a natural number are digits, and their value is the
/// number.
pub proof fn lemma_natural_text(n: nat)
    ensures
        is_decimal(natural_text(n)),
        digits_value(natural_text(n)) == n,
        n > 0 ==> natural_text(n)[0] != '0',
    decreases n,
{
    if n < 10 {
        let text = natural_text(n);
        assert(text.drop_last() =~= Seq::<char>::empty());
        assert(digits_value(text.drop_last()) == 0);
    } else {
        lemma_natural_text(n / 10);
        let front = natural_text(n / 10);
        let text = natural_text(n);
        assert(text.drop_last() =~= front);
        assert(text[0] == front[0]);
        assert forall|i: int| 0 <= i < text.len() implies is_digit(#[trigger] text[i]) by {
            if i < front.len() {
                assert(text[i] == front[i]);
            }
        }
    }
}

/// Reading the decimal text of a whole number gives the number back.
pub proof fn lemma_text_round_trip(n: int)
    ensures
        integer_of(integer_text(n)) == Some(n),
        i64::MIN <= n <= i64::MAX ==> parse_i64(integer_text(n)) == Some(n as i64),
{
    if n < 0 {
        let digits = natural_text((-n) as nat);
        lemma_natural_text((-n) as nat);
        assert(integer_text(n).skip(1) =~= digits);
    } else {
        lemma_natural_text(n as nat);
        let text = natural_text(n as nat);
        assert(is_digit(text[0]));
    }
}

/// The value of a decimal digit, or `None` for any other character.
fn digit_of(c: char) -> (digit: Option<u64>)
    ensures
        digit is Some == is_digit(c),
        digit matches Some(value) ==> value == digit_value(c) && value <= 9,
{
    if c == '0' {
        Some(0)
    } else if c == '1' {
        Some(1)
    } else if c == '2' {
        Some(2)
    } else if c == '3' {
        Some(3)
    } else if c == '4' {
        Some(4)
    } else if c == '5' {
        Some(5)
    } else if c == '6' {
        Some(6)
    } else if c == '7' {
        Some(7)
    } else if c == '8' {
        Some(8)
    } else if c == '9' {
        Some(9)
    } else {
        None
    }
}

/// The character of a value from 0 to 9.
fn char_of_digit(value: u64) -> (c: char)
    requires
        value <= 9,
    ensures
        c == digit_char(value as int),
{
    if value == 0 {
        '0'
    } else if value == 1 {
        '1'
    } else if value == 2 {
        '2'
    } else if value == 3 {
        '3'
    } else if value == 4 {
        '4'
    } else if value == 5 {
        '5'
    } else if value == 6 {
        '6'
    } else if value == 7 {
        '7'
    } else if value == 8 {
        '8'
    } else {
        '9'
    }
}

/// Reads a text as a 64-bit signed integer.
pub fn parse_number(text: &str) -> (value: Option<i64>)
    ensures
        value == parse_i64(text@),
{
    let chars = chars_of(text);
    let n = chars.len();
    let negative = n > 0 && chars[0] == '-';
    let start: usize = if n > 0 && (chars[0] == '-' || chars[0] == '+') {
        1
    } else {
        0
    };
    let ghost digits = chars@.subrange(start as int, n as int);
    proof {
        if start == 1 {
            assert(digits =~= text@.skip(1));
        } else {
            assert(digits =~= text@);
        }
    }
    if start >= n {
        return None;
    }
    let limit: u64 = 0x8000_0000_0000_0000;
    let mut magnitude: u64 = 0;
    let mut at: usize = start;
    assert(digits.subrange(0, 0) =~= Seq::<char>::empty());
    while at < n
        invariant
            start <= at <= n,
            n == chars.len(),
            limit == 0x8000_0000_0000_0000,
            digits == chars@.subrange(start as int, n as int),
            !is_decimal(digits) ==> parse_i64(text@) is None,
            is_decimal(digits) ==> integer_of(text@) == Some(
                if negative {
                    -digits_value(digits)
                } else {
                    digits_value(digits)
                },
            ),
            forall|i: int| 0 <= i < at - start ==> is_digit(#[trigger] digits[i]),
            magnitude == digits_value(digits.subrange(0, at - start)),
            magnitude <= limit,
        decreases n - at,
    {
        let ghost prefix = digits.subrange(0, at - start);
        let ghost longer = digits.subrange(0, at - start + 1);
        proof {
            assert(longer.drop_last() =~= prefix);
            assert(longer.last() == chars[at as int]);
        }
        let digit = match digit_of(chars[at]) {
            Some(digit) => digit,
            None => {
                assert(!is_digit(digits[at - start]));
                return None;
            },
        };
        if magnitude > (limit - digit) / 10 {
            proof {
                assert(digits_value(longer) > limit);
                if is_decimal(digits) {
                    lemma_digits_value_grows(digits, at - start + 1);
                }
            }
            return None;
        }
        magnitude = magnitude * 10 + digit;
        at += 1;
    }
    proof {
        assert(digits.subrange(0, at - start) =~= digits);
        assert(is_decimal(digits));
    }
    if negative {
        if magnitude == limit {
            Some(i64::MIN)
        } else {
            Some(-(magnitude as i64))
        }
    } else if magnitude == limit {
        None
    } else {
        Some(magnitude as i64)
    }
}

/// Appends the digits of a natural number.
fn push_natural(text: &mut String, n: u64)
    ensures
        final(text)@ == old(text)@ + natural_text(n as nat),
    decreases n,
{
    if n >= 10 {
        push_natural(text, n / 10);
    }
    push_char(text, char_of_digit(n % 10));
    assert(final(text)@ =~= old(text)@ + natural_text(n as nat));
}

/// The decimal text of a natural number.
pub fn format_natural(n: u64) -> (text: String)
    ensures
        text@ == natural_text(n as nat),
{
    let mut text = String::new();
    push_natural(&mut text, n);
    assert(text@ =~= natural_text(n as nat));
    text
}

/// The decimal text of a 64-bit signed integer.
pub fn format_number(n: i64) -> (text: String)
    ensures
        text@ == integer_text(n as int),
{
    let mut text = String::new();
    if n < 0 {
        push_char(&mut text, '-');
        let magnitude: u64 = if n == i64::MIN {
            0x8000_0000_0000_0000
        } else {
            (-n) as u64
        };
        push_natural(&mut text, magnitude);
        assert(text@ =~= integer_text(n as int));
    } else {
        push_natural(&mut text, n as u64);
        assert(text@ =~= integer_text(n as int));
    }
    text
}

} // verus!
