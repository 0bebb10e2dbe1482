//! Unsigned numbers in decimal notation.

use vstd::prelude::*;
use vstd::string::*;

verus! {

/// Whether `c` is one of the ten decimal digits.
pub open spec fn is_digit(c: char) -> bool {
    '0' <= c <= '9'
}

/// The number that a decimal digit stands for.
pub open spec fn digit_value(c: char) -> nat {
    (c as u32 - '0' as u32) as nat
}

/// The number that a sequence of decimal digits stands for, the empty
/// sequence standing for zero; `None` if a character is no digit.
pub open spec fn digits_value(digits: Seq<char>) -> Option<nat>
    decreases digits.len(),
{
    if digits.len() == 0 {
        Some(0)
    } else if !is_digit(digits.last()) {
        None
    } else {
        match digits_value(digits.drop_last()) {
            Some(value) => Some(value * 10 + digit_value(digits.last())),
            None => None,
        }
    }
}

/// The digits of `text` once a leading plus sign is taken off.
pub open spec fn unsigned_part(text: Seq<char>) -> Seq<char> {
    if text.len() > 0 && text[0] == '+' {
        text.drop_first()
    } else {
        text
    }
}

/// The number that `text` denotes: an optional plus sign, then one or more
/// decimal digits, and a value that fits in 32 bits. Anything else denotes
/// no number.
pub open spec fn decimal_value(text: Seq<char>) -> Option<u32> {
    let digits = unsigned_part(text);
    if digits.len() == 0 {
        None
    } else {
        match digits_value(digits) {
            Some(value) => if value <= u32::MAX {
                Some(value as u32)
            } else {
                None
            },
            None => None,
        }
    }
}

/// A sequence with a character that is no digit stands for no number.
pub proof fn lemma_digits_only(digits: Seq<char>, i: int)
    requires
        0 <= i < digits.len(),
        !is_digit(digits[i]),
    ensures
        digits_value(digits) is None,
    decreases digits.len(),
{
    if i < digits.len() - 1 {
        lemma_digits_only(digits.drop_last(), i);
    }
}

/// Digits appended to a sequence never make its value smaller.
pub proof fn lemma_digits_grow(digits: Seq<char>, k: int)
    requires
        0 <= k <= digits.len(),
        digits_value(digits) is Some,
    ensures
        digits_value(digits.take(k)) is Some,
        digits_value(digits.take(k))->0 <= digits_value(digits)->0,
    decreases digits.len() - k,
{
    if k < digits.len() {
        lemma_digits_grow(digits.drop_last(), k);
        assert(digits.drop_last().take(k) =~= digits.take(k));
    } else {
        assert(digits.take(k) =~= digits);
    }
}

/// Reads a number in decimal notation.
pub fn parse_u32(text: &str) -> (value: Option<u32>)
    ensures
        value == decimal_value(text@),
{
    let length = text.unicode_len();
    let start: usize = if length > 0 && text.get_char(0) == '+' {
        1
    } else {
        0
    };
    let ghost digits = unsigned_part(text@);
    assert(digits =~= text@.skip(start as int));
    if start == length {
        return None;
    }
    let mut value: u64 = 0;
    let mut k: usize = start;
    while k < length
        invariant
            start <= k <= length,
            length == text@.len(),
            start < length,
            digits == text@.skip(start as int),
            digits == unsigned_part(text@),
            digits_value(digits.take(k - start)) == Some(value as nat),
            value <= u32::MAX,
        decreases length - k,
    {
        let c = text.get_char(k);
        let ghost next = digits.take(k - start + 1);
        proof {
            assert(next.drop_last() =~= digits.take(k - start));
            assert(next.last() == c);
        }
        if c < '0' || c > '9' {
            proof {
                assert(digits[k - start] == c);
                lemma_digits_only(digits, k - start);
            }
            return None;
        }
        let digit: u64 = (c as u32 - '0' as u32) as u64;
        value = value * 10 + digit;
        if value > u32::MAX as u64 {
            proof {
                if digits_value(digits) is Some {
                    lemma_digits_grow(digits, k - start + 1);
                }
            }
            return None;
        }
        k = k + 1;
    }
    proof {
        assert(digits.take(k - start) =~= digits);
    }
    Some(value as u32)
}

/// The decimal digit that stands for `d`, a number below ten.
pub open spec fn digit_char(d: nat) -> char {
    if d == 0 {
        '0'
    } else if d == 1 {
        '1'
    } else if d == 2 {
        '2'
    } else if d == 3 {
        '3'
    } else if d == 4 {
        '4'
    } else if d == 5 {
        '5'
    } else if d == 6 {
        '6'
    } else if d == 7 {
        '7'
    } else if d == 8 {
        '8'
    } else {
        '9'
    }
}

/// The decimal notation of `n`, without a sign or leading zeros.
pub open spec fn decimal_digits(n: nat) -> Seq<char>
    decreases n,
{
    if n < 10 {
        seq![digit_char(n)]
    } else {
        decimal_digits(n / 10).push(digit_char(n % 10))
    }
}

fn digit_text(d: usize) -> (text: &'static str)
    requires
        d < 10,
    ensures
        text@ == seq![digit_char(d as nat)],
{
    proof {
        reveal_strlit("0");
        reveal_strlit("1");
        reveal_strlit("2");
        reveal_strlit("3");
        reveal_strlit("4");
        reveal_strlit("5");
        reveal_strlit("6");
        reveal_strlit("7");
        reveal_strlit("8");
        reveal_strlit("9");
    }
    let text = match d {
        0 => "0",
        1 => "1",
        2 => "2",
        3 => "3",
        4 => "4",
        5 => "5",
        6 => "6",
        7 => "7",
        8 => "8",
        _ => "9",
    };
    assert(text@ =~= seq![digit_char(d as nat)]);
    text
}

/// Writes `n` in decimal notation.
pub fn decimal(n: usize) -> (text: String)
    ensures
        text@ == decimal_digits(n as nat),
    decreases n,
{
    if n < 10 {
        digit_text(n).to_owned()
    } else {
        let mut text = decimal(n / 10);
        text.append(digit_text(n % 10));
        assert(text@ =~= decimal_digits(n as nat));
        text
    }
}

} // verus!
