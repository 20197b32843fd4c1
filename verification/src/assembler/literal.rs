//! Number literals: a run of digits in base 10 or 16 and the 16-bit word it
//! stands for.
use vstd::prelude::*;

use super::reader::{lemma_run_end, lemma_run_end_bounds, run_end};

verus! {

/// Why a run of characters is no number that fits 16 bits.
#[derive(Clone, Copy, Debug, PartialEq, Eq, Structural)]
pub enum NumberError {
    /// There is no character at all.
    Empty,
    /// The character at `index` is no digit of the base, and the digits
    /// before it stay within 16 bits.
    InvalidDigit { index: usize },
    /// The digits, read from the left, leave 16 bits before any character
    /// that is no digit is met.
    Overflow,
}

/// The value of `c` as a digit in base `radix`, if it is one: `0` to `9`
/// count 0 to 9, and the letters `a` to `z`, in either case, 10 to 35.
pub open spec fn spec_digit_value(c: char, radix: u16) -> Option<u16> {
    let value: int = if '0' <= c && c <= '9' {
        c as int - '0' as int
    } else if 'a' <= c && c <= 'z' {
        c as int - 'a' as int + 10
    } else if 'A' <= c && c <= 'Z' {
        c as int - 'A' as int + 10
    } else {
        radix as int
    };
    if value < radix {
        Some(value as u16)
    } else {
        None
    }
}

/// Accepts the digits of base `radix`.
pub open spec fn is_digit(radix: u16) -> spec_fn(char) -> bool {
    |c: char| spec_digit_value(c, radix) is Some
}

/// Whether every character of `text` is a digit of base `radix`.
pub open spec fn all_digits(text: Seq<char>, radix: u16) -> bool {
    forall|i: int| 0 <= i < text.len() ==> spec_digit_value(#[trigger] text[i], radix) is Some
}

/// The number that the digits `text` write in base `radix`.
pub open spec fn digits_value(text: Seq<char>, radix: u16) -> nat
    decreases text.len(),
{
    if text.len() == 0 {
        0
    } else {
        digits_value(text.drop_last(), radix) * (radix as nat) + (match spec_digit_value(
            text.last(),
            radix,
        ) {
            Some(digit) => digit as nat,
            None => 0,
        })
    }
}

/// The word that `text` writes in base `radix`, or why it writes none. The
/// text is read from the left up to its first character that is no digit.
/// Where the digits read leave 16 bits, that is the error; else that
/// character is; with neither, the text is a number.
pub open spec fn spec_parse_number(text: Seq<char>, radix: u16) -> Result<u16, NumberError> {
    let stop = run_end(text, 0, is_digit(radix));
    let value = digits_value(text.take(stop), radix);
    if text.len() == 0 {
        Err(NumberError::Empty)
    } else if value > 0xFFFF {
        Err(NumberError::Overflow)
    } else if stop < text.len() {
        Err(NumberError::InvalidDigit { index: stop as usize })
    } else {
        Ok(value as u16)
    }
}

/// Longer runs of digits write larger numbers, or the same.
pub proof fn lemma_digits_value_grows(text: Seq<char>, radix: u16, short: int, long: int)
    requires
        0 <= short <= long <= text.len(),
        radix >= 1,
    ensures
        digits_value(text.take(short), radix) <= digits_value(text.take(long), radix),
    decreases long - short,
{
    if short < long {
        lemma_digits_value_grows(text, radix, short, long - 1);
        assert(text.take(long).drop_last() =~= text.take(long - 1));
        let shorter = digits_value(text.take(long - 1), radix);
        assert(shorter * (radix as nat) >= shorter) by (nonlinear_arith)
            requires
                radix >= 1,
        ;
    }
}

/// A text is a number exactly when it is not empty, holds digits only and
/// writes a number that fits 16 bits; it then stands for that number.
pub proof fn lemma_parse_number(text: Seq<char>, radix: u16)
    requires
        radix >= 1,
    ensures
        spec_parse_number(text, radix) is Ok <==> text.len() > 0 && all_digits(text, radix)
            && digits_value(text, radix) <= 0xFFFF,
        spec_parse_number(text, radix) matches Ok(word) ==> word == digits_value(text, radix),
{
    lemma_run_end_bounds(text, 0, is_digit(radix));
    let stop = run_end(text, 0, is_digit(radix));
    if text.len() > 0 && all_digits(text, radix) {
        lemma_run_end(text, 0, is_digit(radix), text.len() as int);
    }
    if stop == text.len() {
        assert(text.take(stop) =~= text);
    }
}

/// The value of `c` as a digit in base `radix`, if it is one.
pub fn digit_value(c: char, radix: u16) -> (digit: Option<u16>)
    requires
        radix <= 36,
    ensures
        digit == spec_digit_value(c, radix),
{
    let value: u32 = if '0' <= c && c <= '9' {
        c as u32 - '0' as u32
    } else if 'a' <= c && c <= 'z' {
        c as u32 - 'a' as u32 + 10
    } else if 'A' <= c && c <= 'Z' {
        c as u32 - 'A' as u32 + 10
    } else {
        radix as u32
    };
    if value < radix as u32 {
        Some(value as u16)
    } else {
        None
    }
}

/// Reads `text` as a number in base `radix`.
pub fn parse_number(text: &Vec<char>, radix: u16) -> (result: Result<u16, NumberError>)
    requires
        1 <= radix <= 36,
    ensures
        result == spec_parse_number(text@, radix),
        result matches Err(NumberError::InvalidDigit { index }) ==> index < text.len(),
{
    if text.len() == 0 {
        return Err(NumberError::Empty);
    }
    let mut value: u16 = 0;
    let mut index: usize = 0;
    proof {
        assert(text@.take(0).len() == 0);
    }
    while index < text.len()
        invariant
            1 <= radix <= 36,
            index <= text.len(),
            text.len() > 0,
            value == digits_value(text@.take(index as int), radix),
            forall|i: int| 0 <= i < index ==> is_digit(radix)(#[trigger] text@[i]),
        decreases text.len() - index,
    {
        proof {
            assert(text@.take(index + 1).drop_last() =~= text@.take(index as int));
        }
        match digit_value(text[index], radix) {
            None => {
                proof {
                    lemma_run_end(text@, 0, is_digit(radix), index as int);
                }
                return Err(NumberError::InvalidDigit { index });
            },
            Some(digit) => {
                assert(value as u32 * radix as u32 <= 0xFFFF * 36) by (nonlinear_arith)
                    requires
                        value <= 0xFFFF,
                        radix <= 36,
                ;
                let next: u32 = value as u32 * radix as u32 + digit as u32;
                if next > 0xFFFF {
                    proof {
                        lemma_run_end_bounds(text@, 0, is_digit(radix));
                        let stop = run_end(text@, 0, is_digit(radix));
                        if stop <= index {
                            assert(is_digit(radix)(text@[stop]));
                        }
                        lemma_digits_value_grows(text@, radix, index + 1, stop);
                    }
                    return Err(NumberError::Overflow);
                }
                value = next as u16;
            },
        }
        index += 1;
    }
    proof {
        lemma_run_end(text@, 0, is_digit(radix), text.len() as int);
        assert(text@.take(text.len() as int) =~= text@);
    }
    Ok(value)
}

/// The word for `-n` in two's complement.
pub open spec fn spec_flip_sign(n: u16) -> u16 {
    ((0x10000 - n) % 0x10000) as u16
}

/// Flips the sign of a word in two's complement.
pub fn flip_sign_twos_complement(n: u16) -> (flipped: u16)
    ensures
        flipped == spec_flip_sign(n),
{
    let flipped = !n.wrapping_sub(1);
    assert(flipped == spec_flip_sign(n)) by {
        let m = n.wrapping_sub(1);
        assert(!m == 0xFFFFu16 - m) by (bit_vector);
    }
    flipped
}

} // verus!
