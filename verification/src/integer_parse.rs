//! Parsing of decimal digit sequences — characters or single-byte ASCII
//! codes — into `u32`, by folding each digit into an accumulator through
//! digit concatenation.

use crate::math::integer_math::{
    concat_u32, lemma_concat_single_digit, spec_concat_u32,
};
use vstd::prelude::*;

verus! {

/// True exactly for the ten decimal digit characters.
pub open spec fn is_decimal_digit_char(c: char) -> bool {
    '0' <= c && c <= '9'
}

/// The numeric value of a decimal digit character.
pub open spec fn char_digit_value(c: char) -> u32 {
    (c as u32 - '0' as u32) as u32
}

/// One fold step: a non-digit fails the parse, a digit is appended to
/// the accumulator through digit concatenation.
pub open spec fn spec_parse_step(acc: u32, c: char) -> Option<u32> {
    if is_decimal_digit_char(c) {
        spec_concat_u32(acc, char_digit_value(c))
    } else {
        None
    }
}

/// The value of a sequence of decimal digit characters, folded left to
/// right from an accumulator of 0; `None` on the first non-digit or on
/// overflow. The empty sequence is worth 0.
pub open spec fn spec_parse_u32(digits: Seq<char>) -> Option<u32>
    decreases digits.len(),
{
    if digits.len() == 0 {
        Some(0u32)
    } else {
        match spec_parse_u32(digits.drop_last()) {
            Some(acc) => spec_parse_step(acc, digits.last()),
            None => None,
        }
    }
}

/// The characters with the same numeric codes as the given bytes.
pub open spec fn chars_of_bytes(bytes: Seq<u8>) -> Seq<char> {
    bytes.map_values(|b: u8| b as char)
}

/// Parsing one more element folds it into the value of the prefix.
proof fn lemma_parse_unfold(digits: Seq<char>, i: int)
    requires
        0 <= i < digits.len(),
    ensures
        spec_parse_u32(digits.subrange(0, i + 1)) == (match spec_parse_u32(
            digits.subrange(0, i),
        ) {
            Some(acc) => spec_parse_step(acc, digits[i]),
            None => None,
        }),
{
    let s = digits.subrange(0, i + 1);
    assert(s.drop_last() =~= digits.subrange(0, i));
    assert(s.last() == digits[i]);
}

/// Once a prefix fails to parse, the whole sequence fails.
proof fn lemma_parse_none_extends(digits: Seq<char>, i: int)
    requires
        0 <= i <= digits.len(),
        spec_parse_u32(digits.subrange(0, i)) is None,
    ensures
        spec_parse_u32(digits) is None,
    decreases digits.len() - i,
{
    if i == digits.len() {
        assert(digits.subrange(0, i) =~= digits);
    } else {
        lemma_parse_unfold(digits, i);
        lemma_parse_none_extends(digits, i + 1);
    }
}

/// Decimal digit value of `c`, or `None` when `c` is not one of
/// `'0'..='9'`.
fn char_to_decimal_digit(c: char) -> (r: Option<u32>)
    ensures
        r == (if is_decimal_digit_char(c) {
            Some(char_digit_value(c))
        } else {
            None::<u32>
        }),
{
    let code = c as u32;
    if '0' as u32 <= code && code <= '9' as u32 {
        Some(code - '0' as u32)
    } else {
        None
    }
}

/// Parses a sequence of individual decimal digit characters into the
/// `u32` they denote; `None` on a non-digit element or on overflow. An
/// empty input yields `Some(0)`.
pub fn parse_u32_from_char_slice(source: &[char]) -> (r: Option<u32>)
    ensures
        r == spec_parse_u32(source@),
{
    let mut parsed_int: u32 = 0;
    let mut i: usize = 0;

    proof {
        assert(source@.subrange(0, 0) =~= Seq::<char>::empty());
    }
    while i < source.len()
        invariant
            i <= source@.len(),
            spec_parse_u32(source@.subrange(0, i as int)) == Some(parsed_int),
        decreases source@.len() - i,
    {
        let this_int = match char_to_decimal_digit(source[i]) {
            None => {
                proof {
                    lemma_parse_unfold(source@, i as int);
                    lemma_parse_none_extends(source@, i as int + 1);
                }
                return None;
            },
            Some(x) => x,
        };

        parsed_int = match concat_u32(parsed_int, this_int) {
            None => {
                proof {
                    lemma_parse_unfold(source@, i as int);
                    lemma_parse_none_extends(source@, i as int + 1);
                }
                return None;
            },
            Some(x) => x,
        };

        proof {
            lemma_parse_unfold(source@, i as int);
        }
        i = i + 1;
    }

    proof {
        assert(source@.subrange(0, source@.len() as int) =~= source@);
    }
    Some(parsed_int)
}

/// Parses a sequence of single-byte ASCII digit codes, each read as the
/// character with the same code, with the same semantics as
/// `parse_u32_from_char_slice`.
pub fn parse_u32_from_u8_chars_slice(source: &[u8]) -> (r: Option<u32>)
    ensures
        r == spec_parse_u32(chars_of_bytes(source@)),
{
    let ghost digits = chars_of_bytes(source@);
    let mut parsed_int: u32 = 0;
    let mut i: usize = 0;

    proof {
        assert(digits.subrange(0, 0) =~= Seq::<char>::empty());
    }
    while i < source.len()
        invariant
            i <= source@.len(),
            digits == chars_of_bytes(source@),
            digits.len() == source@.len(),
            spec_parse_u32(digits.subrange(0, i as int)) == Some(parsed_int),
        decreases source@.len() - i,
    {
        proof {
            assert(digits[i as int] == source@[i as int] as char);
        }
        let this_int = match char_to_decimal_digit(source[i] as char) {
            None => {
                proof {
                    lemma_parse_unfold(digits, i as int);
                    lemma_parse_none_extends(digits, i as int + 1);
                }
                return None;
            },
            Some(x) => x,
        };

        parsed_int = match concat_u32(parsed_int, this_int) {
            None => {
                proof {
                    lemma_parse_unfold(digits, i as int);
                    lemma_parse_none_extends(digits, i as int + 1);
                }
                return None;
            },
            Some(x) => x,
        };

        proof {
            lemma_parse_unfold(digits, i as int);
        }
        i = i + 1;
    }

    proof {
        assert(digits.subrange(0, digits.len() as int) =~= digits);
    }
    Some(parsed_int)
}

/// The decimal digit characters of `n`, most significant first.
pub open spec fn decimal_digits_of(n: nat) -> Seq<char>
    decreases n,
{
    if n < 10 {
        seq![decimal_digit_char_of(n)]
    } else {
        decimal_digits_of(n / 10).push(decimal_digit_char_of(n % 10))
    }
}

/// The character for a single decimal digit value.
pub open spec fn decimal_digit_char_of(d: nat) -> char {
    ((d + '0' as u32) as u8) as char
}

/// Law: parsing reproduces the parsed value — for every `n: u32`, the
/// decimal digit sequence of `n` parses back to exactly `Some(n)`.
pub proof fn lemma_parse_round_trip(n: u32)
    ensures
        spec_parse_u32(decimal_digits_of(n as nat)) == Some(n),
    decreases n,
{
    let digits = decimal_digits_of(n as nat);
    if n < 10 {
        let c = decimal_digit_char_of(n as nat);
        assert(digits.drop_last() =~= Seq::<char>::empty());
        assert(spec_parse_u32(Seq::<char>::empty()) == Some(0u32));
        assert(digits.last() == c);
        assert(is_decimal_digit_char(c));
        assert(char_digit_value(c) == n);
        lemma_concat_single_digit(0, n);
    } else {
        lemma_parse_round_trip(n / 10);
        let c = decimal_digit_char_of((n % 10) as nat);
        assert(digits.drop_last() =~= decimal_digits_of((n / 10) as nat));
        assert(digits.last() == c);
        assert(is_decimal_digit_char(c));
        assert(char_digit_value(c) == n % 10);
        assert((n / 10) * 10 + n % 10 == n) by {
            vstd::arithmetic::div_mod::lemma_fundamental_div_mod(n as int, 10);
        }
        lemma_concat_single_digit(n / 10, n % 10);
    }
}

} // verus!
