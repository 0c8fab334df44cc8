//! Reading a text as a boolean or as a whole number.
//!
//! A whole number is an optional sign, `+` or, for a signed kind, `-`, and
//! then one or more decimal digits. The text is read from left to right, and
//! the first thing that is wrong with it is the failure: a character that is
//! no digit, or a digit that takes the number out of the kind's range.

use vstd::prelude::*;
use crate::error::ParseFailure;
use crate::text::to_chars;

verus! {

/// The value of the decimal digit `c`, if it is one.
pub open spec fn digit_of(c: char) -> Option<int> {
    if c == '0' {
        Some(0)
    } else if c == '1' {
        Some(1)
    } else if c == '2' {
        Some(2)
    } else if c == '3' {
        Some(3)
    } else if c == '4' {
        Some(4)
    } else if c == '5' {
        Some(5)
    } else if c == '6' {
        Some(6)
    } else if c == '7' {
        Some(7)
    } else if c == '8' {
        Some(8)
    } else if c == '9' {
        Some(9)
    } else {
        None
    }
}

/// The number reached after the digits `digits` were read onto `acc`, each
/// digit taking the number ten times further from zero and then further by
/// itself, upwards or, where `negative`, downwards; or the first failure.
pub open spec fn digits_from(
    digits: Seq<char>,
    acc: int,
    negative: bool,
    min: int,
    max: int,
) -> Result<int, ParseFailure>
    decreases digits.len(),
{
    if digits.len() == 0 {
        Ok(acc)
    } else {
        match digit_of(digits[0]) {
            None => Err(ParseFailure::InvalidDigit),
            Some(d) => {
                let next = if negative {
                    acc * 10 - d
                } else {
                    acc * 10 + d
                };
                if next > max {
                    Err(ParseFailure::TooLarge)
                } else if next < min {
                    Err(ParseFailure::TooSmall)
                } else {
                    digits_from(digits.drop_first(), next, negative, min, max)
                }
            },
        }
    }
}

/// The whole number that `text` stands for in a kind that reaches from `min`
/// to `max` and is signed or not; or why it stands for none.
pub open spec fn number_of(text: Seq<char>, signed: bool, min: int, max: int) -> Result<
    int,
    ParseFailure,
> {
    if text.len() == 0 {
        Err(ParseFailure::Empty)
    } else if text.len() == 1 && (text[0] == '+' || text[0] == '-') {
        Err(ParseFailure::InvalidDigit)
    } else if text[0] == '+' {
        digits_from(text.drop_first(), 0, false, min, max)
    } else if text[0] == '-' && signed {
        digits_from(text.drop_first(), 0, true, min, max)
    } else {
        digits_from(text, 0, false, min, max)
    }
}

/// The boolean that `text` stands for: `true` for the text `true`, `false` for
/// the text `false`, and nothing for any other.
pub open spec fn bool_of(text: Seq<char>) -> Option<bool> {
    if text == seq!['t', 'r', 'u', 'e'] {
        Some(true)
    } else if text == seq!['f', 'a', 'l', 's', 'e'] {
        Some(false)
    } else {
        None
    }
}

/// The value of the decimal digit `c`, if it is one.
pub fn digit(c: char) -> (d: Option<u8>)
    ensures
        match digit_of(c) {
            Some(v) => d == Some(v as u8) && 0 <= v <= 9,
            None => d is None,
        },
{
    match c {
        '0' => Some(0),
        '1' => Some(1),
        '2' => Some(2),
        '3' => Some(3),
        '4' => Some(4),
        '5' => Some(5),
        '6' => Some(6),
        '7' => Some(7),
        '8' => Some(8),
        '9' => Some(9),
        _ => None,
    }
}

/// Reads `text` as a whole number of a kind that reaches from `min` to `max`.
pub fn parse_number(text: &str, signed: bool, min: i128, max: i128) -> (r: Result<
    i128,
    ParseFailure,
>)
    requires
        -0x8000_0000_0000_0000 <= min <= 0 <= max <= 0xffff_ffff_ffff_ffff,
    ensures
        match number_of(text@, signed, min as int, max as int) {
            Ok(v) => r == Ok::<i128, ParseFailure>(v as i128) && min <= v <= max,
            Err(why) => r == Err::<i128, ParseFailure>(why),
        },
{
    let chars = to_chars(text);
    if chars.len() == 0 {
        return Err(ParseFailure::Empty);
    }
    if chars.len() == 1 && (chars[0] == '+' || chars[0] == '-') {
        return Err(ParseFailure::InvalidDigit);
    }
    let negative = chars[0] == '-' && signed;
    let start: usize = if chars[0] == '+' || negative {
        1
    } else {
        0
    };
    let mut acc: i128 = 0;
    let mut i: usize = start;
    proof {
        assert(chars@.skip(0) == chars@);
        assert(chars@.skip(1) == chars@.drop_first());
    }
    while i < chars.len()
        invariant
            start <= i <= chars.len(),
            min <= acc <= max,
            -0x8000_0000_0000_0000 <= min <= 0 <= max <= 0xffff_ffff_ffff_ffff,
            number_of(text@, signed, min as int, max as int) == digits_from(
                chars@.skip(i as int),
                acc as int,
                negative,
                min as int,
                max as int,
            ),
        decreases chars.len() - i,
    {
        proof {
            assert(chars@.skip(i as int)[0] == chars@[i as int]);
            assert(chars@.skip(i as int).drop_first() == chars@.skip(i + 1));
        }
        let d = match digit(chars[i]) {
            Some(d) => d,
            None => {
                return Err(ParseFailure::InvalidDigit);
            },
        };
        let next = if negative {
            acc * 10 - (d as i128)
        } else {
            acc * 10 + (d as i128)
        };
        if next > max {
            return Err(ParseFailure::TooLarge);
        }
        if next < min {
            return Err(ParseFailure::TooSmall);
        }
        acc = next;
        i += 1;
    }
    Ok(acc)
}

/// Reads `text` as a boolean.
pub fn parse_bool(text: &str) -> (r: Result<bool, ParseFailure>)
    ensures
        match bool_of(text@) {
            Some(b) => r == Ok::<bool, ParseFailure>(b),
            None => r == Err::<bool, ParseFailure>(ParseFailure::NotBool),
        },
{
    let chars = to_chars(text);
    if chars.len() == 4 && chars[0] == 't' && chars[1] == 'r' && chars[2] == 'u' && chars[3]
        == 'e' {
        assert(text@ =~= seq!['t', 'r', 'u', 'e']);
        Ok(true)
    } else if chars.len() == 5 && chars[0] == 'f' && chars[1] == 'a' && chars[2] == 'l'
        && chars[3] == 's' && chars[4] == 'e' {
        assert(text@ =~= seq!['f', 'a', 'l', 's', 'e']);
        Ok(false)
    } else {
        proof {
            if text@ == seq!['t', 'r', 'u', 'e'] {
                assert(chars@[0] == 't' && chars@[1] == 'r' && chars@[2] == 'u' && chars@[3]
                    == 'e');
            }
            if text@ == seq!['f', 'a', 'l', 's', 'e'] {
                assert(chars@[0] == 'f' && chars@[1] == 'a' && chars@[2] == 'l' && chars@[3]
                    == 's' && chars@[4] == 'e');
            }
        }
        Err(ParseFailure::NotBool)
    }
}

} // verus!
