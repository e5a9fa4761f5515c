//! The numbers that literal tokens write.

use vstd::prelude::*;
use crate::double::{double_of_text, text_to_double};

verus! {

/// Whether `c` is one of the digits `0` to `9`.
pub open spec fn is_digit(c: char) -> bool {
    '0' <= c <= '9'
}

/// Whether every character of the text is a digit.
pub open spec fn all_digits(text: Seq<char>) -> bool {
    forall|i: int| 0 <= i < text.len() ==> is_digit(#[trigger] text[i])
}

/// The number that a digit stands for.
pub open spec fn digit_value(c: char) -> int {
    c as int - '0' as int
}

/// The number that a text of digits writes in base ten.
pub open spec fn digits_value(text: Seq<char>) -> int
    decreases text.len(),
{
    if text.len() == 0 {
        0
    } else {
        10 * digits_value(text.drop_last()) + digit_value(text.last())
    }
}

/// The integer that a literal writes: its digits' value, where the text is
/// made of one or more digits and the value fits in 64 bits.
pub open spec fn integer_value(text: Seq<char>) -> Option<i64> {
    if text.len() > 0 && all_digits(text) && digits_value(text) <= i64::MAX {
        Some(digits_value(text) as i64)
    } else {
        None
    }
}

/// Whether the text is a decimal literal with its point at `dot`: one or
/// more digits, the point, and then digits or nothing.
pub open spec fn is_decimal_at(text: Seq<char>, dot: int) -> bool {
    &&& 0 < dot < text.len()
    &&& text[dot] == '.'
    &&& forall|i: int| 0 <= i < text.len() && i != dot ==> is_digit(#[trigger] text[i])
}

/// Whether the text is a decimal literal.
pub open spec fn is_decimal(text: Seq<char>) -> bool {
    exists|dot: int| is_decimal_at(text, dot)
}

/// The greatest number of characters that a decimal literal may have.
pub const MAX_DECIMAL_LENGTH: usize = 10_000_000;

/// Whether the text is a decimal literal that can be read: one of at most
/// [`MAX_DECIMAL_LENGTH`] characters.
pub open spec fn is_decimal_literal(text: Seq<char>) -> bool {
    is_decimal(text) && text.len() <= MAX_DECIMAL_LENGTH
}

/// The double that a text writes, by its bit pattern: every decimal
/// literal that can be read writes one, and no other text does.
pub open spec fn decimal_value(text: Seq<char>) -> Option<u64> {
    if is_decimal_literal(text) {
        Some(double_of_text(text))
    } else {
        None
    }
}

/// Tells whether `c` is a digit.
fn digit(c: char) -> (is: bool)
    ensures
        is == is_digit(c),
{
    '0' <= c && c <= '9'
}

/// Reads an integer literal.
pub fn parse_integer(text: &str) -> (value: Option<i64>)
    ensures
        value == integer_value(text@),
{
    let count = text.unicode_len();
    if count == 0 {
        return None;
    }
    let mut value: i64 = 0;
    let mut overflow = false;
    let mut i: usize = 0;
    while i < count
        invariant
            i <= count,
            count == text@.len(),
            all_digits(text@.subrange(0, i as int)),
            !overflow ==> value == digits_value(text@.subrange(0, i as int)),
            overflow ==> digits_value(text@.subrange(0, i as int)) > i64::MAX,
            0 <= value,
        decreases count - i,
    {
        let c = text.get_char(i);
        let ghost shorter = text@.subrange(0, i as int);
        let ghost longer = text@.subrange(0, i + 1);
        proof {
            assert(longer.drop_last() =~= shorter);
            assert(longer.last() == c);
        }
        if !digit(c) {
            assert(!is_digit(text@[i as int]));
            return None;
        }
        assert forall|k: int| 0 <= k < longer.len() implies is_digit(#[trigger] longer[k]) by {
            if k < i {
                assert(shorter[k] == longer[k]);
            }
        }
        let d: i64 = (c as u32 - '0' as u32) as i64;
        assert(d == digit_value(c));
        if overflow || value > (i64::MAX - d) / 10 {
            overflow = true;
        } else {
            value = value * 10 + d;
        }
        i += 1;
    }
    proof {
        assert(text@.subrange(0, count as int) =~= text@);
    }
    if overflow {
        None
    } else {
        Some(value)
    }
}

/// Reads a decimal literal.
pub fn parse_decimal(text: &str) -> (bits: Option<u64>)
    ensures
        bits == decimal_value(text@),
{
    if !text.is_ascii() {
        proof {
            assert forall|at: int| !is_decimal_at(text@, at) by {
                if is_decimal_at(text@, at) {
                    let k = choose|k: int|
                        0 <= k < text@.len() && !('\0' <= #[trigger] text@[k] <= '\u{7f}');
                    if k != at {
                        assert(is_digit(text@[k]));
                    }
                }
            }
        }
        return None;
    }
    let count = text.unicode_len();
    if count > MAX_DECIMAL_LENGTH {
        return None;
    }
    let mut dot: Option<usize> = None;
    let mut i: usize = 0;
    while i < count
        invariant
            i <= count,
            count == text@.len(),
            text.is_ascii(),
            match dot {
                Some(d) => d < i && 0 < d && text@[d as int] == '.' && forall|k: int|
                    0 <= k < i && k != d ==> is_digit(#[trigger] text@[k]),
                None => forall|k: int| 0 <= k < i ==> is_digit(#[trigger] text@[k]),
            },
        decreases count - i,
    {
        let byte = text.get_ascii(i);
        let ghost c = text@[i as int];
        proof {
            assert('\0' <= c <= '\u{7f}');
            assert(c as u8 == byte);
            assert((c == '.') == (byte == 46u8));
            assert(is_digit(c) == (48u8 <= byte <= 57u8));
        }
        if byte == 46u8 && dot.is_none() && i > 0 {
            dot = Some(i);
        } else if !(48u8 <= byte && byte <= 57u8) {
            proof {
                assert forall|at: int| !is_decimal_at(text@, at) by {
                    if is_decimal_at(text@, at) {
                        if at != i {
                            assert(is_digit(text@[i as int]));
                        } else {
                            if i > 0 {
                                let d = dot->Some_0;
                                assert(is_digit(text@[d as int]));
                            }
                        }
                    }
                }
            }
            return None;
        }
        i += 1;
    }
    match dot {
        Some(d) => {
            assert(is_decimal_at(text@, d as int));
            text_to_double(text)
        },
        None => {
            proof {
                assert forall|at: int| !is_decimal_at(text@, at) by {
                    if is_decimal_at(text@, at) {
                        assert(is_digit(text@[at]));
                    }
                }
            }
            None
        },
    }
}

} // verus!
