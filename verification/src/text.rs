//! What this library takes on trust about characters and strings of the
//! standard library, and the decimal notation built on it.

use vstd::prelude::*;

verus! {

/// Whether a number is a Unicode scalar value: a code point that is no
/// surrogate.
pub open spec fn is_scalar_value(value: u32) -> bool {
    value < 0xD800 || (0xE000 <= value && value <= 0x10FFFF)
}

/// `char::from_u32` of the standard library, taken on trust: it gives the
/// character with the given number where that number is a Unicode scalar
/// value, and `None` for every other number.
pub assume_specification[ char::from_u32 ](i: u32) -> (character: Option<char>)
    ensures
        is_scalar_value(i) ==> character == Some(i as char),
        !is_scalar_value(i) ==> character is None,
;

/// `String::push` of the standard library, taken on trust: it appends the
/// character to the end of the string and changes nothing else.
pub assume_specification[ String::push ](text: &mut String, ch: char)
    ensures
        final(text)@ == old(text)@.push(ch),
;

/// The character that stands for a decimal digit.
pub open spec fn digit(value: nat) -> char
    recommends
        value < 10,
{
    (48 + value) as char
}

/// A natural number in decimal notation, without leading zeros.
pub open spec fn decimal(value: nat) -> Seq<char>
    decreases value,
{
    if value < 10 {
        seq![digit(value)]
    } else {
        decimal(value / 10).push(digit(value % 10))
    }
}

/// Appends `value` in decimal notation to `text`.
pub fn push_decimal(text: &mut String, value: u64)
    ensures
        final(text)@ == old(text)@ + decimal(value as nat),
    decreases value,
{
    if value >= 10 {
        push_decimal(text, value / 10);
    }
    let low: u8 = (value % 10) as u8;
    let character: char = (48u8 + low) as char;
    text.push(character);
}

} // verus!
