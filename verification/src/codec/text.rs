//! Numbers as text.

use vstd::prelude::*;
use vstd::string::StringExecFns;

verus! {

/// `String::push`: appends one character.
#[verifier::external_body]
pub(crate) fn string_push(text: &mut String, c: char)
    ensures
        final(text)@ == old(text)@.push(c),
{
    text.push(c);
}

/// The character of a digit below sixteen, lower case. Fifteen and all above
/// it give `f`.
pub open spec fn digit_char(digit: nat) -> char {
    if digit == 0 {
        '0'
    } else if digit == 1 {
        '1'
    } else if digit == 2 {
        '2'
    } else if digit == 3 {
        '3'
    } else if digit == 4 {
        '4'
    } else if digit == 5 {
        '5'
    } else if digit == 6 {
        '6'
    } else if digit == 7 {
        '7'
    } else if digit == 8 {
        '8'
    } else if digit == 9 {
        '9'
    } else if digit == 10 {
        'a'
    } else if digit == 11 {
        'b'
    } else if digit == 12 {
        'c'
    } else if digit == 13 {
        'd'
    } else if digit == 14 {
        'e'
    } else {
        'f'
    }
}

/// The character of the digit `value`. Fifteen and all above it give `f`.
pub fn digit(value: u8) -> (c: char)
    ensures
        c == digit_char(value as nat),
{
    match value {
        0 => '0',
        1 => '1',
        2 => '2',
        3 => '3',
        4 => '4',
        5 => '5',
        6 => '6',
        7 => '7',
        8 => '8',
        9 => '9',
        10 => 'a',
        11 => 'b',
        12 => 'c',
        13 => 'd',
        14 => 'e',
        _ => 'f',
    }
}

/// The decimal digits of a natural number, without leading zeros.
pub open spec fn decimal_digits(value: nat) -> Seq<char>
    decreases value,
{
    if value < 10 {
        seq![digit_char(value)]
    } else {
        decimal_digits(value / 10).push(digit_char(value % 10))
    }
}

/// A whole number in decimal, with a minus sign where it is negative.
pub open spec fn decimal_text(value: int) -> Seq<char> {
    if value < 0 {
        seq!['-'] + decimal_digits((-value) as nat)
    } else {
        decimal_digits(value as nat)
    }
}

/// Appends the decimal digits of `value`.
fn push_digits(text: &mut String, value: u64)
    ensures
        final(text)@ == old(text)@ + decimal_digits(value as nat),
    decreases value,
{
    if value >= 10 {
        push_digits(text, value / 10);
    }
    string_push(text, digit((value % 10) as u8));
}

/// Appends `value` in decimal.
pub fn push_decimal(text: &mut String, value: i64)
    ensures
        final(text)@ == old(text)@ + decimal_text(value as int),
{
    if value < 0 {
        string_push(text, '-');
        let magnitude: u64 = if value == i64::MIN {
            0x8000_0000_0000_0000
        } else {
            (-value) as u64
        };
        push_digits(text, magnitude);
    } else {
        push_digits(text, value as u64);
    }
}

/// The message for a number that is no discriminant of the enumeration
/// `name`.
pub open spec fn discriminant_text(name: Seq<char>, raw: int) -> Seq<char> {
    "Invalid "@ + name + " discriminant: "@ + decimal_text(raw)
}

/// The message for a number that is no discriminant of the enumeration
/// `name`.
pub fn discriminant_message(name: &str, raw: i64) -> (r: String)
    ensures
        r@ == discriminant_text(name@, raw as int),
{
    let mut text = String::from_str("Invalid ");
    text.append(name);
    text.append(" discriminant: ");
    push_decimal(&mut text, raw);
    text
}

} // verus!
