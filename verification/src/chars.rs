//! Character classes used by the scanners: whitespace and decimal digits.

use vstd::prelude::*;

verus! {

/// A character with the Unicode `White_Space` property, the class that
/// delimits tokens in the line grammar.
pub open spec fn is_space_char(c: char) -> bool {
    let u = c as u32;
    u == 0x09 || u == 0x0A || u == 0x0B || u == 0x0C || u == 0x0D || u == 0x20 || u == 0x85
        || u == 0xA0 || u == 0x1680 || (0x2000 <= u && u <= 0x200A) || u == 0x2028 || u == 0x2029
        || u == 0x202F || u == 0x205F || u == 0x3000
}

/// An ASCII decimal digit, the only characters the number scanner consumes.
pub open spec fn is_digit_char(c: char) -> bool {
    0x30 <= (c as u32) && (c as u32) <= 0x39
}

/// The numeric value of a decimal digit character (0 for non-digits).
pub open spec fn digit_of(c: char) -> nat {
    if is_digit_char(c) {
        (c as u32 - 0x30) as nat
    } else {
        0
    }
}

/// The decimal digit character for a value below ten.
pub open spec fn digit_char(d: nat) -> char {
    if d == 0 {
        '0'
    } else if d == 1 {
        '1'
    } else if d == 2 {
        '2'
    } else if d == 3 {
        '3'
    } else if d == 4 {
        '4'
    } else if d == 5 {
        '5'
    } else if d == 6 {
        '6'
    } else if d == 7 {
        '7'
    } else if d == 8 {
        '8'
    } else {
        '9'
    }
}

/// `digit_char` and `digit_of` are inverse on single digits, and a digit
/// character is neither whitespace nor one of the grammar's separators.
pub proof fn lemma_digit_char(d: nat)
    requires
        d < 10,
    ensures
        is_digit_char(digit_char(d)),
        digit_of(digit_char(d)) == d,
        !is_space_char(digit_char(d)),
        digit_char(d) != ':',
        digit_char(d) != ' ',
{
}

/// Whether `c` has the Unicode `White_Space` property.
pub fn is_space(c: char) -> (b: bool)
    ensures
        b == is_space_char(c),
{
    let u = c as u32;
    u == 0x09 || u == 0x0A || u == 0x0B || u == 0x0C || u == 0x0D || u == 0x20 || u == 0x85
        || u == 0xA0 || u == 0x1680 || (0x2000 <= u && u <= 0x200A) || u == 0x2028 || u == 0x2029
        || u == 0x202F || u == 0x205F || u == 0x3000
}

/// Whether `c` is an ASCII decimal digit.
pub fn is_digit(c: char) -> (b: bool)
    ensures
        b == is_digit_char(c),
{
    let u = c as u32;
    0x30 <= u && u <= 0x39
}

/// The numeric value of a decimal digit character.
pub fn digit_value(c: char) -> (d: u64)
    requires
        is_digit_char(c),
    ensures
        d == digit_of(c),
        d < 10,
{
    (c as u32 - 0x30) as u64
}

} // verus!
