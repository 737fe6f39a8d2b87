//! Hexadecimal digit characters: which characters count as digits, the value
//! a digit stands for, and the lowercase digit chosen when bytes are printed.

use vstd::prelude::*;

verus! {

/// A character that stands for one hexadecimal digit: `0`-`9`, `a`-`f` or `A`-`F`.
pub open spec fn is_hex_digit(c: char) -> bool {
    ||| ('0' as u32) <= (c as u32) && (c as u32) <= ('9' as u32)
    ||| ('a' as u32) <= (c as u32) && (c as u32) <= ('f' as u32)
    ||| ('A' as u32) <= (c as u32) && (c as u32) <= ('F' as u32)
}

/// The numeric value of a hexadecimal digit character, in `0..16`.
pub open spec fn hex_digit_value(c: char) -> u8
    recommends
        is_hex_digit(c),
{
    if ('0' as u32) <= (c as u32) && (c as u32) <= ('9' as u32) {
        ((c as u32) - ('0' as u32)) as u8
    } else if ('a' as u32) <= (c as u32) && (c as u32) <= ('f' as u32) {
        ((c as u32) - ('a' as u32) + 10) as u8
    } else {
        ((c as u32) - ('A' as u32) + 10) as u8
    }
}

/// The lowercase hexadecimal digit character for a value in `0..16`.
pub open spec fn hex_digit_char(d: u8) -> char
    recommends
        d < 16,
{
    if d < 10 {
        (d + ('0' as u32)) as char
    } else {
        (d - 10 + ('a' as u32)) as char
    }
}

/// Printing a digit value and reading the digit back returns the value.
pub proof fn lemma_hex_digit_char_inverse(d: u8)
    requires
        d < 16,
    ensures
        is_hex_digit(hex_digit_char(d)),
        hex_digit_value(hex_digit_char(d)) == d,
{
}

/// The value of a hexadecimal digit is below 16.
pub proof fn lemma_hex_digit_value_bound(c: char)
    requires
        is_hex_digit(c),
    ensures
        hex_digit_value(c) < 16,
{
}

/// Reads one character as a hexadecimal digit; `None` on any other character.
pub fn hex_digit_of_char(c: char) -> (r: Option<u8>)
    ensures
        r is Some <==> is_hex_digit(c),
        is_hex_digit(c) ==> r == Some(hex_digit_value(c)),
{
    let u = c as u32;
    if ('0' as u32) <= u && u <= ('9' as u32) {
        Some((u - ('0' as u32)) as u8)
    } else if ('a' as u32) <= u && u <= ('f' as u32) {
        Some((u - ('a' as u32) + 10) as u8)
    } else if ('A' as u32) <= u && u <= ('F' as u32) {
        Some((u - ('A' as u32) + 10) as u8)
    } else {
        None
    }
}

} // verus!
