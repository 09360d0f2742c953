//! Hexadecimal digits.

use vstd::prelude::*;

verus! {

/// The upper-case hexadecimal digit that stands for `v`, for `v` below 16.
pub open spec fn upper_digit(v: int) -> char {
    if v == 0 { '0' } else if v == 1 { '1' } else if v == 2 { '2' } else if v == 3 { '3' }
    else if v == 4 { '4' } else if v == 5 { '5' } else if v == 6 { '6' } else if v == 7 { '7' }
    else if v == 8 { '8' } else if v == 9 { '9' } else if v == 10 { 'A' } else if v == 11 { 'B' }
    else if v == 12 { 'C' } else if v == 13 { 'D' } else if v == 14 { 'E' } else { 'F' }
}

/// The value of the hexadecimal digit `c`, of either case; `None` where `c`
/// is no hexadecimal digit.
pub open spec fn digit_value(c: char) -> Option<int> {
    if '0' <= c <= '9' {
        Some(c as int - '0' as int)
    } else if 'a' <= c <= 'f' {
        Some(c as int - 'a' as int + 10)
    } else if 'A' <= c <= 'F' {
        Some(c as int - 'A' as int + 10)
    } else {
        None
    }
}

/// Whether `c` is one of `0` to `9`, `a` to `f` or `A` to `F`.
pub open spec fn is_hex_digit(c: char) -> bool {
    digit_value(c) is Some
}

/// `c` with a lower-case hexadecimal letter turned into its upper-case form.
pub open spec fn to_upper_hex(c: char) -> char {
    if 'a' <= c <= 'f' {
        upper_digit(c as int - 'a' as int + 10)
    } else {
        c
    }
}

/// The upper-case hexadecimal digit for a value below 16.
pub fn upper_digit_of(v: u32) -> (c: char)
    requires
        v < 16,
    ensures
        c == upper_digit(v as int),
{
    if v == 0 { '0' } else if v == 1 { '1' } else if v == 2 { '2' } else if v == 3 { '3' }
    else if v == 4 { '4' } else if v == 5 { '5' } else if v == 6 { '6' } else if v == 7 { '7' }
    else if v == 8 { '8' } else if v == 9 { '9' } else if v == 10 { 'A' } else if v == 11 { 'B' }
    else if v == 12 { 'C' } else if v == 13 { 'D' } else if v == 14 { 'E' } else { 'F' }
}

/// The value of a hexadecimal digit of either case.
pub fn digit_value_of(c: char) -> (r: Option<u32>)
    ensures
        match r {
            Some(v) => digit_value(c) == Some(v as int) && v < 16,
            None => digit_value(c) is None,
        },
{
    let n: u32 = c as u32;
    if '0' <= c && c <= '9' {
        Some(n - 0x30)
    } else if 'a' <= c && c <= 'f' {
        Some(n - 0x61 + 10)
    } else if 'A' <= c && c <= 'F' {
        Some(n - 0x41 + 10)
    } else {
        None
    }
}

/// What an upper-case digit stands for is the value it was made from.
pub proof fn lemma_upper_digit_value(v: int)
    requires
        0 <= v < 16,
    ensures
        digit_value(upper_digit(v)) == Some(v),
{
}

/// A hexadecimal letter stands for the same value in either case, and
/// turning a character to upper case keeps it a digit or no digit.
pub proof fn lemma_digit_case(c: char)
    ensures
        digit_value(to_upper_hex(c)) == digit_value(c),
{
}

} // verus!
