//! The textual form of an identifier: thirty-two hexadecimal digits in five
//! groups.

use vstd::prelude::*;

verus! {

/// The length of the textual form.
pub const TEXT_LENGTH: usize = 36;

/// The character that stands for a value below sixteen.
pub open spec fn hex_digit(value: int) -> char {
    seq!['0', '1', '2', '3', '4', '5', '6', '7', '8', '9', 'a', 'b', 'c', 'd', 'e', 'f'][value]
}

/// Sixteen to the power `exponent`.
pub open spec fn sixteen_to(exponent: nat) -> int
    decreases exponent,
{
    if exponent == 0 {
        1
    } else {
        16 * sixteen_to((exponent - 1) as nat)
    }
}

/// The hexadecimal digit of `value` at `place`, the most significant of the
/// thirty-two standing at place 0.
pub open spec fn digit_at(value: u128, place: int) -> int {
    (value as int / sixteen_to((31 - place) as nat)) % 16
}

/// Whether a hyphen stands at `position` of the text.
pub open spec fn is_hyphen_position(position: int) -> bool {
    position == 8 || position == 13 || position == 18 || position == 23
}

/// How many hyphens stand ahead of `position`.
pub open spec fn hyphens_ahead(position: int) -> int {
    if position > 23 {
        4
    } else if position > 18 {
        3
    } else if position > 13 {
        2
    } else if position > 8 {
        1
    } else {
        0
    }
}

/// The text for `value`: its thirty-two digits, most significant first, in
/// lower case, in groups of eight, four, four, four and twelve with a hyphen
/// between two groups.
pub open spec fn hyphenated(value: u128) -> Seq<char> {
    Seq::new(
        TEXT_LENGTH as nat,
        |position: int|
            if is_hyphen_position(position) {
                '-'
            } else {
                hex_digit(digit_at(value, position - hyphens_ahead(position)))
            },
    )
}

} // verus!
