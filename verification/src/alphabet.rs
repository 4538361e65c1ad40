//! The fixed 26-letter alphabet that every component works over, and the
//! bijection between letters and their positions.

use vstd::prelude::*;

verus! {

/// The ordered symbol set; all position arithmetic is over indices into it.
pub const SUPPORTED_ALPHABET: &'static str = "ABCDEFGHIJKLMNOPQRSTUVWXYZ";

/// A symbol the machine supports: one of the 26 uppercase Latin letters.
pub open spec fn is_letter(c: char) -> bool {
    65 <= c as int <= 90
}

/// The position of a letter in the alphabet: 'A' is 0, 'Z' is 25.
pub open spec fn letter_index(c: char) -> int {
    c as int - 65
}

/// The letter at a given alphabet position.
pub open spec fn letter_at(i: int) -> char {
    (i + 65) as char
}

/// Positions and letters are in bijection.
pub proof fn lemma_letter_bijection(c: char, i: int)
    ensures
        is_letter(c) ==> letter_at(letter_index(c)) == c,
        0 <= i < 26 ==> is_letter(letter_at(i)) && letter_index(letter_at(i)) == i,
{
}

/// Looks a character up in the alphabet, returning its position.
pub fn char_to_index(c: char) -> (r: Option<u8>)
    ensures
        r is Some <==> is_letter(c),
        r is Some ==> r->0 < 26 && r->0 as int == letter_index(c),
{
    let u = c as u32;
    if 65 <= u && u <= 90 {
        Some((u - 65) as u8)
    } else {
        None
    }
}

/// Whether the machine supports a character.
pub fn is_supported(c: char) -> (r: bool)
    ensures
        r == is_letter(c),
{
    let u = c as u32;
    65 <= u && u <= 90
}

/// The letter standing at a given alphabet position.
pub fn index_to_char(i: u8) -> (c: char)
    requires
        i < 26,
    ensures
        c == letter_at(i as int),
        is_letter(c),
{
    (65 + i) as char
}

} // verus!
