//! ROT13: the letter substitution that moves each Latin letter thirteen
//! places along the alphabet.

use vstd::prelude::*;

verus! {

/// The low byte of the code point of `c`.
pub open spec fn low_byte(c: char) -> u8 {
    (c as u32 % 256) as u8
}

/// The byte that ROT13 gives for `c`: a letter of the first half of the
/// alphabet moves thirteen places up, one of the second half thirteen places
/// down, in either case; any other character gives the low byte of its code
/// point.
pub open spec fn rot13_byte(c: char) -> u8 {
    if ('A' <= c && c <= 'M') || ('a' <= c && c <= 'm') {
        (c as u32 + 13) as u8
    } else if ('N' <= c && c <= 'Z') || ('n' <= c && c <= 'z') {
        (c as u32 - 13) as u8
    } else {
        low_byte(c)
    }
}

/// Rotates one character.
pub fn rot13(c: char) -> (byte: u8)
    ensures
        byte == rot13_byte(c),
{
    let code: u32 = c as u32;
    if ('A' <= c && c <= 'M') || ('a' <= c && c <= 'm') {
        (code + 13) as u8
    } else if ('N' <= c && c <= 'Z') || ('n' <= c && c <= 'z') {
        (code - 13) as u8
    } else {
        (code % 256) as u8
    }
}

/// Rotating twice gives the character back: ROT13 is its own inverse on every
/// character that fits in one byte.
pub proof fn lemma_rot13_twice(c: char)
    requires
        (c as u32) < 256,
    ensures
        rot13_byte(rot13_byte(c) as char) == c as u32,
{
}

} // verus!
