//! The characters in the order of their code points, read as one range
//! without the gap that the surrogate code points leave.

use vstd::prelude::*;

verus! {

/// The number of characters: the code points up to `0x10ffff` that are no
/// surrogates.
pub const NUMBER_OF_CHARS: u32 = 0x10f800;

/// The code point is that of a character: it is no surrogate and not above
/// `0x10ffff`.
pub open spec fn is_scalar_value(u: u32) -> bool {
    u <= 0xd7ff || 0xe000 <= u <= 0x10ffff
}

/// `char::from_u32` of the standard library, taken on trust: it gives the
/// character with the code point `i`, and `None` exactly for the code
/// points that are surrogates or above `0x10ffff`.
pub assume_specification[ char::from_u32 ](i: u32) -> (r: Option<char>)
    ensures
        r is Some <==> is_scalar_value(i),
        r matches Some(c) ==> c as u32 == i,
;

/// The place of a character among all characters, counted from zero.
pub open spec fn char_to_contiguous_range_spec(c: char) -> u32 {
    if c as u32 <= 0xd7ff {
        c as u32
    } else {
        (c as u32 - 0x800) as u32
    }
}

/// Returns the place of a character among all characters, counted from
/// zero: its code point, less the surrogates below it.
pub fn char_to_contiguous_range(c: char) -> (r: u32)
    ensures
        r == char_to_contiguous_range_spec(c),
        r < NUMBER_OF_CHARS,
        r == 0 <==> c == '\0',
        r == NUMBER_OF_CHARS - 1 <==> c == '\u{10ffff}',
{
    let u: u32 = c as u32;
    if u <= 0xd7ff {
        u
    } else {
        u - 0x800
    }
}

/// Returns the character at a place among all characters; `None` for a
/// place past the last one.
pub fn contiguous_range_to_char(u: u32) -> (r: Option<char>)
    ensures
        r is Some <==> u < NUMBER_OF_CHARS,
        r matches Some(c) ==> char_to_contiguous_range_spec(c) == u,
{
    if u <= 0xd7ff {
        char::from_u32(u)
    } else if u <= 0x10f7ff {
        char::from_u32(u + 0x800)
    } else {
        None
    }
}

/// Replaces a character, which is not the last one, by the next one.
pub fn increment_char(c: &mut char)
    requires
        *old(c) != '\u{10ffff}',
    ensures
        char_to_contiguous_range_spec(*final(c)) == char_to_contiguous_range_spec(*old(c)) + 1,
{
    let next: u32 = char_to_contiguous_range(*c) + 1;
    match contiguous_range_to_char(next) {
        Some(following) => {
            *c = following;
        },
        None => {},
    }
}

/// Replaces a character, which is not the first one, by the one before.
pub fn decrement_char(c: &mut char)
    requires
        *old(c) != '\0',
    ensures
        char_to_contiguous_range_spec(*final(c)) == char_to_contiguous_range_spec(*old(c)) - 1,
{
    let place: u32 = char_to_contiguous_range(*c);
    match contiguous_range_to_char(place - 1) {
        Some(before) => {
            *c = before;
        },
        None => {},
    }
}

} // verus!
