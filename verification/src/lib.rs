//! Core engine of a terminal commit-history viewer: parsing of textual
//! commit-graph output into structured lines, branch descendant resolution
//! with a per-snapshot cache, and colorization of the parsed tokens.

use vstd::prelude::*;

pub mod color;
pub mod commit;
pub mod parse;
pub mod session;
pub mod text;

verus! {

/// Whether a character is an ASCII hexadecimal digit.
pub open spec fn is_hex_char(c: char) -> bool {
    (48 <= c as u32 && c as u32 <= 57)  // '0'..='9'
    || (97 <= c as u32 && c as u32 <= 102)  // 'a'..='f'
    || (65 <= c as u32 && c as u32 <= 70)  // 'A'..='F'
}

/// Executable test for an ASCII hexadecimal digit.
pub fn is_hex_digit(c: char) -> (r: bool)
    ensures
        r == is_hex_char(c),
{
    let u = c as u32;
    (48 <= u && u <= 57) || (97 <= u && u <= 102) || (65 <= u && u <= 70)
}

} // verus!
