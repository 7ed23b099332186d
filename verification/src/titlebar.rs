//! The colour of the title bar, as the shell wants it.

use vstd::prelude::*;

verus! {

/// A colour in the shell's order of bytes: red lowest, then green, then blue, and nothing on
/// top.
pub fn colorref(red: u8, green: u8, blue: u8) -> (colour: u32)
    ensures
        colour == red + 256 * green + 65536 * blue,
{
    red as u32 + green as u32 * 256 + blue as u32 * 65536
}

} // verus!
