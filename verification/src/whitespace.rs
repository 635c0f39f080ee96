//! The whitespace characters, spelled out: the Unicode `White_Space`
//! code points, which is the set the word- and line-splitting utilities
//! are specified against.

use vstd::prelude::*;

verus! {

/// Whether `c` is a whitespace character: one of the Unicode
/// `White_Space` code points.
pub open spec fn is_space_char(c: char) -> bool {
    let u = c as u32;
    &&& (0x09 <= u <= 0x0D || u == 0x20 || u == 0x85 || u == 0xA0 || u == 0x1680 || (0x2000 <= u
        <= 0x200A) || u == 0x2028 || u == 0x2029 || u == 0x202F || u == 0x205F || u == 0x3000)
}

/// The executable whitespace test.
pub fn char_is_space(c: char) -> (r: bool)
    ensures
        r == is_space_char(c),
{
    let u = c as u32;
    (0x09 <= u && u <= 0x0D) || u == 0x20 || u == 0x85 || u == 0xA0 || u == 0x1680 || (0x2000 <= u
        && u <= 0x200A) || u == 0x2028 || u == 0x2029 || u == 0x202F || u == 0x205F || u == 0x3000
}

} // verus!
