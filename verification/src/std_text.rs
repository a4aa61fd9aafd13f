//! What this library assumes of the standard library's text functions.

use vstd::prelude::*;

verus! {

/// `String::push` appends one character to the string and changes nothing
/// else of it.
pub assume_specification[ String::push ](s: &mut String, ch: char)
    ensures
        final(s)@ == old(s)@.push(ch),
;

/// `char::from_u32` gives the character with the code `i`, and `None` where
/// `i` is a surrogate or lies beyond U+10FFFF.
pub assume_specification[ char::from_u32 ](i: u32) -> (r: Option<char>)
    ensures
        r == if i < 0xD800 || (0xE000 <= i && i <= 0x10FFFF) {
            Some(i as char)
        } else {
            None::<char>
        },
;

} // verus!
