//! What the library takes on trust of the standard library's strings.

use vstd::prelude::*;

verus! {

/// `String::push` appends the given character to the end of the string and
/// changes nothing else of it.
pub assume_specification[ String::push ](text: &mut String, glyph: char)
    ensures
        final(text)@ == old(text)@.push(glyph),
;

} // verus!
