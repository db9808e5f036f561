use vstd::prelude::*;

verus! {

/// The code page 437 glyph code of a character, as bracket_lib's fixed
/// conversion table gives it.
pub uninterp spec fn cp437_of(c: char) -> u16;

/// Relies on bracket_lib's `to_cp437`: a fixed table from unicode characters
/// to code page 437 glyph codes, in which every printable ASCII character
/// maps to its own code point.
#[verifier::external_body]
pub fn to_cp437(c: char) -> (g: u16)
    ensures
        g == cp437_of(c),
        32 <= c as int <= 126 ==> g == c as u16,
{
    bracket_lib::terminal::to_cp437(c)
}

} // verus!
