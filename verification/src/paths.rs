//! Which file extensions name a tile store.

use vstd::prelude::*;

verus! {

/// The accepted extension, in lower case.
pub open spec fn mbtiles_letters() -> Seq<char> {
    seq!['m', 'b', 't', 'i', 'l', 'e', 's']
}

/// `c` is the lower-case letter `letter` or its ASCII capital.
pub open spec fn same_letter(c: char, letter: char) -> bool {
    c == letter || (c as int) + 32 == (letter as int)
}

/// `extension` spells `mbtiles`, ASCII case ignored; no other spelling, and
/// in particular not the empty extension, is accepted.
pub open spec fn is_mbtiles_extension(extension: Seq<char>) -> bool {
    &&& extension.len() == mbtiles_letters().len()
    &&& forall|i: int|
        0 <= i < extension.len() ==> same_letter(#[trigger] extension[i], mbtiles_letters()[i])
}

fn letter_matches(c: char, letter: char) -> (same: bool)
    ensures
        same == same_letter(c, letter),
{
    let code: u32 = c as u32;
    let wanted: u32 = letter as u32;
    c == letter || code + 32 == wanted
}

/// Decides whether a path with this extension may be opened as a tile store.
/// The extension is given without its dot; a path that has none gives `""`.
pub fn has_mbtiles_extension(extension: &str) -> (accepted: bool)
    ensures
        accepted == is_mbtiles_extension(extension@),
{
    let letters: [char; 7] = ['m', 'b', 't', 'i', 'l', 'e', 's'];
    assert(letters@ =~= mbtiles_letters());
    if extension.unicode_len() != 7 {
        return false;
    }
    let mut i: usize = 0;
    while i < 7
        invariant
            i <= 7,
            extension@.len() == 7,
            letters@ == mbtiles_letters(),
            forall|j: int| 0 <= j < i ==> same_letter(#[trigger] extension@[j], mbtiles_letters()[j]),
        decreases 7 - i,
    {
        if !letter_matches(extension.get_char(i), letters[i]) {
            return false;
        }
        i += 1;
    }
    true
}

} // verus!
