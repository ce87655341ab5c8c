//! What this library takes on trust from the standard library and from
//! `unicode-segmentation`: character properties, case mappings, and the
//! division of a string into grapheme clusters.
//!
//! Nothing in this file is proved. Each contract gives a name to what the
//! outside function returns, so that the rest of the library can speak of
//! it; the names have no definition here.

use unicode_segmentation::UnicodeSegmentation;
use vstd::prelude::*;

verus! {

/// Whether `c` has the Unicode property `White_Space`.
pub uninterp spec fn is_space(c: char) -> bool;

/// Whether `c` is a letter or a number in Unicode's sense.
pub uninterp spec fn is_word_char(c: char) -> bool;

/// Whether `c` has the Unicode property `Uppercase`.
pub uninterp spec fn is_capital(c: char) -> bool;

/// The lowercase mapping of a string.
pub uninterp spec fn lowercase(s: Seq<char>) -> Seq<char>;

/// The uppercase mapping of a string.
pub uninterp spec fn uppercase(s: Seq<char>) -> Seq<char>;

/// The extended grapheme clusters of a string, in order.
pub uninterp spec fn graphemes(s: Seq<char>) -> Seq<Seq<char>>;

/// The strings of a list, as character sequences.
pub open spec fn strings(list: Seq<String>) -> Seq<Seq<char>> {
    list.map_values(|s: String| s@)
}

/// `char::is_whitespace` returns whether the character has the property
/// `White_Space`.
pub assume_specification[ char::is_whitespace ](c: char) -> (r: bool)
    ensures
        r == is_space(c),
;

/// `char::is_alphanumeric` returns whether the character is a letter or a
/// number.
pub assume_specification[ char::is_alphanumeric ](c: char) -> (r: bool)
    ensures
        r == is_word_char(c),
;

/// `char::is_uppercase` returns whether the character has the property
/// `Uppercase`.
pub assume_specification[ char::is_uppercase ](c: char) -> (r: bool)
    ensures
        r == is_capital(c),
;

/// `str::to_lowercase` returns the lowercase mapping of the string, which
/// depends on the string alone.
pub assume_specification[ str::to_lowercase ](s: &str) -> (r: String)
    ensures
        r@ == lowercase(s@),
;

/// `str::to_uppercase` returns the uppercase mapping of the string, which
/// depends on the string alone.
pub assume_specification[ str::to_uppercase ](s: &str) -> (r: String)
    ensures
        r@ == uppercase(s@),
;

/// `String::push` appends one character at the end of the string.
pub assume_specification[ String::push ](s: &mut String, c: char)
    ensures
        final(s)@ == old(s)@.push(c),
;

/// `UnicodeSegmentation::graphemes` for extended clusters, collected: the
/// iterator hands out the clusters of the string from its start to its
/// end, each a slice that begins where the one before it ended. So the
/// clusters in order spell the string, and none of them is empty.
#[verifier::external_body]
pub(crate) fn split_graphemes(s: &str) -> (r: Vec<String>)
    ensures
        strings(r@) == graphemes(s@),
        strings(r@).flatten() == s@,
        forall|i: int| 0 <= i < r@.len() ==> (#[trigger] r@[i])@.len() > 0,
{
    UnicodeSegmentation::graphemes(s, true).map(String::from).collect()
}

} // verus!
