//! What the library has from the strings of the standard library: the
//! lowercase form of a text. Nothing here is proved: the contract restates
//! what the standard library documents.

use vstd::prelude::*;

verus! {

/// The text that `str::to_lowercase` makes of a text.
pub uninterp spec fn lowercase_of(text: Seq<char>) -> Seq<char>;

/// `str::to_lowercase`: the text with every letter in its lowercase form.
/// The standard library defines that form by the tables of Unicode; here it
/// only has a name.
#[verifier::external_body]
pub(crate) fn to_lowercase(text: &str) -> (lower: String)
    ensures
        lower@ == lowercase_of(text@),
{
    text.to_lowercase()
}

} // verus!
