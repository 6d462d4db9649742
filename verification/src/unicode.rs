//! Letter case and canonical composition, as the Unicode tables of the
//! standard library and of `unicode-normalization` define them.

use unicode_normalization::UnicodeNormalization;
use vstd::prelude::*;

verus! {

/// The text that `str::to_lowercase` makes of `s`.
pub uninterp spec fn lowercase_of(s: Seq<char>) -> Seq<char>;

/// The text that `str::to_uppercase` makes of `s`.
pub uninterp spec fn uppercase_of(s: Seq<char>) -> Seq<char>;

/// The canonical composition (Normalization Form C) of `s`.
pub uninterp spec fn composed_of(s: Seq<char>) -> Seq<char>;

/// `str::to_lowercase`: the lowercase equivalent of the text, by the Unicode
/// property Lowercase. The mapping is named, not stated.
#[verifier::external_body]
pub(crate) fn to_lowercase(s: &str) -> (r: String)
    ensures
        r@ == lowercase_of(s@),
{
    s.to_lowercase()
}

/// `str::to_uppercase`: the uppercase equivalent of the text, by the Unicode
/// property Uppercase. The mapping is named, not stated.
#[verifier::external_body]
pub(crate) fn to_uppercase(s: &str) -> (r: String)
    ensures
        r@ == uppercase_of(s@),
{
    s.to_uppercase()
}

/// `UnicodeNormalization::nfc` of `unicode-normalization`, collected into a
/// string: canonical decomposition followed by canonical composition. The
/// mapping is named, not stated.
#[verifier::external_body]
pub(crate) fn compose(s: &str) -> (r: String)
    ensures
        r@ == composed_of(s@),
{
    s.nfc().collect()
}

} // verus!
