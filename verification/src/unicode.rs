//! Unicode normalization through the `unicode-normalization` crate.

use unicode_normalization::UnicodeNormalization;
use crate::text::{chars_of, string_of};
use vstd::prelude::*;

verus! {

/// Normalization Form C of a character sequence, as the
/// `unicode-normalization` crate computes it (canonical decomposition
/// followed by canonical composition).
pub uninterp spec fn nfc_of(s: Seq<char>) -> Seq<char>;

/// `UnicodeNormalization::nfc` of the unicode-normalization crate, collected.
/// Claimed: the result is `nfc_of` of the input, a function of the input alone.
#[verifier::external_body]
pub(crate) fn nfc_chars(v: &[char]) -> (r: Vec<char>)
    ensures
        r@ == nfc_of(v@),
{
    v.iter().copied().nfc().collect()
}


/// A name in Normalization Form C, the form names are compared and stored in
/// (macOS hands out decomposed names).
pub fn nfc(s: &str) -> (r: String)
    ensures
        r@ == nfc_of(s@),
{
    let c = chars_of(s);
    let n = nfc_chars(c.as_slice());
    string_of(n.as_slice())
}

} // verus!
