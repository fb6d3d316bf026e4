//! Unicode normalization, delegated to the `unicode-normalization` crate.

use unicode_normalization::UnicodeNormalization;
use vstd::prelude::*;

verus! {

/// The compatibility composed form (NFKC) of a text, as
/// `UnicodeNormalization::nfkc` produces it.
pub uninterp spec fn nfkc_form(text: Seq<char>) -> Seq<char>;

/// Calls `UnicodeNormalization::nfkc` on the string and collects the
/// characters it yields; the result is the text that `nfkc_form` names.
#[verifier::external_body]
pub(crate) fn nfkc(text: &str) -> (r: String)
    ensures
        r@ == nfkc_form(text@),
{
    text.nfkc().collect::<String>()
}

} // verus!
