//! Classification of a file extension into a coarse media type through the
//! extension-to-MIME table of the `mime_guess` crate.

use vstd::prelude::*;
use crate::text::str_eq;

verus! {

/// The top-level part (the piece before the `/`) of the MIME type that the
/// extension table associates with `ext`, with the `text/plain` fallback
/// for an unmapped extension.
pub uninterp spec fn mime_top_of(ext: Seq<char>) -> Seq<char>;

/// Relies on mime_guess::from_ext and MimeGuess::first_or_text_plain: the
/// guess is a case-insensitive lookup in a static extension table, so the
/// result is a function of the extension alone, and an empty or unmapped
/// extension falls back to `text/plain`.
#[verifier::external_body]
pub(crate) fn mime_top_level(ext: &str) -> (r: String)
    ensures
        r@ == mime_top_of(ext@),
{
    let mime = mime_guess::from_ext(ext).first_or_text_plain();
    mime.type_().as_str().to_string()
}

/// A MIME top-level category counts as playable media exactly when it is
/// `audio` or `video`.
pub open spec fn is_media_category(top: Seq<char>) -> bool {
    top == "audio"@ || top == "video"@
}

/// Whether `top` is one of the two playable-media MIME categories.
pub fn is_media_top(top: &str) -> (r: bool)
    ensures
        r == is_media_category(top@),
{
    str_eq(top, "audio") || str_eq(top, "video")
}

} // verus!
