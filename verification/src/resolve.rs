//! Resolution of a candidate link to absolute form against the page URL.
//!
//! The rules are deliberately plain rather than standards-compliant: an
//! `http`-prefixed link is kept unchanged, a protocol-relative link gets
//! `https:`, and any other link gets the page URL prepended verbatim, with
//! a single separating slash only when the link does not begin with one.

use vstd::prelude::*;
use vstd::string::*;
use crate::text::{has_prefix, str_has_prefix};

verus! {

/// The absolute form of the link `u` against the page URL `base`.
pub open spec fn resolve_spec(u: Seq<char>, base: Seq<char>) -> Seq<char> {
    if has_prefix(u, "http"@) {
        u
    } else if has_prefix(u, "//"@) {
        "https:"@ + u
    } else if has_prefix(u, "/"@) {
        base + u
    } else {
        base + "/"@ + u
    }
}

/// Resolve the candidate link `u` to absolute form against the page URL
/// `base`.
pub fn resolve_url(u: &str, base: &str) -> (r: String)
    ensures
        r@ == resolve_spec(u@, base@),
{
    if str_has_prefix(u, "http") {
        String::from_str(u)
    } else if str_has_prefix(u, "//") {
        String::from_str("https:").concat(u)
    } else if str_has_prefix(u, "/") {
        String::from_str(base).concat(u)
    } else {
        String::from_str(base).concat("/").concat(u)
    }
}

} // verus!
