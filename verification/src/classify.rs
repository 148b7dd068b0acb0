//! Classification of one raw candidate link: trim it, strip its query
//! string, derive its file name and extension, keep it only when the
//! extension maps to an audio or video MIME category, and resolve it to
//! absolute form.

use vstd::prelude::*;
use vstd::string::*;
use crate::mime::{is_media_category, is_media_top, mime_top_level, mime_top_of};
use crate::resolve::{resolve_spec, resolve_url};
use crate::text::{
    find_last, last_hit, prefix_before, split_after_last, split_before, suffix_after_last, trim_of,
    trim_str,
};

verus! {

/// The candidate after trimming and query-string removal, the string that
/// both the file name and the resolved URL are derived from.
pub open spec fn stripped_of(raw: Seq<char>) -> Seq<char> {
    prefix_before(trim_of(raw), '?')
}

/// The file name of a stripped candidate: what follows the last `/`, or the
/// whole string when it has none.
pub open spec fn file_name_of(t: Seq<char>) -> Seq<char> {
    suffix_after_last(t, '/')
}

/// The extension of a file name: what follows the last `.`, empty when it
/// has none.
pub open spec fn extension_of(name: Seq<char>) -> Seq<char> {
    if last_hit(name, '.') >= 0 {
        suffix_after_last(name, '.')
    } else {
        Seq::empty()
    }
}

/// The extension of the file name `name`.
pub fn extension_of_name<'a>(name: &'a str) -> (r: &'a str)
    ensures
        r@ == extension_of(name@),
{
    match find_last(name, '.') {
        Some(_) => split_after_last(name, '.'),
        None => {
            proof {
                reveal_strlit("");
                assert(""@ =~= Seq::<char>::empty());
            }
            ""
        },
    }
}

/// What one raw candidate contributes to the result: its (file name,
/// absolute URL) pair when its extension maps to an audio or video MIME
/// category, nothing otherwise.
pub open spec fn classify_spec(raw: Seq<char>, base: Seq<char>) -> Option<(Seq<char>, Seq<char>)> {
    let t = stripped_of(raw);
    let name = file_name_of(t);
    if is_media_category(mime_top_of(extension_of(name))) {
        Some((name, resolve_spec(t, base)))
    } else {
        None
    }
}

/// Classify one raw candidate link against the page URL `base`: the (file
/// name, absolute URL) pair of a playable-media link, or nothing when the
/// candidate is filtered out.
pub fn classify_candidate(raw: &str, base: &str) -> (r: Option<(String, String)>)
    ensures
        r.deep_view() == classify_spec(raw@, base@),
{
    let trimmed = trim_str(raw);
    let t = split_before(trimmed, '?');
    let name = split_after_last(t, '/');
    let ext = extension_of_name(name);
    let top = mime_top_level(ext);
    if is_media_top(top.as_str()) {
        let url = resolve_url(t, base);
        Some((String::from_str(name), url))
    } else {
        None
    }
}

} // verus!
