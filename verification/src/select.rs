//! Selection of candidate elements from page markup through the `scraper`
//! crate, and the choice of the relevant attribute per tag.
//!
//! Only `audio`, `video`, `source`, `track` and `a` elements are inspected;
//! the first four carry their candidate link in `src`, anchors carry it in
//! `href`.

use vstd::prelude::*;
use crate::text::str_eq;

verus! {

/// One entry per element of the parsed document that the fixed selector
/// `audio, video, source, track, a` matches, in document order: the
/// element's tag name, its `src` value and its `href` value.
pub uninterp spec fn elements_of(body: Seq<char>) -> Seq<
    (Seq<char>, Option<Seq<char>>, Option<Seq<char>>),
>;

/// Relies on scraper::Html::parse_fragment, scraper::Selector::parse and
/// scraper::Html::select: parsing a fragment is a deterministic function of
/// the markup, and `select` yields the elements matching the selector in
/// document order; Element::name and Element::attr read the (lowercased)
/// tag name and the attribute values of one element.
#[verifier::external_body]
pub(crate) fn select_candidate_elements(body: &str) -> (r: Vec<
    (String, Option<String>, Option<String>),
>)
    ensures
        r.deep_view() == elements_of(body@),
{
    let fragment = scraper::Html::parse_fragment(body);
    let selector = scraper::Selector::parse("audio, video, source, track, a").unwrap();
    fragment.select(&selector).map(
        |e| (
            e.value().name().to_string(),
            e.value().attr("src").map(|v| v.to_string()),
            e.value().attr("href").map(|v| v.to_string()),
        ),
    ).collect()
}

/// The candidate link of one matched element: the `href` value of an
/// anchor, the `src` value of the four media-bearing tags, nothing
/// otherwise or when the relevant attribute is missing.
pub open spec fn candidate_of(e: (Seq<char>, Option<Seq<char>>, Option<Seq<char>>)) -> Option<
    Seq<char>,
> {
    if e.0 == "a"@ {
        e.2
    } else if e.0 == "audio"@ || e.0 == "video"@ || e.0 == "source"@ || e.0 == "track"@ {
        e.1
    } else {
        None
    }
}

/// The candidate link of one matched element, read from the attribute that
/// its tag name makes relevant.
pub fn candidate_of_element(e: &(String, Option<String>, Option<String>)) -> (r: Option<String>)
    ensures
        r.deep_view() == candidate_of(e.deep_view()),
{
    if str_eq(e.0.as_str(), "a") {
        match &e.2 {
            Some(v) => Some(v.clone()),
            None => None,
        }
    } else if str_eq(e.0.as_str(), "audio") || str_eq(e.0.as_str(), "video") || str_eq(
        e.0.as_str(),
        "source",
    ) || str_eq(e.0.as_str(), "track") {
        match &e.1 {
            Some(v) => Some(v.clone()),
            None => None,
        }
    } else {
        None
    }
}

} // verus!
