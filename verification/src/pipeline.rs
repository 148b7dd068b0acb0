//! The extraction pipeline: candidate elements in document order, one
//! classification per candidate, and order-preserving deduplication of the
//! surviving (file name, absolute URL) pairs.

use vstd::prelude::*;
use crate::classify::{classify_candidate, classify_spec};
use crate::select::{candidate_of, candidate_of_element, elements_of, select_candidate_elements};
use crate::text::str_eq;

verus! {

/// What one matched element contributes: the classification of its
/// candidate link, nothing when it has no relevant attribute.
pub open spec fn link_of_element(
    e: (Seq<char>, Option<Seq<char>>, Option<Seq<char>>),
    base: Seq<char>,
) -> Option<(Seq<char>, Seq<char>)> {
    match candidate_of(e) {
        Some(raw) => classify_spec(raw, base),
        None => None,
    }
}

/// The classified links that the elements contribute, in document order,
/// duplicates included.
pub open spec fn links_of(
    elems: Seq<(Seq<char>, Option<Seq<char>>, Option<Seq<char>>)>,
    base: Seq<char>,
) -> Seq<(Seq<char>, Seq<char>)>
    decreases elems.len(),
{
    if elems.len() == 0 {
        Seq::empty()
    } else {
        let rest = links_of(elems.drop_last(), base);
        match link_of_element(elems.last(), base) {
            Some(l) => rest.push(l),
            None => rest,
        }
    }
}

/// `s` with every pair that already appeared dropped: each distinct pair
/// stays exactly once, at the position of its first occurrence.
pub open spec fn dedup_spec(s: Seq<(Seq<char>, Seq<char>)>) -> Seq<(Seq<char>, Seq<char>)>
    decreases s.len(),
{
    if s.len() == 0 {
        Seq::empty()
    } else {
        let rest = dedup_spec(s.drop_last());
        if rest.contains(s.last()) {
            rest
        } else {
            rest.push(s.last())
        }
    }
}

/// The whole pipeline over the matched elements of a document: classify
/// each candidate and keep the distinct pairs in first-occurrence order.
pub open spec fn pipeline_spec(
    elems: Seq<(Seq<char>, Option<Seq<char>>, Option<Seq<char>>)>,
    base: Seq<char>,
) -> Seq<(Seq<char>, Seq<char>)> {
    dedup_spec(links_of(elems, base))
}

proof fn lemma_links_of_step(
    elems: Seq<(Seq<char>, Option<Seq<char>>, Option<Seq<char>>)>,
    base: Seq<char>,
    i: int,
)
    requires
        0 <= i < elems.len(),
    ensures
        links_of(elems.take(i + 1), base) == (match link_of_element(elems[i], base) {
            Some(l) => links_of(elems.take(i), base).push(l),
            None => links_of(elems.take(i), base),
        }),
{
    assert(elems.take(i + 1).drop_last() =~= elems.take(i));
    assert(elems.take(i + 1).last() == elems[i]);
}

proof fn lemma_dedup_step(s: Seq<(Seq<char>, Seq<char>)>, x: (Seq<char>, Seq<char>))
    ensures
        dedup_spec(s.push(x)) == (if dedup_spec(s).contains(x) {
            dedup_spec(s)
        } else {
            dedup_spec(s).push(x)
        }),
{
    assert(s.push(x).drop_last() =~= s);
    assert(s.push(x).last() == x);
}

/// Whether `item` already appears in `v`, by exact equality of both fields.
fn contains_pair(v: &Vec<(String, String)>, item: &(String, String)) -> (r: bool)
    ensures
        r == v.deep_view().contains(item.deep_view()),
{
    let mut i: usize = 0;
    while i < v.len()
        invariant
            i <= v.len(),
            forall|j: int| 0 <= j < i ==> v.deep_view()[j] != item.deep_view(),
        decreases v.len() - i,
    {
        if str_eq(v[i].0.as_str(), item.0.as_str()) && str_eq(v[i].1.as_str(), item.1.as_str()) {
            proof {
                assert(v.deep_view()[i as int] == item.deep_view());
            }
            return true;
        }
        i += 1;
    }
    proof {
        assert forall|j: int| 0 <= j < v.deep_view().len() implies v.deep_view()[j]
            != item.deep_view() by {}
    }
    false
}

/// Run the pipeline over already-selected elements: classify each
/// element's candidate link against the page URL `base` and collect the
/// distinct (file name, absolute URL) pairs in first-occurrence order.
pub fn extract_media_links(
    elements: &Vec<(String, Option<String>, Option<String>)>,
    base: &str,
) -> (r: Vec<(String, String)>)
    ensures
        r.deep_view() == pipeline_spec(elements.deep_view(), base@),
{
    let ghost dv = elements.deep_view();
    let mut out: Vec<(String, String)> = Vec::new();
    proof {
        assert(out.deep_view() =~= Seq::<(Seq<char>, Seq<char>)>::empty());
        assert(dv.take(0) =~= Seq::<(Seq<char>, Option<Seq<char>>, Option<Seq<char>>)>::empty());
    }
    let mut i: usize = 0;
    while i < elements.len()
        invariant
            i <= elements.len(),
            dv == elements.deep_view(),
            dv.len() == elements.len(),
            out.deep_view() == dedup_spec(links_of(dv.take(i as int), base@)),
        decreases elements.len() - i,
    {
        proof {
            lemma_links_of_step(dv, base@, i as int);
        }
        let e = &elements[i];
        proof {
            assert(e.deep_view() == dv[i as int]);
        }
        if let Some(raw) = candidate_of_element(e) {
            if let Some(link) = classify_candidate(raw.as_str(), base) {
                proof {
                    lemma_dedup_step(links_of(dv.take(i as int), base@), link.deep_view());
                }
                if !contains_pair(&out, &link) {
                    let ghost old_out = out.deep_view();
                    out.push(link);
                    proof {
                        assert(out.deep_view() =~= old_out.push(out.deep_view().last()));
                    }
                }
            }
        }
        i += 1;
    }
    proof {
        assert(dv.take(dv.len() as int) =~= dv);
    }
    out
}

/// Extract the playable media links of the page markup `body`, resolved to
/// absolute form against the page URL `base`: the distinct (file name,
/// absolute URL) pairs of every audio or video link in a matched element,
/// in first-occurrence order.
pub fn scrape_media_links(body: &str, base: &str) -> (r: Vec<(String, String)>)
    ensures
        r.deep_view() == pipeline_spec(elements_of(body@), base@),
{
    let elements = select_candidate_elements(body);
    extract_media_links(&elements, base)
}

/// Whether an HTTP status code means success: its category (its hundreds
/// digit) is 2.
pub fn is_success_status(status: u16) -> (r: bool)
    ensures
        r == (status / 100 == 2),
{
    status / 100 == 2
}

/// Outcome of one request once the fetch has answered with `status` and,
/// when it decoded, the page markup `body`: the page's media links exactly
/// when the status category is 2 and a body is there, nothing on every
/// other outcome.
pub fn scrape_response(status: u16, body: Option<&str>, base: &str) -> (r: Option<
    Vec<(String, String)>,
>)
    ensures
        r is Some <==> (status / 100 == 2 && body is Some),
        r matches Some(v) ==> v.deep_view() == pipeline_spec(elements_of(body->0@), base@),
{
    if is_success_status(status) {
        match body {
            Some(b) => Some(scrape_media_links(b, base)),
            None => None,
        }
    } else {
        None
    }
}

} // verus!
