//! The laws of the extraction pipeline: every result entry is playable
//! media, the result holds no duplicate pair, entries stand in
//! first-occurrence order, and the pipeline is deterministic.

use vstd::prelude::*;
use crate::classify::extension_of;
use crate::mime::{is_media_category, mime_top_of};
use crate::pipeline::{dedup_spec, link_of_element, links_of, pipeline_spec};
use crate::select::elements_of;

verus! {

proof fn lemma_links_entry_media(
    elems: Seq<(Seq<char>, Option<Seq<char>>, Option<Seq<char>>)>,
    base: Seq<char>,
    k: int,
)
    requires
        0 <= k < links_of(elems, base).len(),
    ensures
        is_media_category(mime_top_of(extension_of(links_of(elems, base)[k].0))),
    decreases elems.len(),
{
    if elems.len() > 0 {
        let rest = links_of(elems.drop_last(), base);
        match link_of_element(elems.last(), base) {
            Some(l) => {
                if k < rest.len() {
                    lemma_links_entry_media(elems.drop_last(), base, k);
                    assert(rest.push(l)[k] == rest[k]);
                } else {
                    assert(links_of(elems, base)[k] == l);
                }
            },
            None => {
                lemma_links_entry_media(elems.drop_last(), base, k);
            },
        }
    }
}

proof fn lemma_dedup_props(s: Seq<(Seq<char>, Seq<char>)>)
    ensures
        forall|x: (Seq<char>, Seq<char>)|
            #[trigger] dedup_spec(s).contains(x) <==> s.contains(x),
        forall|p: int, q: int|
            0 <= p < q < dedup_spec(s).len() ==> dedup_spec(s)[p] != dedup_spec(s)[q],
    decreases s.len(),
{
    if s.len() > 0 {
        let t = s.drop_last();
        let y = s.last();
        let rest = dedup_spec(t);
        lemma_dedup_props(t);
        assert forall|x: (Seq<char>, Seq<char>)| s.contains(x) implies (t.contains(x) || x
            == y) by {
            let i = choose|i: int| 0 <= i < s.len() && s[i] == x;
            if i < s.len() - 1 {
                assert(t[i] == x);
            }
        }
        assert forall|x: (Seq<char>, Seq<char>)| (t.contains(x) || x == y) implies s.contains(
            x,
        ) by {
            if t.contains(x) {
                let i = choose|i: int| 0 <= i < t.len() && t[i] == x;
                assert(s[i] == x);
            } else {
                assert(s[s.len() - 1] == x);
            }
        }
        if rest.contains(y) {
            assert forall|x: (Seq<char>, Seq<char>)| #[trigger]
                dedup_spec(s).contains(x) <==> s.contains(x) by {}
        } else {
            let res = rest.push(y);
            assert forall|x: (Seq<char>, Seq<char>)| #[trigger] res.contains(x) implies s.contains(
                x,
            ) by {
                let i = choose|i: int| 0 <= i < res.len() && res[i] == x;
                if i < rest.len() {
                    assert(rest[i] == x);
                    assert(rest.contains(x));
                }
            }
            assert forall|x: (Seq<char>, Seq<char>)| s.contains(x) implies #[trigger] res.contains(
                x,
            ) by {
                if t.contains(x) {
                    assert(dedup_spec(t).contains(x));
                    let i = choose|i: int| 0 <= i < rest.len() && rest[i] == x;
                    assert(res[i] == x);
                } else {
                    assert(res[rest.len() as int] == x);
                }
            }
            assert forall|p: int, q: int| 0 <= p < q < res.len() implies res[p] != res[q] by {
                if q == rest.len() {
                    assert(rest[p] == res[p]);
                    if res[p] == y {
                        assert(rest.contains(y));
                    }
                }
            }
        }
    }
}

/// Index of the first occurrence of the pair `x` in `s`, or `s.len()` if it
/// never occurs.
pub open spec fn first_occurrence(
    s: Seq<(Seq<char>, Seq<char>)>,
    x: (Seq<char>, Seq<char>),
) -> int
    decreases s.len(),
{
    if s.len() == 0 {
        0
    } else if s[0] == x {
        0
    } else {
        1 + first_occurrence(s.drop_first(), x)
    }
}

proof fn lemma_first_occurrence(s: Seq<(Seq<char>, Seq<char>)>, x: (Seq<char>, Seq<char>))
    ensures
        0 <= first_occurrence(s, x) <= s.len(),
        first_occurrence(s, x) < s.len() ==> s[first_occurrence(s, x)] == x,
        forall|j: int| 0 <= j < first_occurrence(s, x) ==> s[j] != x,
        s.contains(x) ==> first_occurrence(s, x) < s.len(),
    decreases s.len(),
{
    if s.len() == 0 {
    } else if s[0] == x {
    } else {
        lemma_first_occurrence(s.drop_first(), x);
        assert forall|j: int| 0 <= j < first_occurrence(s, x) implies s[j] != x by {
            if j > 0 {
                assert(s.drop_first()[j - 1] == s[j]);
            }
        }
        if s.contains(x) {
            let i = choose|i: int| 0 <= i < s.len() && s[i] == x;
            assert(s.drop_first()[i - 1] == x);
            assert(s.drop_first().contains(x));
        }
    }
}

proof fn lemma_first_occurrence_push(
    t: Seq<(Seq<char>, Seq<char>)>,
    y: (Seq<char>, Seq<char>),
    x: (Seq<char>, Seq<char>),
)
    ensures
        t.contains(x) ==> first_occurrence(t.push(y), x) == first_occurrence(t, x),
        !t.contains(x) ==> first_occurrence(t.push(y), x) >= t.len(),
    decreases t.len(),
{
    let s = t.push(y);
    if t.len() == 0 {
        assert(s.len() == 1);
        if s[0] != x {
            assert(s.drop_first().len() == 0);
            assert(first_occurrence(s, x) == 1 + first_occurrence(s.drop_first(), x));
        }
    } else if t[0] == x {
        assert(s[0] == x);
        t.lemma_index_contains(0);
    } else {
        assert(s[0] == t[0]);
        assert(s.drop_first() =~= t.drop_first().push(y));
        lemma_first_occurrence_push(t.drop_first(), y, x);
        if t.contains(x) {
            let i = choose|i: int| 0 <= i < t.len() && t[i] == x;
            assert(t.drop_first()[i - 1] == x);
            t.drop_first().lemma_index_contains(i - 1);
        } else {
            if t.drop_first().contains(x) {
                let i = choose|i: int| 0 <= i < t.drop_first().len() && t.drop_first()[i] == x;
                assert(t[i + 1] == x);
                t.lemma_index_contains(i + 1);
                assert(false);
            }
            assert(first_occurrence(s, x) == 1 + first_occurrence(s.drop_first(), x));
            assert(first_occurrence(s.drop_first(), x) >= t.drop_first().len());
        }
    }
}

proof fn lemma_dedup_order(s: Seq<(Seq<char>, Seq<char>)>)
    ensures
        forall|p: int, q: int|
            0 <= p < q < dedup_spec(s).len() ==> first_occurrence(s, #[trigger] dedup_spec(s)[p])
                < first_occurrence(s, #[trigger] dedup_spec(s)[q]),
    decreases s.len(),
{
    if s.len() > 0 {
        let t = s.drop_last();
        let y = s.last();
        let rest = dedup_spec(t);
        lemma_dedup_order(t);
        lemma_dedup_props(t);
        assert(s =~= t.push(y));
        let res = dedup_spec(s);
        assert forall|p: int, q: int| 0 <= p < q < res.len() implies first_occurrence(
            s,
            res[p],
        ) < first_occurrence(s, res[q]) by {
            if rest.contains(y) {
                assert(res == rest);
                rest.lemma_index_contains(p);
                rest.lemma_index_contains(q);
                assert(t.contains(res[p]) && t.contains(res[q]));
                lemma_first_occurrence_push(t, y, res[p]);
                lemma_first_occurrence_push(t, y, res[q]);
            } else {
                assert(res == rest.push(y));
                if q < rest.len() {
                    assert(res[p] == rest[p] && res[q] == rest[q]);
                    rest.lemma_index_contains(p);
                    rest.lemma_index_contains(q);
                    assert(t.contains(res[p]) && t.contains(res[q]));
                    lemma_first_occurrence_push(t, y, res[p]);
                    lemma_first_occurrence_push(t, y, res[q]);
                } else {
                    assert(res[q] == y);
                    assert(res[p] == rest[p]);
                    rest.lemma_index_contains(p);
                    assert(t.contains(res[p]));
                    assert(!dedup_spec(t).contains(y));
                    assert(!t.contains(y));
                    lemma_first_occurrence_push(t, y, res[p]);
                    lemma_first_occurrence_push(t, y, y);
                    lemma_first_occurrence(t, res[p]);
                }
            }
        }
    }
}

/// Every entry of the result set is playable media: the extension of its
/// file name maps to a MIME type whose top-level category is `audio` or
/// `video`, whatever the document holds.
pub proof fn lemma_result_entries_are_media(body: Seq<char>, base: Seq<char>, k: int)
    requires
        0 <= k < pipeline_spec(elements_of(body), base).len(),
    ensures
        is_media_category(
            mime_top_of(extension_of(pipeline_spec(elements_of(body), base)[k].0)),
        ),
{
    let links = links_of(elements_of(body), base);
    let res = pipeline_spec(elements_of(body), base);
    lemma_dedup_props(links);
    assert(res.contains(res[k]));
    assert(links.contains(res[k]));
    let j = choose|j: int| 0 <= j < links.len() && links[j] == res[k];
    lemma_links_entry_media(elements_of(body), base, j);
}

/// The result set holds no two entries with an identical (file name,
/// absolute URL) pair, whatever the document holds.
pub proof fn lemma_result_distinct(body: Seq<char>, base: Seq<char>, p: int, q: int)
    requires
        0 <= p < q < pipeline_spec(elements_of(body), base).len(),
    ensures
        pipeline_spec(elements_of(body), base)[p] != pipeline_spec(elements_of(body), base)[q],
{
    lemma_dedup_props(links_of(elements_of(body), base));
}

/// The result set holds exactly the pairs that some matched element of the
/// document contributes after classification.
pub proof fn lemma_result_members(body: Seq<char>, base: Seq<char>)
    ensures
        forall|x: (Seq<char>, Seq<char>)|
            #[trigger] pipeline_spec(elements_of(body), base).contains(x) <==> links_of(
                elements_of(body),
                base,
            ).contains(x),
{
    lemma_dedup_props(links_of(elements_of(body), base));
}

proof fn lemma_links_prefix(
    elems: Seq<(Seq<char>, Option<Seq<char>>, Option<Seq<char>>)>,
    base: Seq<char>,
    k: int,
)
    requires
        0 <= k <= elems.len(),
    ensures
        links_of(elems.take(k), base).len() <= links_of(elems, base).len(),
        forall|p: int|
            0 <= p < links_of(elems.take(k), base).len() ==> links_of(elems, base)[p] == links_of(
                elems.take(k),
                base,
            )[p],
    decreases elems.len(),
{
    if k == elems.len() {
        assert(elems.take(k) =~= elems);
    } else {
        assert(elems.drop_last().take(k) =~= elems.take(k));
        lemma_links_prefix(elems.drop_last(), base, k);
    }
}

/// Document order: when a matched element at position `i` and a later one
/// at position `j` both contribute a classified link, the earlier
/// element's link stands at a lower position among the classified links of
/// the document than the later element's link.
pub proof fn lemma_document_order(body: Seq<char>, base: Seq<char>, i: int, j: int)
    requires
        0 <= i < j < elements_of(body).len(),
        link_of_element(elements_of(body)[i], base) is Some,
        link_of_element(elements_of(body)[j], base) is Some,
    ensures
        ({
            let elems = elements_of(body);
            let links = links_of(elems, base);
            let p = links_of(elems.take(i), base).len() as int;
            let q = links_of(elems.take(j), base).len() as int;
            &&& p < q < links.len()
            &&& links[p] == link_of_element(elems[i], base)->0
            &&& links[q] == link_of_element(elems[j], base)->0
        }),
{
    let elems = elements_of(body);
    let links = links_of(elems, base);
    let p = links_of(elems.take(i), base).len() as int;
    let q = links_of(elems.take(j), base).len() as int;
    lemma_links_of_unfold(elems, base, i);
    lemma_links_of_unfold(elems, base, j);
    lemma_links_prefix(elems.take(j), base, i + 1);
    assert(elems.take(j).take(i + 1) =~= elems.take(i + 1));
    assert(elems.take(j).take(i) =~= elems.take(i));
    lemma_links_prefix(elems, base, i + 1);
    lemma_links_prefix(elems, base, j + 1);
    assert(links_of(elems.take(i + 1), base)[p] == link_of_element(elems[i], base)->0);
    assert(links_of(elems.take(j + 1), base)[q] == link_of_element(elems[j], base)->0);
}

proof fn lemma_links_of_unfold(
    elems: Seq<(Seq<char>, Option<Seq<char>>, Option<Seq<char>>)>,
    base: Seq<char>,
    i: int,
)
    requires
        0 <= i < elems.len(),
        link_of_element(elems[i], base) is Some,
    ensures
        links_of(elems.take(i + 1), base) == links_of(elems.take(i), base).push(
            link_of_element(elems[i], base)->0,
        ),
{
    assert(elems.take(i + 1).drop_last() =~= elems.take(i));
    assert(elems.take(i + 1).last() == elems[i]);
}

/// First-occurrence order: two result entries stand in the order in which
/// their first occurrences stand among the classified links of the
/// document, so a link classified earlier in document order precedes one
/// classified later.
pub proof fn lemma_result_order(body: Seq<char>, base: Seq<char>, p: int, q: int)
    requires
        0 <= p < q < pipeline_spec(elements_of(body), base).len(),
    ensures
        first_occurrence(
            links_of(elements_of(body), base),
            pipeline_spec(elements_of(body), base)[p],
        ) < first_occurrence(
            links_of(elements_of(body), base),
            pipeline_spec(elements_of(body), base)[q],
        ),
{
    lemma_dedup_order(links_of(elements_of(body), base));
}

/// Running the pipeline twice on the same document and page URL yields
/// identical result sets.
pub proof fn lemma_pipeline_deterministic(
    body: Seq<char>,
    base: Seq<char>,
    r1: Seq<(Seq<char>, Seq<char>)>,
    r2: Seq<(Seq<char>, Seq<char>)>,
)
    requires
        r1 == pipeline_spec(elements_of(body), base),
        r2 == pipeline_spec(elements_of(body), base),
    ensures
        r1 == r2,
{
}

} // verus!
