//! The structural extractor: walks the document's fixed section
//! hierarchy under cardinality contracts and produces one typed
//! [`Post`](crate::records::Post) record, or the first violated
//! contract.
//!
//! Every extraction function is a faithful image of a spec-level
//! mirror; a second extraction of the same document therefore yields
//! the identical record.

use vstd::prelude::*;
use crate::count::{spec_parse_count, spec_parse_numerical_int, parse_count, parse_numerical_int};
use crate::dom::{
    attr_of, by_class, by_id, by_id_not_hidden, by_tag, by_tag_attr, by_tag_attr_eq, child_list,
    children_of, collect_text, collect_text_joined, collect_text_trimmed, filter_matching,
    filtered, join_nl, lemma_child_list_props, lemma_selected_props, lemma_subtree_closed,
    range_has, range_contains, sel_any, sel_class, sel_id, sel_id_not_hidden, sel_matches,
    sel_tag, sel_tag_attr, sel_tag_attr_eq, select_range, selected, spec_attr, text_pieces_range,
    texts_range, trimmed_texts_range, Dom, NodeData, NodeKind, Sel, SelV,
};
use crate::records::{ErrorKind, ErrorKindV};
use crate::text::contains_seq;
use vstd::string::*;

verus! {

/// Descendants of each root, in root order then document order,
/// matching the query: one combinator step of a structural path.
pub open spec fn desc_many(ns: Seq<NodeData>, roots: Seq<usize>, sel: SelV) -> Seq<usize>
    decreases roots.len(),
{
    if roots.len() == 0 {
        Seq::empty()
    } else {
        selected(ns, roots[0] + 1, ns[roots[0] as int].end as int, sel) + desc_many(
            ns,
            roots.skip(1),
            sel,
        )
    }
}

/// Children of each root, in root order then document order, matching
/// the query: one child-combinator step of a structural path.
pub open spec fn children_many(ns: Seq<NodeData>, roots: Seq<usize>, sel: SelV) -> Seq<usize>
    decreases roots.len(),
{
    if roots.len() == 0 {
        Seq::empty()
    } else {
        filtered(ns, child_list(ns, roots[0] + 1, ns[roots[0] as int].end as int), sel)
            + children_many(ns, roots.skip(1), sel)
    }
}

/// All members of a selection lie inside the node array.
pub proof fn lemma_desc_many_props(ns: Seq<NodeData>, roots: Seq<usize>, sel: SelV)
    requires
        ns.len() <= usize::MAX,
        forall|k: int| 0 <= k < roots.len() ==> (#[trigger] roots[k]) < ns.len(),
        forall|i: int| 0 <= i < ns.len() ==> i < (#[trigger] ns[i].end) <= ns.len(),
    ensures
        forall|k: int|
            0 <= k < desc_many(ns, roots, sel).len() ==> (#[trigger] desc_many(ns, roots, sel)[k])
                < ns.len() && sel_matches(ns[desc_many(ns, roots, sel)[k] as int], sel),
    decreases roots.len(),
{
    if roots.len() > 0 {
        let r0 = roots[0];
        lemma_selected_props(ns, r0 + 1, ns[r0 as int].end as int, sel);
        assert(forall|k: int|
            0 <= k < roots.skip(1).len() ==> (#[trigger] roots.skip(1)[k]) < ns.len());
        lemma_desc_many_props(ns, roots.skip(1), sel);
        let s0 = selected(ns, r0 + 1, ns[r0 as int].end as int, sel);
        let rest = desc_many(ns, roots.skip(1), sel);
        let s = desc_many(ns, roots, sel);
        assert forall|k: int|
            0 <= k < s.len() implies (#[trigger] s[k]) < ns.len() && sel_matches(
            ns[s[k] as int],
            sel,
        ) by {
            if k < s0.len() {
                assert(s[k] == s0[k]);
            } else {
                assert(s[k] == rest[k - s0.len()]);
            }
        }
    }
}

/// All members of a filtered list come from the list.
pub proof fn lemma_filtered_props(ns: Seq<NodeData>, idxs: Seq<usize>, sel: SelV)
    ensures
        forall|k: int|
            0 <= k < filtered(ns, idxs, sel).len() ==> idxs.contains(
                #[trigger] filtered(ns, idxs, sel)[k],
            ) && sel_matches(ns[filtered(ns, idxs, sel)[k] as int], sel),
    decreases idxs.len(),
{
    if idxs.len() > 0 {
        lemma_filtered_props(ns, idxs.drop_last(), sel);
        let s0 = filtered(ns, idxs.drop_last(), sel);
        let s = filtered(ns, idxs, sel);
        assert forall|k: int|
            0 <= k < s.len() implies idxs.contains(#[trigger] s[k]) && sel_matches(
            ns[s[k] as int],
            sel,
        ) by {
            if k < s0.len() {
                assert(s[k] == s0[k]);
                assert(idxs.drop_last().contains(s0[k]));
                let w = choose|w: int|
                    0 <= w < idxs.drop_last().len() && idxs.drop_last()[w] == s0[k];
                assert(idxs[w] == s0[k]);
            } else {
                assert(s[k] == idxs.last());
            }
        }
    }
}

/// All members of a child selection lie inside the node array.
pub proof fn lemma_children_many_props(ns: Seq<NodeData>, roots: Seq<usize>, sel: SelV)
    requires
        ns.len() <= usize::MAX,
        forall|k: int| 0 <= k < roots.len() ==> (#[trigger] roots[k]) < ns.len(),
        forall|i: int| 0 <= i < ns.len() ==> i < (#[trigger] ns[i].end) <= ns.len(),
    ensures
        forall|k: int|
            0 <= k < children_many(ns, roots, sel).len() ==> (#[trigger] children_many(
                ns,
                roots,
                sel,
            )[k]) < ns.len() && sel_matches(ns[children_many(ns, roots, sel)[k] as int], sel),
    decreases roots.len(),
{
    if roots.len() > 0 {
        let r0 = roots[0];
        let cl = child_list(ns, r0 + 1, ns[r0 as int].end as int);
        lemma_child_list_props(ns, r0 + 1, ns[r0 as int].end as int);
        lemma_filtered_props(ns, cl, sel);
        assert(forall|k: int|
            0 <= k < roots.skip(1).len() ==> (#[trigger] roots.skip(1)[k]) < ns.len());
        lemma_children_many_props(ns, roots.skip(1), sel);
        let s0 = filtered(ns, cl, sel);
        let rest = children_many(ns, roots.skip(1), sel);
        let s = children_many(ns, roots, sel);
        assert forall|k: int|
            0 <= k < s.len() implies (#[trigger] s[k]) < ns.len() && sel_matches(
            ns[s[k] as int],
            sel,
        ) by {
            if k < s0.len() {
                assert(s[k] == s0[k]);
                assert(cl.contains(s0[k]));
                let w = choose|w: int| 0 <= w < cl.len() && cl[w] == s0[k];
                assert(r0 + 1 <= cl[w] < ns[r0 as int].end as int);
            } else {
                assert(s[k] == rest[k - s0.len()]);
            }
        }
    }
}

/// Runtime descendant selection over many roots, matching
/// [`desc_many`].
pub fn select_desc_many(dom: &Dom, roots: &Vec<usize>, sel: &Sel) -> (r: Vec<usize>)
    requires
        dom.wf(),
        forall|k: int| 0 <= k < roots@.len() ==> (#[trigger] roots@[k]) < dom@.len(),
    ensures
        r@ == desc_many(dom@, roots@, sel@),
{
    let n = roots.len();
    let mut out: Vec<usize> = Vec::new();
    let mut i: usize = 0;
    proof {
        assert(roots@.skip(0) =~= roots@);
        assert(out@ + desc_many(dom@, roots@.skip(0), sel@) =~= desc_many(dom@, roots@, sel@));
    }
    while i < n
        invariant
            0 <= i <= n == roots@.len(),
            dom.wf(),
            forall|k: int| 0 <= k < roots@.len() ==> (#[trigger] roots@[k]) < dom@.len(),
            out@ + desc_many(dom@, roots@.skip(i as int), sel@) == desc_many(dom@, roots@, sel@),
        decreases n - i,
    {
        proof {
            let t = roots@.skip(i as int);
            assert(t[0] == roots@[i as int]);
            assert(t.skip(1) =~= roots@.skip(i + 1));
        }
        let root = roots[i];
        let e = dom.node(root).end;
        let part = select_range(dom, root + 1, e, sel);
        let ghost out0 = out@;
        let m = part.len();
        let mut k: usize = 0;
        while k < m
            invariant
                0 <= k <= m == part@.len(),
                out@ == out0 + part@.take(k as int),
            decreases m - k,
        {
            out.push(part[k]);
            proof {
                assert(out@ =~= out0 + part@.take(k + 1));
            }
            k = k + 1;
        }
        proof {
            assert(part@.take(m as int) =~= part@);
            assert((out0 + part@) + desc_many(dom@, roots@.skip(i + 1), sel@) =~= out0 + (part@
                + desc_many(dom@, roots@.skip(i + 1), sel@)));
        }
        i = i + 1;
    }
    proof {
        assert(roots@.skip(n as int) =~= Seq::<usize>::empty());
        assert(out@ + Seq::<usize>::empty() =~= out@);
    }
    out
}

/// Runtime child selection over many roots, matching
/// [`children_many`].
pub fn select_children_many(dom: &Dom, roots: &Vec<usize>, sel: &Sel) -> (r: Vec<usize>)
    requires
        dom.wf(),
        forall|k: int| 0 <= k < roots@.len() ==> (#[trigger] roots@[k]) < dom@.len(),
    ensures
        r@ == children_many(dom@, roots@, sel@),
{
    let n = roots.len();
    let mut out: Vec<usize> = Vec::new();
    let mut i: usize = 0;
    proof {
        assert(roots@.skip(0) =~= roots@);
        assert(out@ + children_many(dom@, roots@.skip(0), sel@) =~= children_many(
            dom@,
            roots@,
            sel@,
        ));
    }
    while i < n
        invariant
            0 <= i <= n == roots@.len(),
            dom.wf(),
            forall|k: int| 0 <= k < roots@.len() ==> (#[trigger] roots@[k]) < dom@.len(),
            out@ + children_many(dom@, roots@.skip(i as int), sel@) == children_many(
                dom@,
                roots@,
                sel@,
            ),
        decreases n - i,
    {
        proof {
            let t = roots@.skip(i as int);
            assert(t[0] == roots@[i as int]);
            assert(t.skip(1) =~= roots@.skip(i + 1));
            lemma_subtree_closed(dom@, roots@[i as int] as int);
            lemma_child_list_props(
                dom@,
                roots@[i as int] + 1,
                dom@[roots@[i as int] as int].end as int,
            );
        }
        let root = roots[i];
        let e = dom.node(root).end;
        let cl = children_of(dom, root + 1, e);
        let part = filter_matching(dom, &cl, sel);
        let ghost out0 = out@;
        let m = part.len();
        let mut k: usize = 0;
        while k < m
            invariant
                0 <= k <= m == part@.len(),
                out@ == out0 + part@.take(k as int),
            decreases m - k,
        {
            out.push(part[k]);
            proof {
                assert(out@ =~= out0 + part@.take(k + 1));
            }
            k = k + 1;
        }
        proof {
            assert(part@.take(m as int) =~= part@);
            assert((out0 + part@) + children_many(dom@, roots@.skip(i + 1), sel@) =~= out0 + (
            part@ + children_many(dom@, roots@.skip(i + 1), sel@)));
        }
        i = i + 1;
    }
    proof {
        assert(roots@.skip(n as int) =~= Seq::<usize>::empty());
        assert(out@ + Seq::<usize>::empty() =~= out@);
    }
    out
}

/// One element with this `id`, exactly: its individually trimmed
/// descendant text; otherwise the violated cardinality.
pub open spec fn spec_one_trimmed_text(ns: Seq<NodeData>, lo: int, hi: int, id: Seq<char>) -> Result<
    Seq<char>,
    ErrorKindV,
> {
    let v = selected(ns, lo, hi, sel_id(id));
    if v.len() != 1 {
        Err(ErrorKindV::NotExactlyOne { query: id, found: v.len() })
    } else {
        Ok(trimmed_texts_range(ns, v[0] + 1, ns[v[0] as int].end as int))
    }
}

/// Runtime extraction matching [`spec_one_trimmed_text`].
pub fn one_trimmed_text(dom: &Dom, lo: usize, hi: usize, id: &str) -> (r: Result<
    String,
    ErrorKind,
>)
    requires
        dom.wf(),
        lo <= hi <= dom@.len(),
    ensures
        r matches Ok(s) ==> spec_one_trimmed_text(dom@, lo as int, hi as int, id@) == Ok::<
            _,
            ErrorKindV,
        >(s@),
        r matches Err(e) ==> spec_one_trimmed_text(dom@, lo as int, hi as int, id@) == Err::<
            Seq<char>,
            _,
        >(e@),
{
    let sel = by_id(id);
    let v = select_range(dom, lo, hi, &sel);
    if v.len() != 1 {
        return Err(ErrorKind::NotExactlyOne { query: id.to_owned(), found: v.len() });
    }
    let total = dom.len();
    proof {
        assert(dom@.len() == total <= usize::MAX);
        lemma_selected_props(dom@, lo as int, hi as int, sel@);
    }
    let a = v[0];
    let e = dom.node(a).end;
    Ok(collect_text_trimmed(dom, a + 1, e))
}

/// The first element with this `id`: its individually trimmed
/// descendant text; an error when there is none.
pub open spec fn spec_first_trimmed_text(
    ns: Seq<NodeData>,
    lo: int,
    hi: int,
    id: Seq<char>,
) -> Result<Seq<char>, ErrorKindV> {
    let v = selected(ns, lo, hi, sel_id(id));
    if v.len() == 0 {
        Err(ErrorKindV::Missing { query: id })
    } else {
        Ok(trimmed_texts_range(ns, v[0] + 1, ns[v[0] as int].end as int))
    }
}

/// Runtime extraction matching [`spec_first_trimmed_text`].
pub fn first_trimmed_text(dom: &Dom, lo: usize, hi: usize, id: &str) -> (r: Result<
    String,
    ErrorKind,
>)
    requires
        dom.wf(),
        lo <= hi <= dom@.len(),
    ensures
        r matches Ok(s) ==> spec_first_trimmed_text(dom@, lo as int, hi as int, id@) == Ok::<
            _,
            ErrorKindV,
        >(s@),
        r matches Err(e) ==> spec_first_trimmed_text(dom@, lo as int, hi as int, id@) == Err::<
            Seq<char>,
            _,
        >(e@),
{
    let sel = by_id(id);
    let v = select_range(dom, lo, hi, &sel);
    if v.len() == 0 {
        return Err(ErrorKind::Missing { query: id.to_owned() });
    }
    let total = dom.len();
    proof {
        assert(dom@.len() == total <= usize::MAX);
        lemma_selected_props(dom@, lo as int, hi as int, sel@);
    }
    let a = v[0];
    let e = dom.node(a).end;
    Ok(collect_text_trimmed(dom, a + 1, e))
}

/// The like count of a region: the raw text of the first
/// `vote-count-middle` element, parsed as a displayed count.
pub open spec fn spec_like(ns: Seq<NodeData>, lo: int, hi: int) -> Result<u32, ErrorKindV> {
    let v = selected(ns, lo, hi, sel_id("vote-count-middle"@));
    if v.len() == 0 {
        Err(ErrorKindV::Missing { query: "vote-count-middle"@ })
    } else {
        let t = texts_range(ns, v[0] + 1, ns[v[0] as int].end as int);
        match spec_parse_count(t) {
            Some(n) => Ok(n),
            None => Err(ErrorKindV::LocaleParse { text: t }),
        }
    }
}

/// Runtime extraction matching [`spec_like`].
pub fn like_count(dom: &Dom, lo: usize, hi: usize) -> (r: Result<u32, ErrorKind>)
    requires
        dom.wf(),
        lo <= hi <= dom@.len(),
    ensures
        r matches Ok(n) ==> spec_like(dom@, lo as int, hi as int) == Ok::<_, ErrorKindV>(n),
        r matches Err(e) ==> spec_like(dom@, lo as int, hi as int) == Err::<u32, _>(e@),
{
    let sel = by_id("vote-count-middle");
    let v = select_range(dom, lo, hi, &sel);
    if v.len() == 0 {
        return Err(ErrorKind::Missing { query: String::from_str("vote-count-middle") });
    }
    let total = dom.len();
    proof {
        assert(dom@.len() == total <= usize::MAX);
        lemma_selected_props(dom@, lo as int, hi as int, sel@);
    }
    let a = v[0];
    let e = dom.node(a).end;
    let t = collect_text(dom, a + 1, e);
    match parse_count(t.as_str()) {
        Some(n) => Ok(n),
        None => Err(ErrorKind::LocaleParse { text: t }),
    }
}

/// The optional sponsor badge text of the main post: at most one
/// region; its trimmed non-empty fragments joined by newlines; an
/// empty result collapses to absence.
pub open spec fn spec_sponsor_only(ns: Seq<NodeData>, lo: int, hi: int) -> Result<
    Option<Seq<char>>,
    ErrorKindV,
> {
    let v = selected(ns, lo, hi, sel_id("sponsors-only-badge"@));
    if v.len() > 1 {
        Err(ErrorKindV::MoreThanOne { query: "sponsors-only-badge"@, found: v.len() })
    } else if v.len() == 0 {
        Ok(None)
    } else {
        let t = join_nl(text_pieces_range(ns, v[0] + 1, ns[v[0] as int].end as int));
        if t.len() == 0 {
            Ok(None)
        } else {
            Ok(Some(t))
        }
    }
}

/// Runtime extraction matching [`spec_sponsor_only`].
pub fn sponsor_only_badge(dom: &Dom, lo: usize, hi: usize) -> (r: Result<
    Option<String>,
    ErrorKind,
>)
    requires
        dom.wf(),
        lo <= hi <= dom@.len(),
    ensures
        r matches Ok(s) ==> spec_sponsor_only(dom@, lo as int, hi as int) == Ok::<_, ErrorKindV>(
            crate::records::opt_view(s),
        ),
        r matches Err(e) ==> spec_sponsor_only(dom@, lo as int, hi as int) == Err::<
            Option<Seq<char>>,
            _,
        >(e@),
{
    let sel = by_id("sponsors-only-badge");
    let v = select_range(dom, lo, hi, &sel);
    if v.len() > 1 {
        return Err(
            ErrorKind::MoreThanOne {
                query: String::from_str("sponsors-only-badge"),
                found: v.len(),
            },
        );
    }
    if v.len() == 0 {
        return Ok(None);
    }
    let total = dom.len();
    proof {
        assert(dom@.len() == total <= usize::MAX);
        lemma_selected_props(dom@, lo as int, hi as int, sel@);
    }
    let a = v[0];
    let e = dom.node(a).end;
    let t = collect_text_joined(dom, a + 1, e);
    if t.as_str().unicode_len() == 0 {
        Ok(None)
    } else {
        Ok(Some(t))
    }
}

/// The first text fragment of `lo..hi` that parses as a numeral.
pub open spec fn spec_first_numeric(ns: Seq<NodeData>, lo: int, hi: int) -> Option<u32>
    decreases hi - lo,
{
    if lo >= hi {
        None
    } else if ns[lo].kind is Text && spec_parse_numerical_int(ns[lo].text@) is Some {
        spec_parse_numerical_int(ns[lo].text@)
    } else {
        spec_first_numeric(ns, lo + 1, hi)
    }
}

/// Runtime search matching [`spec_first_numeric`].
pub fn first_numeric_text(dom: &Dom, lo: usize, hi: usize) -> (r: Option<u32>)
    requires
        lo <= hi <= dom@.len(),
    ensures
        r == spec_first_numeric(dom@, lo as int, hi as int),
{
    let mut i: usize = lo;
    while i < hi
        invariant
            lo <= i <= hi <= dom@.len(),
            spec_first_numeric(dom@, lo as int, hi as int) == spec_first_numeric(
                dom@,
                i as int,
                hi as int,
            ),
        decreases hi - i,
    {
        let nd = dom.node(i);
        let is_text = match nd.kind {
            NodeKind::Text => true,
            _ => false,
        };
        if is_text {
            match parse_numerical_int(nd.text.as_str()) {
                Some(n) => {
                    return Some(n);
                },
                None => {},
            }
        }
        i = i + 1;
    }
    None
}

/// Attribute values of the listed elements, in order; an element
/// without the attribute contributes nothing.
pub open spec fn attr_values(ns: Seq<NodeData>, idxs: Seq<usize>, attr: Seq<char>) -> Seq<
    Seq<char>,
>
    decreases idxs.len(),
{
    if idxs.len() == 0 {
        Seq::empty()
    } else {
        (match spec_attr(ns[idxs[0] as int].attrs@, attr) {
            Some(v) => seq![v],
            None => Seq::empty(),
        }) + attr_values(ns, idxs.skip(1), attr)
    }
}

/// Runtime collection matching [`attr_values`], mapped through the
/// string view.
pub fn collect_attr_values(dom: &Dom, idxs: &Vec<usize>, attr: &str) -> (r: Vec<String>)
    requires
        forall|k: int| 0 <= k < idxs@.len() ==> (#[trigger] idxs@[k]) < dom@.len(),
    ensures
        crate::records::strs_view(r@) == attr_values(dom@, idxs@, attr@),
{
    let n = idxs.len();
    let mut out: Vec<String> = Vec::new();
    let mut i: usize = 0;
    proof {
        assert(idxs@.skip(0) =~= idxs@);
        assert(crate::records::strs_view(out@) + attr_values(dom@, idxs@.skip(0), attr@)
            =~= attr_values(dom@, idxs@, attr@));
    }
    while i < n
        invariant
            0 <= i <= n == idxs@.len(),
            forall|k: int| 0 <= k < idxs@.len() ==> (#[trigger] idxs@[k]) < dom@.len(),
            crate::records::strs_view(out@) + attr_values(dom@, idxs@.skip(i as int), attr@)
                == attr_values(dom@, idxs@, attr@),
        decreases n - i,
    {
        proof {
            let t = idxs@.skip(i as int);
            assert(t[0] == idxs@[i as int]);
            assert(t.skip(1) =~= idxs@.skip(i + 1));
        }
        let j = idxs[i];
        let ghost out0 = out@;
        match attr_of(dom.node(j), attr) {
            Some(v) => {
                out.push(v);
                proof {
                    assert(crate::records::strs_view(out@) =~= crate::records::strs_view(out0).push(
                        out@.last()@,
                    ));
                    assert(crate::records::strs_view(out0).push(out@.last()@) + attr_values(
                        dom@,
                        idxs@.skip(i + 1),
                        attr@,
                    ) =~= crate::records::strs_view(out0) + (seq![out@.last()@] + attr_values(
                        dom@,
                        idxs@.skip(i + 1),
                        attr@,
                    )));
                }
            },
            None => {
                proof {
                    assert(Seq::<Seq<char>>::empty() + attr_values(dom@, idxs@.skip(i + 1), attr@)
                        =~= attr_values(dom@, idxs@.skip(i + 1), attr@));
                }
            },
        }
        i = i + 1;
    }
    proof {
        assert(idxs@.skip(n as int) =~= Seq::<usize>::empty());
        assert(crate::records::strs_view(out@) + Seq::<Seq<char>>::empty()
            =~= crate::records::strs_view(out@));
    }
    out
}

/// Links that are not self-referential channel links.
pub open spec fn keep_non_channel(hs: Seq<Seq<char>>) -> Seq<Seq<char>>
    decreases hs.len(),
{
    if hs.len() == 0 {
        Seq::empty()
    } else {
        keep_non_channel(hs.drop_last()) + (if contains_seq(hs.last(), "/@"@) {
            Seq::empty()
        } else {
            seq![hs.last()]
        })
    }
}

/// The list with consecutive duplicates removed.
pub open spec fn dedup_adjacent(hs: Seq<Seq<char>>) -> Seq<Seq<char>>
    decreases hs.len(),
{
    if hs.len() <= 1 {
        hs
    } else {
        dedup_adjacent(hs.drop_last()) + (if hs.last() == hs[hs.len() - 2] {
            Seq::empty()
        } else {
            seq![hs.last()]
        })
    }
}

/// The links that carry the watch-video marker.
pub open spec fn keep_watch(hs: Seq<Seq<char>>) -> Seq<Seq<char>>
    decreases hs.len(),
{
    if hs.len() == 0 {
        Seq::empty()
    } else {
        keep_watch(hs.drop_last()) + (if contains_seq(hs.last(), "/watch?v="@) {
            seq![hs.last()]
        } else {
            Seq::empty()
        })
    }
}

/// The links without the watch-video marker.
pub open spec fn keep_non_watch(hs: Seq<Seq<char>>) -> Seq<Seq<char>>
    decreases hs.len(),
{
    if hs.len() == 0 {
        Seq::empty()
    } else {
        keep_non_watch(hs.drop_last()) + (if contains_seq(hs.last(), "/watch?v="@) {
            Seq::empty()
        } else {
            seq![hs.last()]
        })
    }
}

/// The optional media attachment of the main post: the first visible
/// `content-attachment` region, its images in declaration order, and
/// its links cleaned of channel self-links, deduplicated when
/// adjacent, and partitioned by the watch-video marker.
pub open spec fn spec_content_attachment(ns: Seq<NodeData>, lo: int, hi: int) -> Option<
    crate::records::ContentAttachmentV,
> {
    let v = selected(ns, lo, hi, sel_id_not_hidden("content-attachment"@));
    if v.len() == 0 {
        None
    } else {
        let c = v[0];
        let clo = c + 1;
        let chi = ns[c as int].end as int;
        let images = attr_values(ns, selected(ns, clo, chi, sel_tag_attr("img"@, "src"@)), "src"@);
        let hrefs = attr_values(ns, selected(ns, clo, chi, sel_tag_attr("a"@, "href"@)), "href"@);
        let kept = dedup_adjacent(keep_non_channel(hrefs));
        Some(
            crate::records::ContentAttachmentV {
                images,
                videos: keep_watch(kept),
                unknown: keep_non_watch(kept),
            },
        )
    }
}

/// Runtime filter matching [`keep_non_channel`].
fn filter_non_channel(hs: &Vec<String>) -> (r: Vec<String>)
    ensures
        crate::records::strs_view(r@) == keep_non_channel(crate::records::strs_view(hs@)),
{
    let n = hs.len();
    let mut out: Vec<String> = Vec::new();
    let mut i: usize = 0;
    while i < n
        invariant
            0 <= i <= n == hs@.len(),
            crate::records::strs_view(out@) == keep_non_channel(
                crate::records::strs_view(hs@.take(i as int)),
            ),
        decreases n - i,
    {
        proof {
            let pre = crate::records::strs_view(hs@.take(i as int));
            let nxt = crate::records::strs_view(hs@.take(i + 1));
            assert(nxt.drop_last() =~= pre);
            assert(nxt.last() == hs@[i as int]@);
        }
        let ghost out0 = out@;
        if !crate::text::contains_str(hs[i].as_str(), "/@") {
            let v = hs[i].clone();
            out.push(v);
            proof {
                assert(crate::records::strs_view(out@) =~= crate::records::strs_view(out0).push(
                    hs@[i as int]@,
                ));
                assert(crate::records::strs_view(out0).push(hs@[i as int]@) =~= keep_non_channel(
                    crate::records::strs_view(hs@.take(i + 1)),
                ));
            }
        } else {
            proof {
                assert(crate::records::strs_view(out@) =~= keep_non_channel(
                    crate::records::strs_view(hs@.take(i + 1)),
                ));
            }
        }
        i = i + 1;
    }
    proof {
        assert(hs@.take(n as int) =~= hs@);
    }
    out
}

/// Runtime deduplication matching [`dedup_adjacent`].
fn dedup_adjacent_exec(hs: &Vec<String>) -> (r: Vec<String>)
    ensures
        crate::records::strs_view(r@) == dedup_adjacent(crate::records::strs_view(hs@)),
{
    let n = hs.len();
    let mut out: Vec<String> = Vec::new();
    let mut i: usize = 0;
    while i < n
        invariant
            0 <= i <= n == hs@.len(),
            crate::records::strs_view(out@) == dedup_adjacent(
                crate::records::strs_view(hs@.take(i as int)),
            ),
        decreases n - i,
    {
        proof {
            let pre = crate::records::strs_view(hs@.take(i as int));
            let nxt = crate::records::strs_view(hs@.take(i + 1));
            assert(nxt.drop_last() =~= pre);
            assert(nxt.last() == hs@[i as int]@);
            if i > 0 {
                assert(nxt[i - 1] == hs@[i - 1]@);
            }
        }
        let ghost out0 = out@;
        let keep = if i == 0 {
            true
        } else {
            !hs[i].eq(&hs[i - 1])
        };
        if keep {
            let v = hs[i].clone();
            out.push(v);
            proof {
                assert(crate::records::strs_view(out@) =~= crate::records::strs_view(out0).push(
                    hs@[i as int]@,
                ));
                assert(crate::records::strs_view(out0).push(hs@[i as int]@) =~= dedup_adjacent(
                    crate::records::strs_view(hs@.take(i + 1)),
                ));
            }
        } else {
            proof {
                assert(crate::records::strs_view(out@) =~= dedup_adjacent(
                    crate::records::strs_view(hs@.take(i + 1)),
                ));
            }
        }
        i = i + 1;
    }
    proof {
        assert(hs@.take(n as int) =~= hs@);
    }
    out
}

/// Runtime partition matching [`keep_watch`] and [`keep_non_watch`].
fn partition_watch(hs: &Vec<String>) -> (r: (Vec<String>, Vec<String>))
    ensures
        crate::records::strs_view(r.0@) == keep_watch(crate::records::strs_view(hs@)),
        crate::records::strs_view(r.1@) == keep_non_watch(crate::records::strs_view(hs@)),
{
    let n = hs.len();
    let mut videos: Vec<String> = Vec::new();
    let mut unknown: Vec<String> = Vec::new();
    let mut i: usize = 0;
    while i < n
        invariant
            0 <= i <= n == hs@.len(),
            crate::records::strs_view(videos@) == keep_watch(
                crate::records::strs_view(hs@.take(i as int)),
            ),
            crate::records::strs_view(unknown@) == keep_non_watch(
                crate::records::strs_view(hs@.take(i as int)),
            ),
        decreases n - i,
    {
        proof {
            let pre = crate::records::strs_view(hs@.take(i as int));
            let nxt = crate::records::strs_view(hs@.take(i + 1));
            assert(nxt.drop_last() =~= pre);
            assert(nxt.last() == hs@[i as int]@);
        }
        let ghost v0 = videos@;
        let ghost u0 = unknown@;
        let v = hs[i].clone();
        if crate::text::contains_str(hs[i].as_str(), "/watch?v=") {
            videos.push(v);
            proof {
                assert(crate::records::strs_view(videos@) =~= crate::records::strs_view(v0).push(
                    hs@[i as int]@,
                ));
                assert(crate::records::strs_view(v0).push(hs@[i as int]@) =~= keep_watch(
                    crate::records::strs_view(hs@.take(i + 1)),
                ));
                assert(crate::records::strs_view(unknown@) =~= keep_non_watch(
                    crate::records::strs_view(hs@.take(i + 1)),
                ));
            }
        } else {
            unknown.push(v);
            proof {
                assert(crate::records::strs_view(unknown@) =~= crate::records::strs_view(u0).push(
                    hs@[i as int]@,
                ));
                assert(crate::records::strs_view(u0).push(hs@[i as int]@) =~= keep_non_watch(
                    crate::records::strs_view(hs@.take(i + 1)),
                ));
                assert(crate::records::strs_view(videos@) =~= keep_watch(
                    crate::records::strs_view(hs@.take(i + 1)),
                ));
            }
        }
        i = i + 1;
    }
    proof {
        assert(hs@.take(n as int) =~= hs@);
    }
    (videos, unknown)
}

/// Runtime extraction matching [`spec_content_attachment`].
pub fn content_attachment(dom: &Dom, lo: usize, hi: usize) -> (r: Option<
    crate::records::ContentAttachment,
>)
    requires
        dom.wf(),
        lo <= hi <= dom@.len(),
    ensures
        r matches Some(c) ==> spec_content_attachment(dom@, lo as int, hi as int) == Some(c@),
        r is None <==> spec_content_attachment(dom@, lo as int, hi as int) is None,
{
    let sel = by_id_not_hidden("content-attachment");
    let v = select_range(dom, lo, hi, &sel);
    if v.len() == 0 {
        return None;
    }
    let total = dom.len();
    proof {
        assert(dom@.len() == total <= usize::MAX);
        lemma_selected_props(dom@, lo as int, hi as int, sel@);
    }
    let c = v[0];
    let e = dom.node(c).end;
    let img_sel = by_tag_attr("img", "src");
    let imgs = select_range(dom, c + 1, e, &img_sel);
    proof {
        lemma_selected_props(dom@, c + 1, e as int, img_sel@);
    }
    let images = collect_attr_values(dom, &imgs, "src");
    let a_sel = by_tag_attr("a", "href");
    let links = select_range(dom, c + 1, e, &a_sel);
    proof {
        lemma_selected_props(dom@, c + 1, e as int, a_sel@);
    }
    let hrefs = collect_attr_values(dom, &links, "href");
    let kept = dedup_adjacent_exec(&filter_non_channel(&hrefs));
    let (videos, unknown) = partition_watch(&kept);
    Some(crate::records::ContentAttachment { images, videos, unknown })
}

/// The poll items under the listed `choice-info` regions, each with
/// exactly one choice text and one percentage display.
pub open spec fn spec_poll_items(ns: Seq<NodeData>, infos: Seq<usize>) -> Result<
    Seq<crate::records::PollItemV>,
    ErrorKindV,
>
    decreases infos.len(),
{
    if infos.len() == 0 {
        Ok(Seq::empty())
    } else {
        let i0 = infos[0];
        let lo = i0 + 1;
        let hi = ns[i0 as int].end as int;
        let texts = selected(ns, lo, hi, sel_class("choice-text"@));
        if texts.len() != 1 {
            Err(ErrorKindV::NotExactlyOne { query: "choice-text"@, found: texts.len() })
        } else {
            let pcts = selected(ns, lo, hi, sel_class("vote-percentage"@));
            if pcts.len() != 1 {
                Err(ErrorKindV::NotExactlyOne { query: "vote-percentage"@, found: pcts.len() })
            } else {
                let item = crate::records::PollItemV {
                    text: texts_range(ns, texts[0] + 1, ns[texts[0] as int].end as int),
                    percentage: texts_range(ns, pcts[0] + 1, ns[pcts[0] as int].end as int),
                };
                match spec_poll_items(ns, infos.skip(1)) {
                    Err(e) => Err(e),
                    Ok(rest) => Ok(seq![item] + rest),
                }
            }
        }
    }
}

/// The optional poll of the main post: at most one visible
/// `poll-attachment` region; its total vote count parsed after the
/// localized unit suffix is stripped, and its items in presentation
/// order.
pub open spec fn spec_poll(ns: Seq<NodeData>, lo: int, hi: int) -> Result<
    Option<crate::records::PollAttachmentV>,
    ErrorKindV,
> {
    let v = selected(ns, lo, hi, sel_id_not_hidden("poll-attachment"@));
    if v.len() > 1 {
        Err(ErrorKindV::MoreThanOne { query: "poll-attachment"@, found: v.len() })
    } else if v.len() == 0 {
        Ok(None)
    } else {
        let p = v[0];
        let plo = p + 1;
        let phi = ns[p as int].end as int;
        let vis = selected(ns, plo, phi, sel_id("vote-info"@));
        if vis.len() != 1 {
            Err(ErrorKindV::NotExactlyOne { query: "vote-info"@, found: vis.len() })
        } else {
            let traw = texts_range(ns, vis[0] + 1, ns[vis[0] as int].end as int);
            let stripped = crate::text::strip_suffix_all(
                traw,
                "\u{e04}\u{e30}\u{e41}\u{e19}\u{e19}"@,
            );
            match spec_parse_count(stripped) {
                None => Err(ErrorKindV::LocaleParse { text: traw }),
                Some(total) => {
                    let options = selected(
                        ns,
                        plo,
                        phi,
                        sel_tag_attr_eq("a"@, "role"@, "option"@),
                    );
                    let infos = desc_many(ns, options, sel_class("choice-info"@));
                    match spec_poll_items(ns, infos) {
                        Err(e) => Err(e),
                        Ok(items) => Ok(
                            Some(
                                crate::records::PollAttachmentV { total_votes: total, items },
                            ),
                        ),
                    }
                },
            }
        }
    }
}

/// Runtime extraction matching [`spec_poll_items`].
fn poll_items(dom: &Dom, infos: &Vec<usize>) -> (r: Result<
    Vec<crate::records::PollItem>,
    ErrorKind,
>)
    requires
        dom.wf(),
        forall|k: int| 0 <= k < infos@.len() ==> (#[trigger] infos@[k]) < dom@.len(),
    ensures
        r matches Ok(v) ==> spec_poll_items(dom@, infos@) == Ok::<_, ErrorKindV>(
            v@.map_values(|p: crate::records::PollItem| p@),
        ),
        r matches Err(e) ==> spec_poll_items(dom@, infos@) == Err::<
            Seq<crate::records::PollItemV>,
            _,
        >(e@),
{
    let n = infos.len();
    let total = dom.len();
    let mut out: Vec<crate::records::PollItem> = Vec::new();
    let mut k: usize = 0;
    proof {
        assert(infos@.skip(0) =~= infos@);
        assert(out@.map_values(|p: crate::records::PollItem| p@) =~= Seq::<
            crate::records::PollItemV,
        >::empty());
    }
    while k < n
        invariant
            0 <= k <= n == infos@.len(),
            dom.wf(),
            dom@.len() == total,
            forall|t: int| 0 <= t < infos@.len() ==> (#[trigger] infos@[t]) < dom@.len(),
            match spec_poll_items(dom@, infos@.skip(k as int)) {
                Ok(rest) => spec_poll_items(dom@, infos@) == Ok::<_, ErrorKindV>(
                    out@.map_values(|p: crate::records::PollItem| p@) + rest,
                ),
                Err(e) => spec_poll_items(dom@, infos@) == Err::<
                    Seq<crate::records::PollItemV>,
                    _,
                >(e),
            },
        decreases n - k,
    {
        proof {
            let t = infos@.skip(k as int);
            assert(t[0] == infos@[k as int]);
            assert(t.skip(1) =~= infos@.skip(k + 1));
        }
        let i0 = infos[k];
        let e = dom.node(i0).end;
        let t_sel = by_class("choice-text");
        let texts = select_range(dom, i0 + 1, e, &t_sel);
        if texts.len() != 1 {
            return Err(
                ErrorKind::NotExactlyOne {
                    query: String::from_str("choice-text"),
                    found: texts.len(),
                },
            );
        }
        let p_sel = by_class("vote-percentage");
        let pcts = select_range(dom, i0 + 1, e, &p_sel);
        if pcts.len() != 1 {
            return Err(
                ErrorKind::NotExactlyOne {
                    query: String::from_str("vote-percentage"),
                    found: pcts.len(),
                },
            );
        }
        proof {
            lemma_selected_props(dom@, i0 + 1, e as int, t_sel@);
            lemma_selected_props(dom@, i0 + 1, e as int, p_sel@);
        }
        let a = texts[0];
        let b = pcts[0];
        let ea = dom.node(a).end;
        let eb = dom.node(b).end;
        let item = crate::records::PollItem {
            text: collect_text(dom, a + 1, ea),
            percentage: collect_text(dom, b + 1, eb),
        };
        let ghost out0 = out@;
        let ghost itemv = item@;
        out.push(item);
        proof {
            assert(out@.map_values(|p: crate::records::PollItem| p@) =~= out0.map_values(
                |p: crate::records::PollItem| p@,
            ).push(itemv));
            match spec_poll_items(dom@, infos@.skip(k + 1)) {
                Ok(rest) => {
                    assert(out0.map_values(|p: crate::records::PollItem| p@).push(itemv) + rest
                        =~= out0.map_values(|p: crate::records::PollItem| p@) + (seq![itemv]
                        + rest));
                },
                Err(_) => {},
            }
        }
        k = k + 1;
    }
    proof {
        assert(infos@.skip(n as int) =~= Seq::<usize>::empty());
        assert(out@.map_values(|p: crate::records::PollItem| p@) + Seq::<
            crate::records::PollItemV,
        >::empty() =~= out@.map_values(|p: crate::records::PollItem| p@));
    }
    Ok(out)
}

/// Runtime extraction matching [`spec_poll`].
pub fn poll_attachment(dom: &Dom, lo: usize, hi: usize) -> (r: Result<
    Option<crate::records::PollAttachment>,
    ErrorKind,
>)
    requires
        dom.wf(),
        lo <= hi <= dom@.len(),
    ensures
        r matches Ok(p) ==> spec_poll(dom@, lo as int, hi as int) == Ok::<_, ErrorKindV>(
            match p {
                Some(pa) => Some(pa@),
                None => None,
            },
        ),
        r matches Err(e) ==> spec_poll(dom@, lo as int, hi as int) == Err::<
            Option<crate::records::PollAttachmentV>,
            _,
        >(e@),
{
    let sel = by_id_not_hidden("poll-attachment");
    let v = select_range(dom, lo, hi, &sel);
    if v.len() > 1 {
        return Err(
            ErrorKind::MoreThanOne { query: String::from_str("poll-attachment"), found: v.len() },
        );
    }
    if v.len() == 0 {
        return Ok(None);
    }
    let total = dom.len();
    proof {
        assert(dom@.len() == total <= usize::MAX);
        lemma_selected_props(dom@, lo as int, hi as int, sel@);
    }
    let p = v[0];
    let e = dom.node(p).end;
    let vi_sel = by_id("vote-info");
    let vis = select_range(dom, p + 1, e, &vi_sel);
    if vis.len() != 1 {
        return Err(
            ErrorKind::NotExactlyOne { query: String::from_str("vote-info"), found: vis.len() },
        );
    }
    proof {
        lemma_selected_props(dom@, p + 1, e as int, vi_sel@);
    }
    let vi = vis[0];
    let evi = dom.node(vi).end;
    let traw = collect_text(dom, vi + 1, evi);
    let stripped = crate::text::strip_suffix_all_str(
        traw.as_str(),
        "\u{e04}\u{e30}\u{e41}\u{e19}\u{e19}",
    );
    match parse_count(stripped) {
        None => Err(ErrorKind::LocaleParse { text: traw }),
        Some(total_votes) => {
            let o_sel = by_tag_attr_eq("a", "role", "option");
            let options = select_range(dom, p + 1, e, &o_sel);
            proof {
                lemma_selected_props(dom@, p + 1, e as int, o_sel@);
            }
            let ci_sel = by_class("choice-info");
            let infos = select_desc_many(dom, &options, &ci_sel);
            proof {
                lemma_desc_many_props(dom@, options@, ci_sel@);
            }
            match poll_items(dom, &infos) {
                Err(e2) => Err(e2),
                Ok(items) => Ok(Some(crate::records::PollAttachment { total_votes, items })),
            }
        },
    }
}

/// The main post body: author, publish time, optional sponsor badge,
/// content text, optional attachments, and like count, each under its
/// cardinality contract, evaluated in this order; the first violation
/// aborts.
pub open spec fn spec_parse_main(ns: Seq<NodeData>, i: int) -> Result<
    crate::records::MainV,
    ErrorKindV,
> {
    let lo = i + 1;
    let hi = ns[i].end as int;
    match spec_one_trimmed_text(ns, lo, hi, "author-text"@) {
        Err(e) => Err(e),
        Ok(author) => match spec_one_trimmed_text(ns, lo, hi, "published-time-text"@) {
            Err(e) => Err(e),
            Ok(publish_time) => match spec_sponsor_only(ns, lo, hi) {
                Err(e) => Err(e),
                Ok(sponsor_only) => match spec_first_trimmed_text(ns, lo, hi, "content"@) {
                    Err(e) => Err(e),
                    Ok(content) => match spec_poll(ns, lo, hi) {
                        Err(e) => Err(e),
                        Ok(poll) => match spec_like(ns, lo, hi) {
                            Err(e) => Err(e),
                            Ok(like) => Ok(
                                crate::records::MainV {
                                    author,
                                    publish_time,
                                    sponsor_only,
                                    content,
                                    content_attachment: spec_content_attachment(ns, lo, hi),
                                    poll_attachment: poll,
                                    like,
                                },
                            ),
                        },
                    },
                },
            },
        },
    }
}

/// Extracts the main post body, matching [`spec_parse_main`].
pub fn parse_main(dom: &Dom, i: usize) -> (r: Result<crate::records::Main, ErrorKind>)
    requires
        dom.wf(),
        i < dom@.len(),
    ensures
        r matches Ok(m) ==> spec_parse_main(dom@, i as int) == Ok::<_, ErrorKindV>(m@),
        r matches Err(e) ==> spec_parse_main(dom@, i as int) == Err::<crate::records::MainV, _>(
            e@,
        ),
{
    proof {
        assert(i < dom@[i as int].end <= dom@.len());
    }
    let lo = i + 1;
    let hi = dom.node(i).end;
    let author = match one_trimmed_text(dom, lo, hi, "author-text") {
        Ok(a) => a,
        Err(e) => {
            return Err(e);
        },
    };
    let publish_time = match one_trimmed_text(dom, lo, hi, "published-time-text") {
        Ok(a) => a,
        Err(e) => {
            return Err(e);
        },
    };
    let sponsor_only = match sponsor_only_badge(dom, lo, hi) {
        Ok(a) => a,
        Err(e) => {
            return Err(e);
        },
    };
    let content = match first_trimmed_text(dom, lo, hi, "content") {
        Ok(a) => a,
        Err(e) => {
            return Err(e);
        },
    };
    let content_att = content_attachment(dom, lo, hi);
    let poll = match poll_attachment(dom, lo, hi) {
        Ok(a) => a,
        Err(e) => {
            return Err(e);
        },
    };
    let like = match like_count(dom, lo, hi) {
        Ok(a) => a,
        Err(e) => {
            return Err(e);
        },
    };
    Ok(
        crate::records::Main {
            author,
            publish_time,
            sponsor_only,
            content,
            content_attachment: content_att,
            poll_attachment: poll,
            like,
        },
    )
}

/// The optional sponsor metadata of a comment: at most one badge
/// region; its accessibility label is required, its badge image is
/// independently optional.
pub open spec fn spec_comment_sponsor(ns: Seq<NodeData>, lo: int, hi: int) -> Result<
    (Option<Seq<char>>, Option<Seq<char>>),
    ErrorKindV,
> {
    let sbs = selected(ns, lo, hi, sel_id("sponsor-comment-badge"@));
    let renderers = children_many(ns, sbs, sel_tag("ytd-sponsor-comment-badge-renderer"@));
    if renderers.len() > 1 {
        Err(
            ErrorKindV::MoreThanOne {
                query: "sponsor-comment-badge"@,
                found: renderers.len(),
            },
        )
    } else if renderers.len() == 0 {
        Ok((None, None))
    } else {
        let sp = renderers[0];
        match spec_attr(ns[sp as int].attrs@, "aria-label"@) {
            None => Err(ErrorKindV::MissingAttr { attr: "aria-label"@ }),
            Some(d) => {
                let imgs = selected(
                    ns,
                    sp + 1,
                    ns[sp as int].end as int,
                    sel_tag_attr("img"@, "src"@),
                );
                if imgs.len() > 1 {
                    Err(ErrorKindV::MoreThanOne { query: "img"@, found: imgs.len() })
                } else if imgs.len() == 1 {
                    Ok((Some(d), spec_attr(ns[imgs[0] as int].attrs@, "src"@)))
                } else {
                    Ok((Some(d), None))
                }
            },
        }
    }
}

/// Runtime extraction matching [`spec_comment_sponsor`].
pub fn comment_sponsor(dom: &Dom, lo: usize, hi: usize) -> (r: Result<
    (Option<String>, Option<String>),
    ErrorKind,
>)
    requires
        dom.wf(),
        lo <= hi <= dom@.len(),
    ensures
        r matches Ok(p) ==> spec_comment_sponsor(dom@, lo as int, hi as int) == Ok::<
            _,
            ErrorKindV,
        >((crate::records::opt_view(p.0), crate::records::opt_view(p.1))),
        r matches Err(e) ==> spec_comment_sponsor(dom@, lo as int, hi as int) == Err::<
            (Option<Seq<char>>, Option<Seq<char>>),
            _,
        >(e@),
{
    let total = dom.len();
    let sb_sel = by_id("sponsor-comment-badge");
    let sbs = select_range(dom, lo, hi, &sb_sel);
    proof {
        assert(dom@.len() == total <= usize::MAX);
        lemma_selected_props(dom@, lo as int, hi as int, sb_sel@);
    }
    let r_sel = by_tag("ytd-sponsor-comment-badge-renderer");
    let renderers = select_children_many(dom, &sbs, &r_sel);
    if renderers.len() > 1 {
        return Err(
            ErrorKind::MoreThanOne {
                query: String::from_str("sponsor-comment-badge"),
                found: renderers.len(),
            },
        );
    }
    if renderers.len() == 0 {
        return Ok((None, None));
    }
    proof {
        lemma_children_many_props(dom@, sbs@, r_sel@);
    }
    let sp = renderers[0];
    match attr_of(dom.node(sp), "aria-label") {
        None => Err(ErrorKind::MissingAttr { attr: String::from_str("aria-label") }),
        Some(d) => {
            let e = dom.node(sp).end;
            let i_sel = by_tag_attr("img", "src");
            let imgs = select_range(dom, sp + 1, e, &i_sel);
            if imgs.len() > 1 {
                return Err(
                    ErrorKind::MoreThanOne { query: String::from_str("img"), found: imgs.len() },
                );
            }
            if imgs.len() == 1 {
                proof {
                    lemma_selected_props(dom@, sp + 1, e as int, i_sel@);
                }
                match attr_of(dom.node(imgs[0]), "src") {
                    Some(src) => Ok((Some(d), Some(src))),
                    None => {
                        proof {
                            assert(false);
                        }
                        Ok((Some(d), None))
                    },
                }
            } else {
                Ok((Some(d), None))
            }
        },
    }
}

/// The stringified body of a comment: exactly one element child of
/// the `content-text` region, all of whose children are stringified
/// in document order.
pub open spec fn spec_comment_content(
    ns: Seq<NodeData>,
    lo: int,
    hi: int,
    m: Seq<(String, String)>,
) -> Result<(Seq<char>, bool), ErrorKindV> {
    let cts = selected(ns, lo, hi, sel_id("content-text"@));
    let kids = children_many(ns, cts, sel_any());
    if kids.len() != 1 {
        Err(ErrorKindV::NotExactlyOne { query: "content-text"@, found: kids.len() })
    } else {
        let ci = kids[0];
        crate::content::spec_stringify_children(
            ns,
            child_list(ns, ci + 1, ns[ci as int].end as int),
            m,
        )
    }
}

/// Runtime extraction matching [`spec_comment_content`].
pub fn comment_content(
    dom: &Dom,
    lo: usize,
    hi: usize,
    resolver: &crate::emote::EmoteResolver,
) -> (r: Result<(String, bool), ErrorKind>)
    requires
        dom.wf(),
        lo <= hi <= dom@.len(),
    ensures
        r matches Ok(p) ==> spec_comment_content(dom@, lo as int, hi as int, resolver@) == Ok::<
            _,
            ErrorKindV,
        >((p.0@, p.1)),
        r matches Err(e) ==> spec_comment_content(dom@, lo as int, hi as int, resolver@) == Err::<
            (Seq<char>, bool),
            _,
        >(e@),
{
    let total = dom.len();
    let ct_sel = by_id("content-text");
    let cts = select_range(dom, lo, hi, &ct_sel);
    proof {
        assert(dom@.len() == total <= usize::MAX);
        lemma_selected_props(dom@, lo as int, hi as int, ct_sel@);
    }
    let any_sel = Sel {
        tag: None,
        id: None,
        class: None,
        attr_present: None,
        attr_eq: None,
        not_hidden: false,
    };
    let kids = select_children_many(dom, &cts, &any_sel);
    if kids.len() != 1 {
        return Err(
            ErrorKind::NotExactlyOne {
                query: String::from_str("content-text"),
                found: kids.len(),
            },
        );
    }
    proof {
        lemma_children_many_props(dom@, cts@, any_sel@);
    }
    let ci = kids[0];
    let e = dom.node(ci).end;
    proof {
        lemma_subtree_closed(dom@, ci as int);
        lemma_child_list_props(dom@, ci + 1, e as int);
    }
    let children = children_of(dom, ci + 1, e);
    crate::content::stringify_children(dom, &children, resolver)
}

/// One comment: author, publish time, sponsor metadata, like count
/// and stringified body, each under its cardinality contract, in this
/// order; the first violation aborts.
pub open spec fn spec_parse_comment(ns: Seq<NodeData>, i: int, m: Seq<(String, String)>) -> Result<
    (crate::records::CommentV, bool),
    ErrorKindV,
> {
    let lo = i + 1;
    let hi = ns[i].end as int;
    match spec_one_trimmed_text(ns, lo, hi, "author-text"@) {
        Err(e) => Err(e),
        Ok(author) => match spec_one_trimmed_text(ns, lo, hi, "published-time-text"@) {
            Err(e) => Err(e),
            Ok(publish_time) => match spec_comment_sponsor(ns, lo, hi) {
                Err(e) => Err(e),
                Ok(sponsor) => match spec_like(ns, lo, hi) {
                    Err(e) => Err(e),
                    Ok(like) => match spec_comment_content(ns, lo, hi, m) {
                        Err(e) => Err(e),
                        Ok(content) => Ok(
                            (
                                crate::records::CommentV {
                                    author,
                                    content: content.0,
                                    publish_time,
                                    sponsor_duration: sponsor.0,
                                    sponsor_badge: sponsor.1,
                                    like,
                                },
                                content.1,
                            ),
                        ),
                    },
                },
            },
        },
    }
}

/// Extracts one comment, matching [`spec_parse_comment`].
pub fn parse_comment(dom: &Dom, i: usize, resolver: &crate::emote::EmoteResolver) -> (r: Result<
    (crate::records::Comment, bool),
    ErrorKind,
>)
    requires
        dom.wf(),
        i < dom@.len(),
    ensures
        r matches Ok(p) ==> spec_parse_comment(dom@, i as int, resolver@) == Ok::<_, ErrorKindV>(
            (p.0@, p.1),
        ),
        r matches Err(e) ==> spec_parse_comment(dom@, i as int, resolver@) == Err::<
            (crate::records::CommentV, bool),
            _,
        >(e@),
{
    proof {
        assert(i < dom@[i as int].end <= dom@.len());
    }
    let lo = i + 1;
    let hi = dom.node(i).end;
    let author = match one_trimmed_text(dom, lo, hi, "author-text") {
        Ok(a) => a,
        Err(e) => {
            return Err(e);
        },
    };
    let publish_time = match one_trimmed_text(dom, lo, hi, "published-time-text") {
        Ok(a) => a,
        Err(e) => {
            return Err(e);
        },
    };
    let (sponsor_duration, sponsor_badge) = match comment_sponsor(dom, lo, hi) {
        Ok(p) => p,
        Err(e) => {
            return Err(e);
        },
    };
    let like = match like_count(dom, lo, hi) {
        Ok(a) => a,
        Err(e) => {
            return Err(e);
        },
    };
    let (content, miss) = match comment_content(dom, lo, hi, resolver) {
        Ok(p) => p,
        Err(e) => {
            return Err(e);
        },
    };
    Ok(
        (
            crate::records::Comment {
                author,
                content,
                publish_time,
                sponsor_duration,
                sponsor_badge,
                like,
            },
            miss,
        ),
    )
}

/// The comments at the listed indices, stopping at the first failure;
/// a warning on any of them raises the flag.
pub open spec fn spec_parse_comment_list(
    ns: Seq<NodeData>,
    idxs: Seq<usize>,
    m: Seq<(String, String)>,
) -> Result<(Seq<crate::records::CommentV>, bool), ErrorKindV>
    decreases idxs.len(),
{
    if idxs.len() == 0 {
        Ok((Seq::empty(), false))
    } else {
        match spec_parse_comment(ns, idxs[0] as int, m) {
            Err(e) => Err(e),
            Ok(p) => match spec_parse_comment_list(ns, idxs.skip(1), m) {
                Err(e) => Err(e),
                Ok(rest) => Ok((seq![p.0] + rest.0, p.1 || rest.1)),
            },
        }
    }
}

/// Extracts a list of comments, matching [`spec_parse_comment_list`].
#[verifier::rlimit(60)]
pub fn parse_comment_list(
    dom: &Dom,
    idxs: &Vec<usize>,
    resolver: &crate::emote::EmoteResolver,
) -> (r: Result<(Vec<crate::records::Comment>, bool), ErrorKind>)
    requires
        dom.wf(),
        forall|k: int| 0 <= k < idxs@.len() ==> (#[trigger] idxs@[k]) < dom@.len(),
    ensures
        r matches Ok(p) ==> spec_parse_comment_list(dom@, idxs@, resolver@) == Ok::<
            _,
            ErrorKindV,
        >((p.0@.map_values(|c: crate::records::Comment| c@), p.1)),
        r matches Err(e) ==> spec_parse_comment_list(dom@, idxs@, resolver@) == Err::<
            (Seq<crate::records::CommentV>, bool),
            _,
        >(e@),
{
    let n = idxs.len();
    let mut out: Vec<crate::records::Comment> = Vec::new();
    let mut miss: bool = false;
    let mut k: usize = 0;
    proof {
        assert(idxs@.skip(0) =~= idxs@);
        assert(out@.map_values(|c: crate::records::Comment| c@) =~= Seq::<
            crate::records::CommentV,
        >::empty());
    }
    while k < n
        invariant
            0 <= k <= n == idxs@.len(),
            dom.wf(),
            forall|t: int| 0 <= t < idxs@.len() ==> (#[trigger] idxs@[t]) < dom@.len(),
            match spec_parse_comment_list(dom@, idxs@.skip(k as int), resolver@) {
                Ok(rest) => spec_parse_comment_list(dom@, idxs@, resolver@) == Ok::<
                    _,
                    ErrorKindV,
                >((out@.map_values(|c: crate::records::Comment| c@) + rest.0, miss || rest.1)),
                Err(e) => spec_parse_comment_list(dom@, idxs@, resolver@) == Err::<
                    (Seq<crate::records::CommentV>, bool),
                    _,
                >(e),
            },
        decreases n - k,
    {
        proof {
            let t = idxs@.skip(k as int);
            assert(t[0] == idxs@[k as int]);
            assert(t.skip(1) =~= idxs@.skip(k + 1));
        }
        let j = idxs[k];
        match parse_comment(dom, j, resolver) {
            Ok(p) => {
                let ghost out0 = out@;
                let ghost cv = p.0@;
                out.push(p.0);
                miss = miss || p.1;
                proof {
                    assert(out@.map_values(|c: crate::records::Comment| c@) =~= out0.map_values(
                        |c: crate::records::Comment| c@,
                    ).push(cv));
                    match spec_parse_comment_list(dom@, idxs@.skip(k + 1), resolver@) {
                        Ok(rest) => {
                            assert(out0.map_values(|c: crate::records::Comment| c@).push(cv)
                                + rest.0 =~= out0.map_values(|c: crate::records::Comment| c@) + (
                            seq![cv] + rest.0));
                        },
                        Err(_) => {},
                    }
                }
            },
            Err(e) => {
                return Err(e);
            },
        }
        k = k + 1;
    }
    proof {
        assert(idxs@.skip(n as int) =~= Seq::<usize>::empty());
        assert(out@.map_values(|c: crate::records::Comment| c@) + Seq::<
            crate::records::CommentV,
        >::empty() =~= out@.map_values(|c: crate::records::Comment| c@));
    }
    Ok((out, miss))
}

/// One thread: exactly one top-level comment, plus its replies; the
/// reply list is absent when no visible replies region exists.
pub open spec fn spec_parse_thread(ns: Seq<NodeData>, t: int, m: Seq<(String, String)>) -> Result<
    (crate::records::MainCommentV, bool),
    ErrorKindV,
> {
    let lo = t + 1;
    let hi = ns[t].end as int;
    let cs = selected(ns, lo, hi, sel_id("comment"@));
    if cs.len() != 1 {
        Err(ErrorKindV::NotExactlyOne { query: "comment"@, found: cs.len() })
    } else {
        match spec_parse_comment(ns, cs[0] as int, m) {
            Err(e) => Err(e),
            Ok(cp) => {
                let regs = selected(ns, lo, hi, sel_id_not_hidden("replies"@));
                if regs.len() == 0 {
                    Ok(
                        (
                            crate::records::MainCommentV { comment: cp.0, replies: None },
                            cp.1,
                        ),
                    )
                } else {
                    let conts = desc_many(ns, regs, sel_id("contents"@));
                    let rs = children_many(ns, conts, sel_any());
                    match spec_parse_comment_list(ns, rs, m) {
                        Err(e) => Err(e),
                        Ok(rp) => Ok(
                            (
                                crate::records::MainCommentV {
                                    comment: cp.0,
                                    replies: Some(rp.0),
                                },
                                cp.1 || rp.1,
                            ),
                        ),
                    }
                }
            },
        }
    }
}

/// Extracts one comment thread, matching [`spec_parse_thread`].
pub fn parse_comment_thread(
    dom: &Dom,
    t: usize,
    resolver: &crate::emote::EmoteResolver,
) -> (r: Result<(crate::records::MainComment, bool), ErrorKind>)
    requires
        dom.wf(),
        t < dom@.len(),
    ensures
        r matches Ok(p) ==> spec_parse_thread(dom@, t as int, resolver@) == Ok::<_, ErrorKindV>(
            (p.0@, p.1),
        ),
        r matches Err(e) ==> spec_parse_thread(dom@, t as int, resolver@) == Err::<
            (crate::records::MainCommentV, bool),
            _,
        >(e@),
{
    let total = dom.len();
    proof {
        assert(t < dom@[t as int].end <= dom@.len());
        assert(dom@.len() == total <= usize::MAX);
    }
    let lo = t + 1;
    let hi = dom.node(t).end;
    let c_sel = by_id("comment");
    let cs = select_range(dom, lo, hi, &c_sel);
    if cs.len() != 1 {
        return Err(
            ErrorKind::NotExactlyOne { query: String::from_str("comment"), found: cs.len() },
        );
    }
    proof {
        lemma_selected_props(dom@, lo as int, hi as int, c_sel@);
    }
    let (comment, miss) = match parse_comment(dom, cs[0], resolver) {
        Ok(p) => p,
        Err(e) => {
            return Err(e);
        },
    };
    let r_sel = by_id_not_hidden("replies");
    let regs = select_range(dom, lo, hi, &r_sel);
    if regs.len() == 0 {
        return Ok((crate::records::MainComment { comment, replies: None }, miss));
    }
    proof {
        lemma_selected_props(dom@, lo as int, hi as int, r_sel@);
    }
    let ct_sel = by_id("contents");
    let conts = select_desc_many(dom, &regs, &ct_sel);
    proof {
        lemma_desc_many_props(dom@, regs@, ct_sel@);
    }
    let any_sel = Sel {
        tag: None,
        id: None,
        class: None,
        attr_present: None,
        attr_eq: None,
        not_hidden: false,
    };
    let rs = select_children_many(dom, &conts, &any_sel);
    proof {
        lemma_children_many_props(dom@, conts@, any_sel@);
    }
    match parse_comment_list(dom, &rs, resolver) {
        Err(e) => Err(e),
        Ok((replies, rmiss)) => Ok(
            (
                crate::records::MainComment { comment, replies: Some(replies) },
                miss || rmiss,
            ),
        ),
    }
}

/// The threads at the listed indices, stopping at the first failure.
pub open spec fn spec_parse_threads(
    ns: Seq<NodeData>,
    idxs: Seq<usize>,
    m: Seq<(String, String)>,
) -> Result<(Seq<crate::records::MainCommentV>, bool), ErrorKindV>
    decreases idxs.len(),
{
    if idxs.len() == 0 {
        Ok((Seq::empty(), false))
    } else {
        match spec_parse_thread(ns, idxs[0] as int, m) {
            Err(e) => Err(e),
            Ok(p) => match spec_parse_threads(ns, idxs.skip(1), m) {
                Err(e) => Err(e),
                Ok(rest) => Ok((seq![p.0] + rest.0, p.1 || rest.1)),
            },
        }
    }
}

/// Extracts a list of threads, matching [`spec_parse_threads`].
#[verifier::rlimit(60)]
fn parse_threads(
    dom: &Dom,
    idxs: &Vec<usize>,
    resolver: &crate::emote::EmoteResolver,
) -> (r: Result<(Vec<crate::records::MainComment>, bool), ErrorKind>)
    requires
        dom.wf(),
        forall|k: int| 0 <= k < idxs@.len() ==> (#[trigger] idxs@[k]) < dom@.len(),
    ensures
        r matches Ok(p) ==> spec_parse_threads(dom@, idxs@, resolver@) == Ok::<_, ErrorKindV>(
            (p.0@.map_values(|c: crate::records::MainComment| c@), p.1),
        ),
        r matches Err(e) ==> spec_parse_threads(dom@, idxs@, resolver@) == Err::<
            (Seq<crate::records::MainCommentV>, bool),
            _,
        >(e@),
{
    let n = idxs.len();
    let mut out: Vec<crate::records::MainComment> = Vec::new();
    let mut miss: bool = false;
    let mut k: usize = 0;
    proof {
        assert(idxs@.skip(0) =~= idxs@);
        assert(out@.map_values(|c: crate::records::MainComment| c@) =~= Seq::<
            crate::records::MainCommentV,
        >::empty());
    }
    while k < n
        invariant
            0 <= k <= n == idxs@.len(),
            dom.wf(),
            forall|t: int| 0 <= t < idxs@.len() ==> (#[trigger] idxs@[t]) < dom@.len(),
            match spec_parse_threads(dom@, idxs@.skip(k as int), resolver@) {
                Ok(rest) => spec_parse_threads(dom@, idxs@, resolver@) == Ok::<_, ErrorKindV>(
                    (
                        out@.map_values(|c: crate::records::MainComment| c@) + rest.0,
                        miss || rest.1,
                    ),
                ),
                Err(e) => spec_parse_threads(dom@, idxs@, resolver@) == Err::<
                    (Seq<crate::records::MainCommentV>, bool),
                    _,
                >(e),
            },
        decreases n - k,
    {
        proof {
            let t = idxs@.skip(k as int);
            assert(t[0] == idxs@[k as int]);
            assert(t.skip(1) =~= idxs@.skip(k + 1));
        }
        let j = idxs[k];
        match parse_comment_thread(dom, j, resolver) {
            Ok(p) => {
                let ghost out0 = out@;
                let ghost cv = p.0@;
                out.push(p.0);
                miss = miss || p.1;
                proof {
                    assert(out@.map_values(|c: crate::records::MainComment| c@)
                        =~= out0.map_values(|c: crate::records::MainComment| c@).push(cv));
                    match spec_parse_threads(dom@, idxs@.skip(k + 1), resolver@) {
                        Ok(rest) => {
                            assert(out0.map_values(|c: crate::records::MainComment| c@).push(cv)
                                + rest.0 =~= out0.map_values(
                                |c: crate::records::MainComment| c@,
                            ) + (seq![cv] + rest.0));
                        },
                        Err(_) => {},
                    }
                }
            },
            Err(e) => {
                return Err(e);
            },
        }
        k = k + 1;
    }
    proof {
        assert(idxs@.skip(n as int) =~= Seq::<usize>::empty());
        assert(out@.map_values(|c: crate::records::MainComment| c@) + Seq::<
            crate::records::MainCommentV,
        >::empty() =~= out@.map_values(|c: crate::records::MainComment| c@));
    }
    Ok((out, miss))
}

/// The comments region: exactly one displayed count, which must carry
/// a numeric fragment; the visible threads in document order; and the
/// declared count must not undercut the visible thread count.
pub open spec fn spec_parse_comments(ns: Seq<NodeData>, c: int, m: Seq<(String, String)>) -> Result<
    (u32, Seq<crate::records::MainCommentV>, bool),
    ErrorKindV,
> {
    let lo = c + 1;
    let hi = ns[c].end as int;
    let counts = selected(ns, lo, hi, sel_id("count"@));
    if counts.len() != 1 {
        Err(ErrorKindV::NotExactlyOne { query: "count"@, found: counts.len() })
    } else {
        let clo = counts[0] + 1;
        let chi = ns[counts[0] as int].end as int;
        match spec_first_numeric(ns, clo, chi) {
            None => Err(ErrorKindV::LocaleParse { text: texts_range(ns, clo, chi) }),
            Some(n) => {
                let conts = selected(ns, lo, hi, sel_id("contents"@));
                let threads = children_many(ns, conts, sel_tag("ytd-comment-thread-renderer"@));
                match spec_parse_threads(ns, threads, m) {
                    Err(e) => Err(e),
                    Ok(tp) => {
                        if n < tp.0.len() {
                            Err(
                                ErrorKindV::CountBelowThreads {
                                    declared: n,
                                    visible: tp.0.len(),
                                },
                            )
                        } else {
                            Ok((n, tp.0, tp.1))
                        }
                    },
                }
            },
        }
    }
}

/// Extracts the comments region, matching [`spec_parse_comments`].
pub fn parse_comments(dom: &Dom, c: usize, resolver: &crate::emote::EmoteResolver) -> (r: Result<
    (u32, Vec<crate::records::MainComment>, bool),
    ErrorKind,
>)
    requires
        dom.wf(),
        c < dom@.len(),
    ensures
        r matches Ok(p) ==> spec_parse_comments(dom@, c as int, resolver@) == Ok::<_, ErrorKindV>(
            (p.0, p.1@.map_values(|t: crate::records::MainComment| t@), p.2),
        ),
        r matches Err(e) ==> spec_parse_comments(dom@, c as int, resolver@) == Err::<
            (u32, Seq<crate::records::MainCommentV>, bool),
            _,
        >(e@),
{
    let total = dom.len();
    proof {
        assert(c < dom@[c as int].end <= dom@.len());
        assert(dom@.len() == total <= usize::MAX);
    }
    let lo = c + 1;
    let hi = dom.node(c).end;
    let cnt_sel = by_id("count");
    let counts = select_range(dom, lo, hi, &cnt_sel);
    if counts.len() != 1 {
        return Err(
            ErrorKind::NotExactlyOne { query: String::from_str("count"), found: counts.len() },
        );
    }
    proof {
        lemma_selected_props(dom@, lo as int, hi as int, cnt_sel@);
    }
    let c0 = counts[0];
    let ce = dom.node(c0).end;
    let n = match first_numeric_text(dom, c0 + 1, ce) {
        Some(n) => n,
        None => {
            let t = collect_text(dom, c0 + 1, ce);
            return Err(ErrorKind::LocaleParse { text: t });
        },
    };
    let co_sel = by_id("contents");
    let conts = select_range(dom, lo, hi, &co_sel);
    proof {
        lemma_selected_props(dom@, lo as int, hi as int, co_sel@);
    }
    let th_sel = by_tag("ytd-comment-thread-renderer");
    let threads = select_children_many(dom, &conts, &th_sel);
    proof {
        lemma_children_many_props(dom@, conts@, th_sel@);
    }
    match parse_threads(dom, &threads, resolver) {
        Err(e) => Err(e),
        Ok((tv, miss)) => {
            if (n as usize) < tv.len() {
                Err(ErrorKind::CountBelowThreads { declared: n, visible: tv.len() })
            } else {
                Ok((n, tv, miss))
            }
        },
    }
}

/// The marker that comments are administratively disabled on the
/// source page.
pub open spec fn disabled_comments_indicator() -> Seq<char> {
    "support.google.com/youtube/answer/9706180"@
}

/// The top-level items of the document: the children of the
/// `contents` regions under `body`.
pub open spec fn top_items(ns: Seq<NodeData>) -> Seq<usize> {
    let bodies = selected(ns, 0, ns.len() as int, sel_tag("body"@));
    let contents = children_many(ns, bodies, sel_id("contents"@));
    children_many(ns, contents, sel_any())
}

/// The disabled-comments indicator occurs inside the main post
/// subtree (its text or an attribute value).
pub open spec fn indicator_present(ns: Seq<NodeData>) -> bool {
    let items = top_items(ns);
    items.len() >= 1 && range_has(
        ns,
        items[0] as int,
        ns[items[0] as int].end as int,
        disabled_comments_indicator(),
    )
}

/// The whole extraction: one or two top-level items (the main post,
/// optionally the comments region); a missing comments region demands
/// the disabled-comments indicator; exactly one main region; then the
/// main body and, when present, the comments.
pub open spec fn spec_parse(ns: Seq<NodeData>, id: Seq<char>, m: Seq<(String, String)>) -> Result<
    (crate::records::PostV, bool),
    ErrorKindV,
> {
    let items = top_items(ns);
    if items.len() == 0 {
        Err(ErrorKindV::Missing { query: "body>#contents>*"@ })
    } else if items.len() > 2 {
        Err(ErrorKindV::MoreThanOne { query: "body>#contents>*"@, found: items.len() })
    } else {
        let post = items[0] as int;
        if items.len() == 2 && ns[items[1] as int].name@ != "ytd-comments"@ {
            Err(ErrorKindV::UnexpectedName { found: ns[items[1] as int].name@ })
        } else if items.len() == 1 && !range_has(
            ns,
            post,
            ns[post].end as int,
            disabled_comments_indicator(),
        ) {
            Err(ErrorKindV::IndicatorMissing)
        } else {
            let posts = selected(ns, post + 1, ns[post].end as int, sel_id("post"@));
            let lvl2 = children_many(ns, posts, sel_any());
            let lvl3 = children_many(ns, lvl2, sel_id("body"@));
            let mains = desc_many(ns, lvl3, sel_id("main"@));
            if mains.len() != 1 {
                Err(
                    ErrorKindV::NotExactlyOne {
                        query: "#post>*>#body #main"@,
                        found: mains.len(),
                    },
                )
            } else {
                match spec_parse_main(ns, mains[0] as int) {
                    Err(e) => Err(e),
                    Ok(mv) => {
                        if items.len() == 2 {
                            match spec_parse_comments(ns, items[1] as int, m) {
                                Err(e) => Err(e),
                                Ok(cp) => Ok(
                                    (
                                        crate::records::PostV {
                                            id,
                                            main: mv,
                                            comments: Some(cp.1),
                                            total_comment: Some(cp.0),
                                        },
                                        cp.2,
                                    ),
                                ),
                            }
                        } else {
                            Ok(
                                (
                                    crate::records::PostV {
                                        id,
                                        main: mv,
                                        comments: None,
                                        total_comment: None,
                                    },
                                    false,
                                ),
                            )
                        }
                    },
                }
            }
        }
    }
}

/// Extracts one post from a document, matching [`spec_parse`]. The
/// boolean result is the emote-resolution-miss warning flag. Beyond
/// the exact mirror, the contract states two invariants of every
/// extracted record: a record without comments comes only from a
/// document carrying the disabled-comments indicator, and a record
/// with comments declares a count no smaller than its thread count.
#[verifier::rlimit(80)]
pub fn parse(dom: &Dom, id: String, resolver: &crate::emote::EmoteResolver) -> (r: Result<
    (crate::records::Post, bool),
    crate::records::ExtractError,
>)
    requires
        dom.wf(),
    ensures
        r matches Ok(p) ==> spec_parse(dom@, id@, resolver@) == Ok::<_, ErrorKindV>((p.0@, p.1)),
        r matches Err(e) ==> spec_parse(dom@, id@, resolver@) == Err::<
            (crate::records::PostV, bool),
            _,
        >(e@.kind) && e@.post_id == id@,
        r matches Ok(p) ==> p.0@.id == id@,
        r matches Ok(p) ==> (p.0.comments is None ==> indicator_present(dom@)),
        r matches Ok(p) ==> (p.0.comments matches Some(cs) ==> p.0.total_comment matches Some(n)
            && cs@.len() <= n),
{
    let total = dom.len();
    proof {
        assert(dom@.len() == total <= usize::MAX);
    }
    let b_sel = by_tag("body");
    let bodies = select_range(dom, 0, total, &b_sel);
    proof {
        lemma_selected_props(dom@, 0, total as int, b_sel@);
    }
    let c_sel = by_id("contents");
    let contents = select_children_many(dom, &bodies, &c_sel);
    proof {
        lemma_children_many_props(dom@, bodies@, c_sel@);
    }
    let any_sel = Sel {
        tag: None,
        id: None,
        class: None,
        attr_present: None,
        attr_eq: None,
        not_hidden: false,
    };
    let items = select_children_many(dom, &contents, &any_sel);
    if items.len() == 0 {
        return Err(
            crate::records::ExtractError {
                post_id: id,
                kind: ErrorKind::Missing { query: String::from_str("body>#contents>*") },
            },
        );
    }
    if items.len() > 2 {
        return Err(
            crate::records::ExtractError {
                post_id: id,
                kind: ErrorKind::MoreThanOne {
                    query: String::from_str("body>#contents>*"),
                    found: items.len(),
                },
            },
        );
    }
    proof {
        lemma_children_many_props(dom@, contents@, any_sel@);
    }
    let post = items[0];
    let post_end = dom.node(post).end;
    if items.len() == 2 {
        let second = items[1];
        if !crate::text::str_eq(dom.node(second).name.as_str(), "ytd-comments") {
            let found = dom.node(second).name.clone();
            return Err(
                crate::records::ExtractError {
                    post_id: id,
                    kind: ErrorKind::UnexpectedName { found },
                },
            );
        }
    } else {
        if !range_contains(dom, post, post_end, "support.google.com/youtube/answer/9706180") {
            return Err(
                crate::records::ExtractError { post_id: id, kind: ErrorKind::IndicatorMissing },
            );
        }
    }
    let p_sel = by_id("post");
    let posts = select_range(dom, post + 1, post_end, &p_sel);
    proof {
        lemma_selected_props(dom@, post + 1, post_end as int, p_sel@);
    }
    let lvl2 = select_children_many(dom, &posts, &any_sel);
    proof {
        lemma_children_many_props(dom@, posts@, any_sel@);
    }
    let bd_sel = by_id("body");
    let lvl3 = select_children_many(dom, &lvl2, &bd_sel);
    proof {
        lemma_children_many_props(dom@, lvl2@, bd_sel@);
    }
    let m_sel = by_id("main");
    let mains = select_desc_many(dom, &lvl3, &m_sel);
    if mains.len() != 1 {
        return Err(
            crate::records::ExtractError {
                post_id: id,
                kind: ErrorKind::NotExactlyOne {
                    query: String::from_str("#post>*>#body #main"),
                    found: mains.len(),
                },
            },
        );
    }
    proof {
        lemma_desc_many_props(dom@, lvl3@, m_sel@);
    }
    let main = match parse_main(dom, mains[0]) {
        Ok(m) => m,
        Err(e) => {
            return Err(crate::records::ExtractError { post_id: id, kind: e });
        },
    };
    if items.len() == 2 {
        let second = items[1];
        match parse_comments(dom, second, resolver) {
            Err(e) => Err(crate::records::ExtractError { post_id: id, kind: e }),
            Ok((n, threads, miss)) => Ok(
                (
                    crate::records::Post {
                        id,
                        main,
                        comments: Some(threads),
                        total_comment: Some(n),
                    },
                    miss,
                ),
            ),
        }
    } else {
        Ok(
            (
                crate::records::Post { id, main, comments: None, total_comment: None },
                false,
            ),
        )
    }
}

/// Extraction is deterministic: the record is a function of the
/// document, the supplied id and the emote mapping alone, so
/// re-extracting the same document yields the identical record.
pub proof fn lemma_extraction_deterministic(
    ns: Seq<NodeData>,
    id1: Seq<char>,
    id2: Seq<char>,
    m: Seq<(String, String)>,
    p1: crate::records::PostV,
    w1: bool,
    p2: crate::records::PostV,
    w2: bool,
)
    requires
        id1 == id2,
        spec_parse(ns, id1, m) == Ok::<_, ErrorKindV>((p1, w1)),
        spec_parse(ns, id2, m) == Ok::<_, ErrorKindV>((p2, w2)),
    ensures
        p1 == p2,
        w1 == w2,
{
}

} // verus!
