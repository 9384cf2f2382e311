//! The content stringifier: converts the children of one content-text
//! element into a single flat string that losslessly encodes inline
//! structure, resolving embedded images through the emote resolver.
//!
//! Dispatch is by inline-node shape: plain text is trimmed verbatim; a
//! styled span with non-empty text is emitted bold or plain; an empty
//! span wrapping one image delegates to the resolver (a miss degrades
//! to a literal placeholder plus a warning count); an empty span
//! wrapping one anchor becomes a link tag; any other shape is an
//! unrecognized-inline failure.

use vstd::prelude::*;
use crate::dom::{
    attr_of, child_list, children_of, collect_text_trimmed, first_element_in, first_element_of,
    lemma_child_list_props, lemma_subtree_closed, spec_attr, trimmed_texts_range, Dom, NodeData,
    NodeKind,
};
use crate::emote::{spec_resolve, EmoteResolver};
use crate::records::{ErrorKind, ErrorKindV};
use crate::text::{contains_seq, contains_str, str_eq, trim_spec, trim_str};
use vstd::string::*;

verus! {

/// The concatenated raw text of the text nodes among the listed
/// children.
pub open spec fn child_texts(ns: Seq<NodeData>, idxs: Seq<usize>) -> Seq<char>
    decreases idxs.len(),
{
    if idxs.len() == 0 {
        Seq::empty()
    } else {
        (if ns[idxs[0] as int].kind is Text {
            ns[idxs[0] as int].text@
        } else {
            Seq::empty()
        }) + child_texts(ns, idxs.skip(1))
    }
}

/// Runtime collection matching [`child_texts`].
fn collect_child_texts(dom: &Dom, idxs: &Vec<usize>) -> (r: String)
    requires
        forall|k: int| 0 <= k < idxs@.len() ==> (#[trigger] idxs@[k]) < dom@.len(),
    ensures
        r@ == child_texts(dom@, idxs@),
{
    let n = idxs.len();
    let mut out = String::new();
    let mut i: usize = 0;
    proof {
        assert(idxs@.skip(0) =~= idxs@);
        assert(out@ + child_texts(dom@, idxs@.skip(0)) =~= child_texts(dom@, idxs@));
    }
    while i < n
        invariant
            0 <= i <= n == idxs@.len(),
            forall|k: int| 0 <= k < idxs@.len() ==> (#[trigger] idxs@[k]) < dom@.len(),
            out@ + child_texts(dom@, idxs@.skip(i as int)) == child_texts(dom@, idxs@),
        decreases n - i,
    {
        proof {
            let t = idxs@.skip(i as int);
            assert(t[0] == idxs@[i as int]);
            assert(t.skip(1) =~= idxs@.skip(i + 1));
        }
        let j = idxs[i];
        let nd = dom.node(j);
        let ghost out0 = out@;
        let is_text = match nd.kind {
            NodeKind::Text => true,
            _ => false,
        };
        if is_text {
            out.append(nd.text.as_str());
        }
        proof {
            assert((out0 + (if dom@[j as int].kind is Text {
                dom@[j as int].text@
            } else {
                Seq::<char>::empty()
            })) + child_texts(dom@, idxs@.skip(i + 1)) =~= out0 + ((if dom@[j as int].kind
                is Text {
                dom@[j as int].text@
            } else {
                Seq::<char>::empty()
            }) + child_texts(dom@, idxs@.skip(i + 1))));
            assert(out@ =~= out0 + (if dom@[j as int].kind is Text {
                dom@[j as int].text@
            } else {
                Seq::<char>::empty()
            }));
        }
        i = i + 1;
    }
    proof {
        assert(idxs@.skip(n as int) =~= Seq::<usize>::empty());
        assert(out@ + Seq::<char>::empty() =~= out@);
    }
    out
}

/// The string one inline node contributes, with its resolution-miss
/// warning flag, or the contract it violates.
pub open spec fn spec_stringify_item(
    ns: Seq<NodeData>,
    i: int,
    m: Seq<(String, String)>,
) -> Result<(Seq<char>, bool), ErrorKindV> {
    let nd = ns[i];
    match nd.kind {
        NodeKind::Text => Ok((trim_spec(nd.text@), false)),
        NodeKind::Other => Err(ErrorKindV::UnrecognizedInline),
        NodeKind::Element => {
            if nd.name@ != "span"@ {
                Err(ErrorKindV::UnrecognizedInline)
            } else {
                let childs = child_list(ns, i + 1, nd.end as int);
                let text = trim_spec(child_texts(ns, childs));
                if text.len() > 0 {
                    if spec_attr(nd.attrs@, "style"@) matches Some(style) && contains_seq(
                        style,
                        "font-weight: 500"@,
                    ) {
                        Ok(("<b>"@ + text + "</b>"@, false))
                    } else {
                        Ok((text, false))
                    }
                } else {
                    match first_element_in(ns, childs) {
                        None => Err(ErrorKindV::UnrecognizedInline),
                        Some(j) => {
                            let c = ns[j as int];
                            if c.name@ == "img"@ {
                                match spec_attr(c.attrs@, "src"@) {
                                    None => Err(ErrorKindV::MissingAttr { attr: "src"@ }),
                                    Some(srcv) => match spec_resolve(
                                        m,
                                        srcv,
                                        spec_attr(c.attrs@, "alt"@),
                                    ) {
                                        Some(tok) => Ok((tok, false)),
                                        None => Ok(("<img src=\""@ + srcv + "\">"@, true)),
                                    },
                                }
                            } else if c.name@ == "a"@ {
                                match spec_attr(c.attrs@, "href"@) {
                                    None => Err(ErrorKindV::MissingAttr { attr: "href"@ }),
                                    Some(h) => Ok(
                                        (
                                            "<a href=\""@ + h + "\">"@ + trimmed_texts_range(
                                                ns,
                                                j + 1,
                                                c.end as int,
                                            ) + "</a>"@,
                                            false,
                                        ),
                                    ),
                                }
                            } else {
                                Err(ErrorKindV::UnrecognizedInline)
                            }
                        },
                    }
                }
            }
        },
    }
}

/// The concatenation over a child list, stopping at the first failing
/// child; a warning on any child raises the flag.
pub open spec fn spec_stringify_children(
    ns: Seq<NodeData>,
    idxs: Seq<usize>,
    m: Seq<(String, String)>,
) -> Result<(Seq<char>, bool), ErrorKindV>
    decreases idxs.len(),
{
    if idxs.len() == 0 {
        Ok((Seq::empty(), false))
    } else {
        match spec_stringify_item(ns, idxs[0] as int, m) {
            Err(e) => Err(e),
            Ok(p) => match spec_stringify_children(ns, idxs.skip(1), m) {
                Err(e) => Err(e),
                Ok(rest) => Ok((p.0 + rest.0, p.1 || rest.1)),
            },
        }
    }
}

/// Stringifies one inline node, matching [`spec_stringify_item`].
pub fn stringify_content_item(dom: &Dom, i: usize, resolver: &EmoteResolver) -> (r: Result<
    (String, bool),
    ErrorKind,
>)
    requires
        dom.wf(),
        i < dom@.len(),
    ensures
        r matches Ok(p) ==> spec_stringify_item(dom@, i as int, resolver@) == Ok::<
            _,
            ErrorKindV,
        >((p.0@, p.1)),
        r matches Err(e) ==> spec_stringify_item(dom@, i as int, resolver@) == Err::<
            (Seq<char>, bool),
            _,
        >(e@),
{
    let nd = dom.node(i);
    proof {
        assert(i < dom@[i as int].end <= dom@.len());
    }
    match nd.kind {
        NodeKind::Text => {
            let t = trim_str(nd.text.as_str());
            Ok((t, false))
        },
        NodeKind::Other => Err(ErrorKind::UnrecognizedInline),
        NodeKind::Element => {
            if !str_eq(nd.name.as_str(), "span") {
                return Err(ErrorKind::UnrecognizedInline);
            }
            proof {
                lemma_subtree_closed(dom@, i as int);
                lemma_child_list_props(dom@, i + 1, dom@[i as int].end as int);
            }
            let childs = children_of(dom, i + 1, nd.end);
            let raw = collect_child_texts(dom, &childs);
            let text = trim_str(raw.as_str());
            if text.as_str().unicode_len() > 0 {
                let bold = match attr_of(nd, "style") {
                    Some(style) => contains_str(style.as_str(), "font-weight: 500"),
                    None => false,
                };
                if bold {
                    let s = String::from_str("<b>").concat(text.as_str()).concat("</b>");
                    Ok((s, false))
                } else {
                    Ok((text, false))
                }
            } else {
                match first_element_of(dom, &childs) {
                    None => Err(ErrorKind::UnrecognizedInline),
                    Some(j) => {
                        proof {
                            assert(childs@.contains(j));
                            let kk = choose|kk: int|
                                0 <= kk < childs@.len() && childs@[kk] == j;
                            assert(childs@[kk] < dom@[i as int].end as int);
                            assert(j < dom@[j as int].end <= dom@.len());
                        }
                        let c = dom.node(j);
                        if str_eq(c.name.as_str(), "img") {
                            match attr_of(c, "src") {
                                None => Err(
                                    ErrorKind::MissingAttr { attr: String::from_str("src") },
                                ),
                                Some(srcv) => {
                                    let alt = attr_of(c, "alt");
                                    let alt_ref: Option<&str> = match &alt {
                                        Some(a) => Some(a.as_str()),
                                        None => None,
                                    };
                                    proof {
                                        assert(crate::emote::opt_str_view(alt_ref) == spec_attr(
                                            c.attrs@,
                                            "alt"@,
                                        ));
                                    }
                                    match resolver.resolve_emoji(srcv.as_str(), alt_ref) {
                                        Some(tok) => Ok((tok, false)),
                                        None => {
                                            let s = String::from_str("<img src=\"").concat(
                                                srcv.as_str(),
                                            ).concat("\">");
                                            Ok((s, true))
                                        },
                                    }
                                },
                            }
                        } else if str_eq(c.name.as_str(), "a") {
                            match attr_of(c, "href") {
                                None => Err(
                                    ErrorKind::MissingAttr { attr: String::from_str("href") },
                                ),
                                Some(h) => {
                                    let ltext = collect_text_trimmed(dom, j + 1, c.end);
                                    let s = String::from_str("<a href=\"").concat(
                                        h.as_str(),
                                    ).concat("\">").concat(ltext.as_str()).concat("</a>");
                                    Ok((s, false))
                                },
                            }
                        } else {
                            Err(ErrorKind::UnrecognizedInline)
                        }
                    },
                }
            }
        },
    }
}

/// Stringifies a whole child list in document order, matching
/// [`spec_stringify_children`].
pub fn stringify_children(dom: &Dom, idxs: &Vec<usize>, resolver: &EmoteResolver) -> (r: Result<
    (String, bool),
    ErrorKind,
>)
    requires
        dom.wf(),
        forall|k: int| 0 <= k < idxs@.len() ==> (#[trigger] idxs@[k]) < dom@.len(),
    ensures
        r matches Ok(p) ==> spec_stringify_children(dom@, idxs@, resolver@) == Ok::<
            _,
            ErrorKindV,
        >((p.0@, p.1)),
        r matches Err(e) ==> spec_stringify_children(dom@, idxs@, resolver@) == Err::<
            (Seq<char>, bool),
            _,
        >(e@),
{
    let n = idxs.len();
    let mut out = String::new();
    let mut warns: bool = false;
    let mut k: usize = 0;
    proof {
        assert(idxs@.skip(0) =~= idxs@);
    }
    while k < n
        invariant
            0 <= k <= n == idxs@.len(),
            dom.wf(),
            forall|t: int| 0 <= t < idxs@.len() ==> (#[trigger] idxs@[t]) < dom@.len(),
            match spec_stringify_children(dom@, idxs@.skip(k as int), resolver@) {
                Ok(rest) => spec_stringify_children(dom@, idxs@, resolver@) == Ok::<
                    _,
                    ErrorKindV,
                >((out@ + rest.0, warns || rest.1)),
                Err(e) => spec_stringify_children(dom@, idxs@, resolver@) == Err::<
                    (Seq<char>, bool),
                    _,
                >(e),
            },
        decreases n - k,
    {
        proof {
            let t = idxs@.skip(k as int);
            assert(t[0] == idxs@[k as int]);
            assert(t.skip(1) =~= idxs@.skip(k + 1));
        }
        let j = idxs[k];
        match stringify_content_item(dom, j, resolver) {
            Ok(p) => {
                let ghost out0 = out@;
                out.append(p.0.as_str());
                warns = warns || p.1;
                proof {
                    match spec_stringify_children(dom@, idxs@.skip(k + 1), resolver@) {
                        Ok(rest) => {
                            assert((out0 + p.0@) + rest.0 =~= out0 + (p.0@ + rest.0));
                        },
                        Err(_) => {},
                    }
                }
            },
            Err(e) => {
                return Err(e);
            },
        }
        k = k + 1;
    }
    proof {
        assert(idxs@.skip(n as int) =~= Seq::<usize>::empty());
        assert(out@ + Seq::<char>::empty() =~= out@);
    }
    Ok((out, warns))
}

} // verus!
