//! The document model: a flat, pre-order array of nodes, with
//! structural queries over it.
//!
//! A node at index `i` owns the contiguous index range `i..end`, its
//! subtree; `i+1..end` are its descendants in document order. Only
//! element nodes may have descendants. A [`Dom`] is a well-formed
//! forest of such subtrees.

use vstd::prelude::*;
use crate::text::{contains_seq, is_space_char, match_at, trim_spec};
use vstd::string::*;

verus! {

/// The closed set of node shapes the extractor models.
#[derive(Clone, Copy, PartialEq, Eq, Debug)]
pub enum NodeKind {
    /// A named element with attributes and descendants.
    Element,
    /// A text fragment; always a leaf.
    Text,
    /// Any other markup node (comment, doctype, ...); always a leaf.
    Other,
}

/// One node of the flat document array.
#[derive(Debug)]
pub struct NodeData {
    pub kind: NodeKind,
    /// Element name; empty for non-elements.
    pub name: String,
    /// Attributes in document order; empty for non-elements.
    pub attrs: Vec<(String, String)>,
    /// Text content; empty for non-text nodes.
    pub text: String,
    /// One past the last index of this node's subtree.
    pub end: usize,
}

/// Well-formedness of a flat node array: subtree ranges are in bounds,
/// properly nested, and only elements have descendants.
pub open spec fn wf_nodes(ns: Seq<NodeData>) -> bool {
    &&& forall|i: int| 0 <= i < ns.len() ==> i < (#[trigger] ns[i].end) <= ns.len()
    &&& forall|i: int, j: int|
        0 <= i < j < ns.len() && j < (#[trigger] ns[i].end) ==> (#[trigger] ns[j].end)
            <= ns[i].end
    &&& forall|i: int|
        0 <= i < ns.len() && !((#[trigger] ns[i]).kind is Element) ==> ns[i].end == i + 1
}

/// A parsed document: a well-formed forest of nodes in document order.
pub struct Dom {
    nodes: Vec<NodeData>,
}

impl View for Dom {
    type V = Seq<NodeData>;

    closed spec fn view(&self) -> Seq<NodeData> {
        self.nodes@
    }
}

impl Dom {
    /// The forest is well formed.
    pub open spec fn wf(&self) -> bool {
        wf_nodes(self@)
    }

    /// Number of nodes.
    pub fn len(&self) -> (r: usize)
        ensures
            r == self@.len(),
    {
        self.nodes.len()
    }

    /// The node at index `i`.
    pub fn node(&self, i: usize) -> (r: &NodeData)
        requires
            i < self@.len(),
        ensures
            *r == self@[i as int],
    {
        &self.nodes[i]
    }

    /// Checks a raw node array for well-formedness and wraps it.
    /// Returns the document exactly when the array is well formed.
    pub fn from_nodes(nodes: Vec<NodeData>) -> (r: Option<Dom>)
        ensures
            r matches Some(d) ==> d@ == nodes@ && wf_nodes(nodes@),
            r is None ==> !wf_nodes(nodes@),
    {
        let n = nodes.len();
        let mut i: usize = 0;
        while i < n
            invariant
                0 <= i <= n == nodes@.len(),
                forall|k: int| 0 <= k < i ==> k < (#[trigger] nodes@[k].end) <= n,
                forall|k: int|
                    0 <= k < i && !((#[trigger] nodes@[k]).kind is Element) ==> nodes@[k].end == k
                        + 1,
            decreases n - i,
        {
            let e = nodes[i].end;
            if !(i < e && e <= n) {
                return None;
            }
            let is_elem = match nodes[i].kind {
                NodeKind::Element => true,
                _ => false,
            };
            if !is_elem && e != i + 1 {
                return None;
            }
            i = i + 1;
        }
        let mut a: usize = 0;
        while a < n
            invariant
                0 <= a <= n == nodes@.len(),
                forall|k: int| 0 <= k < n ==> k < (#[trigger] nodes@[k].end) <= n,
                forall|k: int|
                    0 <= k < n && !((#[trigger] nodes@[k]).kind is Element) ==> nodes@[k].end == k
                        + 1,
                forall|k: int, j: int|
                    0 <= k < a && k < j < n && j < (#[trigger] nodes@[k].end) ==> (
                    #[trigger] nodes@[j].end) <= nodes@[k].end,
            decreases n - a,
        {
            let ea = nodes[a].end;
            let mut b: usize = a + 1;
            while b < ea
                invariant
                    0 <= a < b <= ea <= n == nodes@.len(),
                    ea == nodes@[a as int].end,
                    forall|k: int| 0 <= k < n ==> k < (#[trigger] nodes@[k].end) <= n,
                    forall|j: int|
                        a < j < b ==> (#[trigger] nodes@[j].end) <= nodes@[a as int].end,
                decreases ea - b,
            {
                if nodes[b].end > ea {
                    return None;
                }
                b = b + 1;
            }
            a = a + 1;
        }
        Some(Dom { nodes })
    }
}

/// First value bound to `name` in an attribute list.
pub open spec fn spec_attr(attrs: Seq<(String, String)>, name: Seq<char>) -> Option<Seq<char>>
    decreases attrs.len(),
{
    if attrs.len() == 0 {
        None
    } else if attrs[0].0@ == name {
        Some(attrs[0].1@)
    } else {
        spec_attr(attrs.skip(1), name)
    }
}

/// Looks up an attribute by name, matching [`spec_attr`].
pub fn attr_of(node: &NodeData, name: &str) -> (r: Option<String>)
    ensures
        r is Some <==> spec_attr(node.attrs@, name@) is Some,
        r matches Some(v) ==> spec_attr(node.attrs@, name@) == Some(v@),
{
    let n = node.attrs.len();
    proof {
        assert(node.attrs@.skip(0) =~= node.attrs@);
    }
    let mut i: usize = 0;
    while i < n
        invariant
            0 <= i <= n == node.attrs@.len(),
            spec_attr(node.attrs@, name@) == spec_attr(node.attrs@.skip(i as int), name@),
        decreases n - i,
    {
        proof {
            let t = node.attrs@.skip(i as int);
            assert(t[0] == node.attrs@[i as int]);
            assert(t.skip(1) =~= node.attrs@.skip(i + 1));
        }
        if crate::text::str_eq(node.attrs[i].0.as_str(), name) {
            return Some(node.attrs[i].1.clone());
        }
        i = i + 1;
    }
    proof {
        assert(node.attrs@.skip(i as int) =~= Seq::<(String, String)>::empty());
    }
    None
}

/// An occurrence at `j` stands on whitespace-or-edge boundaries.
pub open spec fn token_boundary_ok(v: Seq<char>, tok: Seq<char>, j: int) -> bool {
    (j == 0 || is_space_char(v[j - 1])) && (j + tok.len() == v.len() || is_space_char(
        v[j + tok.len()],
    ))
}

/// `tok` occurs in the whitespace-separated token list `v`.
pub open spec fn has_class_token(v: Seq<char>, tok: Seq<char>) -> bool {
    exists|i: int| match_at(v, tok, i) && #[trigger] token_boundary_ok(v, tok, i)
}

/// A structural query: a conjunction of simple conditions on one
/// element, the precompiled form of a path/attribute selector step.
pub struct Sel {
    /// Required element name.
    pub tag: Option<String>,
    /// Required value of the `id` attribute.
    pub id: Option<String>,
    /// Required token in the `class` attribute.
    pub class: Option<String>,
    /// An attribute that must be present, with any value.
    pub attr_present: Option<String>,
    /// An attribute that must be present with exactly this value.
    pub attr_eq: Option<(String, String)>,
    /// The `hidden` attribute must be absent.
    pub not_hidden: bool,
}

/// The mathematical form of a structural query.
pub struct SelV {
    pub tag: Option<Seq<char>>,
    pub id: Option<Seq<char>>,
    pub class: Option<Seq<char>>,
    pub attr_present: Option<Seq<char>>,
    pub attr_eq: Option<(Seq<char>, Seq<char>)>,
    pub not_hidden: bool,
}

impl View for Sel {
    type V = SelV;

    open spec fn view(&self) -> SelV {
        SelV {
            tag: match self.tag {
                Some(t) => Some(t@),
                None => None,
            },
            id: match self.id {
                Some(t) => Some(t@),
                None => None,
            },
            class: match self.class {
                Some(t) => Some(t@),
                None => None,
            },
            attr_present: match self.attr_present {
                Some(t) => Some(t@),
                None => None,
            },
            attr_eq: match self.attr_eq {
                Some(p) => Some((p.0@, p.1@)),
                None => None,
            },
            not_hidden: self.not_hidden,
        }
    }
}

/// Query on the value of the `id` attribute.
pub open spec fn sel_id(id: Seq<char>) -> SelV {
    SelV { tag: None, id: Some(id), class: None, attr_present: None, attr_eq: None, not_hidden: false }
}

/// Query on the value of the `id` attribute, restricted to elements
/// without the `hidden` attribute.
pub open spec fn sel_id_not_hidden(id: Seq<char>) -> SelV {
    SelV { tag: None, id: Some(id), class: None, attr_present: None, attr_eq: None, not_hidden: true }
}

/// Query on the element name.
pub open spec fn sel_tag(tag: Seq<char>) -> SelV {
    SelV { tag: Some(tag), id: None, class: None, attr_present: None, attr_eq: None, not_hidden: false }
}

/// Query on the element name plus a required attribute.
pub open spec fn sel_tag_attr(tag: Seq<char>, attr: Seq<char>) -> SelV {
    SelV {
        tag: Some(tag),
        id: None,
        class: None,
        attr_present: Some(attr),
        attr_eq: None,
        not_hidden: false,
    }
}

/// Query on the element name plus a required attribute value.
pub open spec fn sel_tag_attr_eq(tag: Seq<char>, attr: Seq<char>, value: Seq<char>) -> SelV {
    SelV {
        tag: Some(tag),
        id: None,
        class: None,
        attr_present: None,
        attr_eq: Some((attr, value)),
        not_hidden: false,
    }
}

/// Query on a `class` attribute token.
pub open spec fn sel_class(class: Seq<char>) -> SelV {
    SelV { tag: None, id: None, class: Some(class), attr_present: None, attr_eq: None, not_hidden: false }
}

/// Query matching every element.
pub open spec fn sel_any() -> SelV {
    SelV { tag: None, id: None, class: None, attr_present: None, attr_eq: None, not_hidden: false }
}

/// Builds the runtime query on an `id` value.
pub fn by_id(id: &str) -> (s: Sel)
    ensures
        s@ == sel_id(id@),
{
    Sel {
        tag: None,
        id: Some(id.to_owned()),
        class: None,
        attr_present: None,
        attr_eq: None,
        not_hidden: false,
    }
}

/// Builds the runtime query on an `id` value outside hidden regions.
pub fn by_id_not_hidden(id: &str) -> (s: Sel)
    ensures
        s@ == sel_id_not_hidden(id@),
{
    Sel {
        tag: None,
        id: Some(id.to_owned()),
        class: None,
        attr_present: None,
        attr_eq: None,
        not_hidden: true,
    }
}

/// Builds the runtime query on an element name.
pub fn by_tag(tag: &str) -> (s: Sel)
    ensures
        s@ == sel_tag(tag@),
{
    Sel {
        tag: Some(tag.to_owned()),
        id: None,
        class: None,
        attr_present: None,
        attr_eq: None,
        not_hidden: false,
    }
}

/// Builds the runtime query on an element name with an attribute.
pub fn by_tag_attr(tag: &str, attr: &str) -> (s: Sel)
    ensures
        s@ == sel_tag_attr(tag@, attr@),
{
    Sel {
        tag: Some(tag.to_owned()),
        id: None,
        class: None,
        attr_present: Some(attr.to_owned()),
        attr_eq: None,
        not_hidden: false,
    }
}

/// Builds the runtime query on an element name with an exact
/// attribute value.
pub fn by_tag_attr_eq(tag: &str, attr: &str, value: &str) -> (s: Sel)
    ensures
        s@ == sel_tag_attr_eq(tag@, attr@, value@),
{
    Sel {
        tag: Some(tag.to_owned()),
        id: None,
        class: None,
        attr_present: None,
        attr_eq: Some((attr.to_owned(), value.to_owned())),
        not_hidden: false,
    }
}

/// Builds the runtime query on a `class` token.
pub fn by_class(class: &str) -> (s: Sel)
    ensures
        s@ == sel_class(class@),
{
    Sel {
        tag: None,
        id: None,
        class: Some(class.to_owned()),
        attr_present: None,
        attr_eq: None,
        not_hidden: false,
    }
}

/// Whether the node satisfies the query.
pub open spec fn sel_matches(n: NodeData, sel: SelV) -> bool {
    &&& n.kind is Element
    &&& (sel.tag matches Some(t) ==> n.name@ == t)
    &&& (sel.id matches Some(t) ==> spec_attr(n.attrs@, "id"@) == Some(t))
    &&& (sel.class matches Some(t) ==> {
        &&& spec_attr(n.attrs@, "class"@) is Some
        &&& has_class_token(spec_attr(n.attrs@, "class"@)->0, t)
    })
    &&& (sel.attr_present matches Some(t) ==> spec_attr(n.attrs@, t) is Some)
    &&& (sel.attr_eq matches Some(p) ==> spec_attr(n.attrs@, p.0) == Some(p.1))
    &&& (sel.not_hidden ==> spec_attr(n.attrs@, "hidden"@) is None)
}

/// Runtime token search matching [`has_class_token`].
fn class_token_in(v: &str, tok: &str) -> (r: bool)
    ensures
        r == has_class_token(v@, tok@),
{
    let n = v.unicode_len();
    let m = tok.unicode_len();
    if m > n {
        assert(forall|i: int| !match_at(v@, tok@, i));
        return false;
    }
    if m == 0 {
        let mut i: usize = 0;
        loop
            invariant
                0 <= i <= n,
                n == v@.len(),
                m == tok@.len() == 0,
                forall|j: int| 0 <= j < i ==> !(#[trigger] token_boundary_ok(v@, tok@, j)),
            decreases n - i,
        {
            let start_ok = i == 0 || crate::text::is_space(v.get_char(i - 1));
            let end_ok = i == n || crate::text::is_space(v.get_char(i));
            if start_ok && end_ok {
                proof {
                    assert(v@.subrange(i as int, i as int) =~= tok@);
                    assert(match_at(v@, tok@, i as int));
                    assert(token_boundary_ok(v@, tok@, i as int));
                }
                return true;
            }
            if i == n {
                proof {
                    assert forall|j: int|
                        !(match_at(v@, tok@, j) && #[trigger] token_boundary_ok(v@, tok@, j)) by {
                        if match_at(v@, tok@, j) {
                            assert(0 <= j <= n);
                        }
                    }
                }
                return false;
            }
            i = i + 1;
        }
    }
    let mut i: usize = 0;
    while i <= n - m
        invariant
            0 <= i <= n - m + 1,
            1 <= m <= n,
            n == v@.len(),
            m == tok@.len(),
            forall|j: int|
                0 <= j < i ==> !(match_at(v@, tok@, j) && #[trigger] token_boundary_ok(
                    v@,
                    tok@,
                    j,
                )),
        decreases n - i,
    {
        let start_ok = i == 0 || crate::text::is_space(v.get_char(i - 1));
        let end_ok = i + m == n || crate::text::is_space(v.get_char(i + m));
        if start_ok && end_ok {
            let mut k: usize = 0;
            let mut all_eq = true;
            while k < m
                invariant
                    0 <= k <= m,
                    i + m <= n == v@.len(),
                    m == tok@.len(),
                    all_eq == (forall|t: int| 0 <= t < k ==> v@[i + t] == tok@[t]),
                decreases m - k,
            {
                if v.get_char(i + k) != tok.get_char(k) {
                    all_eq = false;
                    proof {
                        assert(!(forall|t: int| 0 <= t < k + 1 ==> v@[i + t] == tok@[t])) by {
                            assert(v@[i + k] != tok@[k as int]);
                        }
                    }
                } else {
                    proof {
                        if all_eq {
                            assert(forall|t: int| 0 <= t < k + 1 ==> v@[i + t] == tok@[t]);
                        } else {
                            assert(!(forall|t: int| 0 <= t < k ==> v@[i + t] == tok@[t]));
                            let w = choose|t: int| 0 <= t < k && v@[i + t] != tok@[t];
                            assert(!(forall|t: int| 0 <= t < k + 1 ==> v@[i + t] == tok@[t])) by {
                                assert(v@[i + w] != tok@[w]);
                            }
                        }
                    }
                }
                k = k + 1;
            }
            if all_eq {
                proof {
                    assert(v@.subrange(i as int, i + m) =~= tok@);
                    assert(match_at(v@, tok@, i as int));
                    assert(token_boundary_ok(v@, tok@, i as int));
                }
                return true;
            }
            proof {
                assert(v@.subrange(i as int, i + m) != tok@) by {
                    let w = choose|t: int| 0 <= t < m && v@[i + t] != tok@[t];
                    assert(v@.subrange(i as int, i + m)[w] == v@[i + w]);
                }
            }
        }
        i = i + 1;
    }
    proof {
        assert forall|j: int|
            !(match_at(v@, tok@, j) && #[trigger] token_boundary_ok(v@, tok@, j)) by {
            if match_at(v@, tok@, j) {
                assert(0 <= j <= n - m);
            }
        }
    }
    false
}

/// Runtime query test matching [`sel_matches`].
pub fn node_matches(n: &NodeData, sel: &Sel) -> (r: bool)
    ensures
        r == sel_matches(*n, sel@),
{
    let is_elem = match n.kind {
        NodeKind::Element => true,
        _ => false,
    };
    if !is_elem {
        return false;
    }
    match &sel.tag {
        Some(t) => {
            if !crate::text::str_eq(n.name.as_str(), t.as_str()) {
                return false;
            }
        },
        None => {},
    }
    match &sel.id {
        Some(t) => {
            match attr_of(n, "id") {
                Some(v) => {
                    if !crate::text::str_eq(v.as_str(), t.as_str()) {
                        return false;
                    }
                },
                None => {
                    return false;
                },
            }
        },
        None => {},
    }
    match &sel.class {
        Some(t) => {
            match attr_of(n, "class") {
                Some(v) => {
                    if !class_token_in(v.as_str(), t.as_str()) {
                        return false;
                    }
                },
                None => {
                    return false;
                },
            }
        },
        None => {},
    }
    match &sel.attr_present {
        Some(t) => {
            if attr_of(n, t.as_str()).is_none() {
                return false;
            }
        },
        None => {},
    }
    match &sel.attr_eq {
        Some(p) => {
            match attr_of(n, p.0.as_str()) {
                Some(v) => {
                    if !crate::text::str_eq(v.as_str(), p.1.as_str()) {
                        return false;
                    }
                },
                None => {
                    return false;
                },
            }
        },
        None => {},
    }
    if sel.not_hidden {
        if attr_of(n, "hidden").is_some() {
            return false;
        }
    }
    true
}

/// Indices in `lo..hi` whose nodes satisfy the query, in document
/// order.
pub open spec fn selected(ns: Seq<NodeData>, lo: int, hi: int, sel: SelV) -> Seq<usize>
    decreases hi - lo,
{
    if lo >= hi {
        Seq::empty()
    } else {
        selected(ns, lo, hi - 1, sel) + (if sel_matches(ns[hi - 1], sel) {
            seq![(hi - 1) as usize]
        } else {
            Seq::empty()
        })
    }
}

/// Every selected index lies in the range and its node satisfies the
/// query.
pub proof fn lemma_selected_props(ns: Seq<NodeData>, lo: int, hi: int, sel: SelV)
    requires
        0 <= lo,
        hi <= ns.len() <= usize::MAX,
    ensures
        forall|k: int|
            0 <= k < selected(ns, lo, hi, sel).len() ==> lo <= (#[trigger] selected(
                ns,
                lo,
                hi,
                sel,
            )[k]) < hi && sel_matches(ns[selected(ns, lo, hi, sel)[k] as int], sel),
    decreases hi - lo,
{
    if lo < hi {
        lemma_selected_props(ns, lo, hi - 1, sel);
        let s0 = selected(ns, lo, hi - 1, sel);
        let s = selected(ns, lo, hi, sel);
        assert forall|k: int|
            0 <= k < s.len() implies lo <= (s[k]) < hi && sel_matches(
            ns[s[k] as int],
            sel,
        ) by {
            if k < s0.len() {
                assert(s[k] == s0[k]);
            } else {
                assert(s[k] == (hi - 1) as usize);
            }
        }
    }
}

/// Runtime selection matching [`selected`].
pub fn select_range(dom: &Dom, lo: usize, hi: usize, sel: &Sel) -> (r: Vec<usize>)
    requires
        lo <= hi <= dom@.len(),
    ensures
        r@ == selected(dom@, lo as int, hi as int, sel@),
{
    let mut out: Vec<usize> = Vec::new();
    let mut i: usize = lo;
    while i < hi
        invariant
            lo <= i <= hi <= dom@.len(),
            out@ == selected(dom@, lo as int, i as int, sel@),
        decreases hi - i,
    {
        if node_matches(dom.node(i), sel) {
            out.push(i);
            proof {
                assert(out@ =~= selected(dom@, lo as int, i + 1, sel@));
            }
        } else {
            proof {
                assert(out@ =~= selected(dom@, lo as int, i + 1, sel@));
            }
        }
        i = i + 1;
    }
    out
}

/// The top-level nodes of the range `j..hi`: each node followed by the
/// next node after its subtree.
pub open spec fn child_list(ns: Seq<NodeData>, j: int, hi: int) -> Seq<usize>
    decreases hi - j,
{
    if 0 <= j < hi <= ns.len() && j < ns[j].end <= hi {
        seq![j as usize] + child_list(ns, ns[j].end as int, hi)
    } else {
        Seq::empty()
    }
}

/// Every listed index lies in the range.
pub proof fn lemma_child_list_props(ns: Seq<NodeData>, j: int, hi: int)
    ensures
        forall|k: int|
            0 <= k < child_list(ns, j, hi).len() ==> j <= (#[trigger] child_list(ns, j, hi)[k])
                < hi,
    decreases hi - j,
{
    if 0 <= j < hi <= ns.len() && j < ns[j].end <= hi {
        lemma_child_list_props(ns, ns[j].end as int, hi);
        let rest = child_list(ns, ns[j].end as int, hi);
        let s = child_list(ns, j, hi);
        assert forall|k: int| 0 <= k < s.len() implies j <= (#[trigger] s[k]) < hi by {
            if k == 0 {
                assert(s[k] == j as usize);
            } else {
                assert(s[k] == rest[k - 1]);
            }
        }
    }
}

/// Nodes of `lo..hi` point within the range: it is a union of whole
/// subtrees.
pub open spec fn range_closed(ns: Seq<NodeData>, lo: int, hi: int) -> bool {
    forall|j: int| lo <= j < hi ==> (#[trigger] ns[j].end) <= hi
}

/// In a well-formed forest, the descendant range of any node is
/// closed, as is the full range.
pub proof fn lemma_subtree_closed(ns: Seq<NodeData>, i: int)
    requires
        wf_nodes(ns),
        0 <= i < ns.len(),
    ensures
        range_closed(ns, i + 1, ns[i].end as int),
{
}

/// Runtime enumeration of the top-level nodes of a closed range,
/// matching [`child_list`].
pub fn children_of(dom: &Dom, lo: usize, hi: usize) -> (r: Vec<usize>)
    requires
        dom.wf(),
        lo <= hi <= dom@.len(),
        range_closed(dom@, lo as int, hi as int),
    ensures
        r@ == child_list(dom@, lo as int, hi as int),
{
    let mut out: Vec<usize> = Vec::new();
    let mut j: usize = lo;
    while j < hi
        invariant
            lo <= j <= hi <= dom@.len(),
            dom.wf(),
            range_closed(dom@, lo as int, hi as int),
            child_list(dom@, lo as int, hi as int) == out@ + child_list(
                dom@,
                j as int,
                hi as int,
            ),
        decreases hi - j,
    {
        let e = dom.node(j).end;
        out.push(j);
        proof {
            assert(child_list(dom@, j as int, hi as int) == seq![j] + child_list(
                dom@,
                e as int,
                hi as int,
            ));
            assert(out@ + child_list(dom@, e as int, hi as int) =~= out@.drop_last() + (seq![j]
                + child_list(dom@, e as int, hi as int)));
        }
        j = e;
    }
    proof {
        assert(child_list(dom@, j as int, hi as int) =~= Seq::<usize>::empty());
        assert(out@ =~= out@ + child_list(dom@, j as int, hi as int));
    }
    out
}

/// The members of `idxs` whose nodes satisfy the query, in order.
pub open spec fn filtered(ns: Seq<NodeData>, idxs: Seq<usize>, sel: SelV) -> Seq<usize>
    decreases idxs.len(),
{
    if idxs.len() == 0 {
        Seq::empty()
    } else {
        filtered(ns, idxs.drop_last(), sel) + (if sel_matches(ns[idxs.last() as int], sel) {
            seq![idxs.last()]
        } else {
            Seq::empty()
        })
    }
}

/// Runtime filtering matching [`filtered`].
pub fn filter_matching(dom: &Dom, idxs: &Vec<usize>, sel: &Sel) -> (r: Vec<usize>)
    requires
        forall|k: int| 0 <= k < idxs@.len() ==> (#[trigger] idxs@[k]) < dom@.len(),
    ensures
        r@ == filtered(dom@, idxs@, sel@),
{
    let mut out: Vec<usize> = Vec::new();
    let mut i: usize = 0;
    let n = idxs.len();
    while i < n
        invariant
            0 <= i <= n == idxs@.len(),
            forall|k: int| 0 <= k < idxs@.len() ==> (#[trigger] idxs@[k]) < dom@.len(),
            out@ == filtered(dom@, idxs@.take(i as int), sel@),
        decreases n - i,
    {
        proof {
            let pre = idxs@.take(i as int);
            let nxt = idxs@.take(i + 1);
            assert(nxt.drop_last() =~= pre);
            assert(nxt.last() == idxs@[i as int]);
        }
        let j = idxs[i];
        if node_matches(dom.node(j), sel) {
            out.push(j);
            proof {
                assert(out@ =~= filtered(dom@, idxs@.take(i + 1), sel@));
            }
        } else {
            proof {
                assert(out@ =~= filtered(dom@, idxs@.take(i + 1), sel@));
            }
        }
        i = i + 1;
    }
    proof {
        assert(idxs@.take(n as int) =~= idxs@);
    }
    out
}

/// Concatenation of the raw text of every text node in `lo..hi`, in
/// document order.
pub open spec fn texts_range(ns: Seq<NodeData>, lo: int, hi: int) -> Seq<char>
    decreases hi - lo,
{
    if lo >= hi {
        Seq::empty()
    } else {
        texts_range(ns, lo, hi - 1) + (if ns[hi - 1].kind is Text {
            ns[hi - 1].text@
        } else {
            Seq::empty()
        })
    }
}

/// Concatenation of the individually trimmed text of every text node
/// in `lo..hi`, in document order.
pub open spec fn trimmed_texts_range(ns: Seq<NodeData>, lo: int, hi: int) -> Seq<char>
    decreases hi - lo,
{
    if lo >= hi {
        Seq::empty()
    } else {
        trimmed_texts_range(ns, lo, hi - 1) + (if ns[hi - 1].kind is Text {
            trim_spec(ns[hi - 1].text@)
        } else {
            Seq::empty()
        })
    }
}

/// Runtime text collection matching [`texts_range`].
pub fn collect_text(dom: &Dom, lo: usize, hi: usize) -> (r: String)
    requires
        lo <= hi <= dom@.len(),
    ensures
        r@ == texts_range(dom@, lo as int, hi as int),
{
    let mut out = String::new();
    let mut i: usize = lo;
    while i < hi
        invariant
            lo <= i <= hi <= dom@.len(),
            out@ == texts_range(dom@, lo as int, i as int),
        decreases hi - i,
    {
        let nd = dom.node(i);
        let is_text = match nd.kind {
            NodeKind::Text => true,
            _ => false,
        };
        if is_text {
            out.append(nd.text.as_str());
        }
        proof {
            assert(out@ =~= texts_range(dom@, lo as int, i + 1));
        }
        i = i + 1;
    }
    out
}

/// Runtime trimmed-text collection matching [`trimmed_texts_range`].
pub fn collect_text_trimmed(dom: &Dom, lo: usize, hi: usize) -> (r: String)
    requires
        lo <= hi <= dom@.len(),
    ensures
        r@ == trimmed_texts_range(dom@, lo as int, hi as int),
{
    let mut out = String::new();
    let mut i: usize = lo;
    while i < hi
        invariant
            lo <= i <= hi <= dom@.len(),
            out@ == trimmed_texts_range(dom@, lo as int, i as int),
        decreases hi - i,
    {
        let nd = dom.node(i);
        let is_text = match nd.kind {
            NodeKind::Text => true,
            _ => false,
        };
        if is_text {
            let t = crate::text::trim_str(nd.text.as_str());
            out.append(t.as_str());
        }
        proof {
            assert(out@ =~= trimmed_texts_range(dom@, lo as int, i + 1));
        }
        i = i + 1;
    }
    out
}

/// The trimmed, non-empty text fragments of `lo..hi`, in document
/// order.
pub open spec fn text_pieces_range(ns: Seq<NodeData>, lo: int, hi: int) -> Seq<Seq<char>>
    decreases hi - lo,
{
    if lo >= hi {
        Seq::empty()
    } else {
        text_pieces_range(ns, lo, hi - 1) + (if ns[hi - 1].kind is Text && trim_spec(
            ns[hi - 1].text@,
        ).len() > 0 {
            seq![trim_spec(ns[hi - 1].text@)]
        } else {
            Seq::empty()
        })
    }
}

/// The pieces joined with a newline between consecutive pieces.
pub open spec fn join_nl(ps: Seq<Seq<char>>) -> Seq<char>
    decreases ps.len(),
{
    if ps.len() == 0 {
        Seq::empty()
    } else if ps.len() == 1 {
        ps[0]
    } else {
        join_nl(ps.drop_last()) + "\n"@ + ps.last()
    }
}

/// Runtime collection of trimmed non-empty fragments joined by
/// newlines, matching [`join_nl`] over [`text_pieces_range`].
pub fn collect_text_joined(dom: &Dom, lo: usize, hi: usize) -> (r: String)
    requires
        lo <= hi <= dom@.len(),
    ensures
        r@ == join_nl(text_pieces_range(dom@, lo as int, hi as int)),
{
    let mut out = String::new();
    let mut started = false;
    let mut i: usize = lo;
    while i < hi
        invariant
            lo <= i <= hi <= dom@.len(),
            out@ == join_nl(text_pieces_range(dom@, lo as int, i as int)),
            started == (text_pieces_range(dom@, lo as int, i as int).len() > 0),
        decreases hi - i,
    {
        let ghost pre = text_pieces_range(dom@, lo as int, i as int);
        let nd = dom.node(i);
        let is_text = match nd.kind {
            NodeKind::Text => true,
            _ => false,
        };
        if is_text {
            let t = crate::text::trim_str(nd.text.as_str());
            if t.as_str().unicode_len() > 0 {
                proof {
                    let nxt = text_pieces_range(dom@, lo as int, i + 1);
                    assert(nxt =~= pre.push(t@));
                    assert(nxt.drop_last() =~= pre);
                }
                if started {
                    out.append("\n");
                }
                out.append(t.as_str());
                started = true;
            }
        }
        proof {
            assert(out@ =~= join_nl(text_pieces_range(dom@, lo as int, i + 1)));
        }
        i = i + 1;
    }
    out
}

/// Some node of `lo..hi` carries the pattern in its text or in an
/// attribute value.
pub open spec fn node_has(n: NodeData, pat: Seq<char>) -> bool {
    contains_seq(n.text@, pat) || exists|k: int|
        0 <= k < n.attrs@.len() && contains_seq((#[trigger] n.attrs@[k]).1@, pat)
}

/// The pattern occurs somewhere in the range.
pub open spec fn range_has(ns: Seq<NodeData>, lo: int, hi: int, pat: Seq<char>) -> bool {
    exists|j: int| lo <= j < hi && node_has(#[trigger] ns[j], pat)
}

/// Runtime search matching [`range_has`].
pub fn range_contains(dom: &Dom, lo: usize, hi: usize, pat: &str) -> (r: bool)
    requires
        lo <= hi <= dom@.len(),
    ensures
        r == range_has(dom@, lo as int, hi as int, pat@),
{
    let mut i: usize = lo;
    while i < hi
        invariant
            lo <= i <= hi <= dom@.len(),
            forall|j: int| lo <= j < i ==> !node_has(#[trigger] dom@[j], pat@),
        decreases hi - i,
    {
        let nd = dom.node(i);
        if crate::text::contains_str(nd.text.as_str(), pat) {
            proof {
                assert(node_has(dom@[i as int], pat@));
            }
            return true;
        }
        let na = nd.attrs.len();
        let mut k: usize = 0;
        while k < na
            invariant
                0 <= k <= na == nd.attrs@.len(),
                lo <= i < hi <= dom@.len(),
                *nd == dom@[i as int],
                forall|t: int| 0 <= t < k ==> !contains_seq((#[trigger] nd.attrs@[t]).1@, pat@),
            decreases na - k,
        {
            if crate::text::contains_str(nd.attrs[k].1.as_str(), pat) {
                proof {
                    assert(dom@[i as int].attrs@[k as int] == nd.attrs@[k as int]);
                    assert(contains_seq(dom@[i as int].attrs@[k as int].1@, pat@));
                    assert(node_has(dom@[i as int], pat@));
                }
                return true;
            }
            k = k + 1;
        }
        i = i + 1;
    }
    false
}

/// First member of `idxs` whose node is an element.
pub open spec fn first_element_in(ns: Seq<NodeData>, idxs: Seq<usize>) -> Option<usize>
    decreases idxs.len(),
{
    if idxs.len() == 0 {
        None
    } else if ns[idxs[0] as int].kind is Element {
        Some(idxs[0])
    } else {
        first_element_in(ns, idxs.skip(1))
    }
}

/// Runtime search matching [`first_element_in`].
pub fn first_element_of(dom: &Dom, idxs: &Vec<usize>) -> (r: Option<usize>)
    requires
        forall|k: int| 0 <= k < idxs@.len() ==> (#[trigger] idxs@[k]) < dom@.len(),
    ensures
        r == first_element_in(dom@, idxs@),
        r matches Some(j) ==> idxs@.contains(j),
{
    let n = idxs.len();
    proof {
        assert(idxs@.skip(0) =~= idxs@);
    }
    let mut i: usize = 0;
    while i < n
        invariant
            0 <= i <= n == idxs@.len(),
            forall|k: int| 0 <= k < idxs@.len() ==> (#[trigger] idxs@[k]) < dom@.len(),
            first_element_in(dom@, idxs@) == first_element_in(dom@, idxs@.skip(i as int)),
        decreases n - i,
    {
        proof {
            let t = idxs@.skip(i as int);
            assert(t[0] == idxs@[i as int]);
            assert(t.skip(1) =~= idxs@.skip(i + 1));
        }
        let j = idxs[i];
        let is_elem = match dom.node(j).kind {
            NodeKind::Element => true,
            _ => false,
        };
        if is_elem {
            proof {
                assert(idxs@[i as int] == j);
            }
            return Some(j);
        }
        i = i + 1;
    }
    proof {
        assert(idxs@.skip(i as int) =~= Seq::<usize>::empty());
    }
    None
}

} // verus!
