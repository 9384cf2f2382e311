//! The content sanity checker: a QA pass over the raw markup and the
//! parsed document that flags suspicious archives without altering
//! extraction.
//!
//! It verifies that the expected UI phrases appear exactly when
//! comments are enabled, that reaction labels are present, that no
//! unexpanded-content phrase is visible (outside hidden regions), and
//! that a visible poll displays a two-digit percentage.

use vstd::prelude::*;
use crate::dom::{
    lemma_selected_props, sel_id_not_hidden, select_range, selected, spec_attr, texts_range,
    collect_text, Dom, NodeData, NodeKind,
};
use crate::extract::disabled_comments_indicator;
use crate::records::strs_view;
use crate::text::{contains_seq, contains_str};
use vstd::string::*;

verus! {

/// An element that current styling hides, together with its subtree.
pub open spec fn is_hidden_node(n: NodeData) -> bool {
    n.kind is Element && (spec_attr(n.attrs@, "hidden"@) is Some || spec_attr(
        n.attrs@,
        "style"@,
    ) == Some("display: none;"@))
}

/// Some strict ancestor of `j` is hidden.
pub open spec fn has_hidden_ancestor(ns: Seq<NodeData>, j: int) -> bool {
    exists|a: int| 0 <= a < j < (#[trigger] ns[a].end) && is_hidden_node(ns[a])
}

/// The phrase occurs in a text node outside every hidden region.
pub open spec fn visible_phrase(ns: Seq<NodeData>, phrase: Seq<char>) -> bool {
    exists|j: int|
        0 <= j < ns.len() && (#[trigger] ns[j]).kind is Text && contains_seq(ns[j].text@, phrase)
            && !has_hidden_ancestor(ns, j)
}

/// Runtime search matching [`visible_phrase`]: a depth-first walk that
/// skips hidden subtrees.
pub fn visible_text_contains(dom: &Dom, phrase: &str) -> (r: bool)
    requires
        dom.wf(),
    ensures
        r == visible_phrase(dom@, phrase@),
{
    let n = dom.len();
    let mut i: usize = 0;
    while i < n
        invariant
            0 <= i <= n == dom@.len(),
            dom.wf(),
            forall|j: int|
                0 <= j < i && (#[trigger] dom@[j]).kind is Text && contains_seq(
                    dom@[j].text@,
                    phrase@,
                ) ==> has_hidden_ancestor(dom@, j),
            forall|a: int| 0 <= a < i < (#[trigger] dom@[a].end) ==> !is_hidden_node(dom@[a]),
        decreases n - i,
    {
        let nd = dom.node(i);
        let is_text = match nd.kind {
            NodeKind::Text => true,
            _ => false,
        };
        if is_text && contains_str(nd.text.as_str(), phrase) {
            proof {
                assert(!has_hidden_ancestor(dom@, i as int));
                assert(visible_phrase(dom@, phrase@));
            }
            return true;
        }
        let is_elem = match nd.kind {
            NodeKind::Element => true,
            _ => false,
        };
        let hidden = is_elem && (crate::dom::attr_of(nd, "hidden").is_some() || match
            crate::dom::attr_of(nd, "style") {
            Some(v) => crate::text::str_eq(v.as_str(), "display: none;"),
            None => false,
        });
        if hidden {
            let e = nd.end;
            proof {
                assert(is_hidden_node(dom@[i as int]));
                assert forall|j: int|
                    i <= j < e && (#[trigger] dom@[j]).kind is Text && contains_seq(
                        dom@[j].text@,
                        phrase@,
                    ) implies has_hidden_ancestor(dom@, j) by {
                    assert(0 <= i < j < dom@[i as int].end);
                }
                assert forall|a: int|
                    0 <= a < e < (#[trigger] dom@[a].end) implies !is_hidden_node(dom@[a]) by {
                    assert(a < i || a == i || i < a);
                    if a < i {
                        assert(a < i < dom@[a].end);
                    } else if i < a {
                        assert(dom@[a].end <= dom@[i as int].end);
                    }
                }
            }
            i = e;
        } else {
            proof {
                assert forall|a: int|
                    0 <= a < i + 1 < (#[trigger] dom@[a].end) implies !is_hidden_node(
                    dom@[a],
                ) by {
                    if a < i {
                        assert(a < i < dom@[a].end);
                    }
                }
            }
            i = i + 1;
        }
    }
    proof {
        assert(!visible_phrase(dom@, phrase@));
    }
    false
}

/// A two-digit percentage display occurs in `s`.
pub open spec fn has_percent_pattern(s: Seq<char>) -> bool {
    exists|i: int|
        0 <= i && i + 2 < s.len() && crate::count::is_digit_char(#[trigger] s[i])
            && crate::count::is_digit_char(s[i + 1]) && s[i + 2] == '%'
}

/// Runtime search matching [`has_percent_pattern`].
pub fn percent_pattern_in(s: &str) -> (r: bool)
    ensures
        r == has_percent_pattern(s@),
{
    let n = s.unicode_len();
    if n < 3 {
        return false;
    }
    let mut i: usize = 0;
    while i + 2 < n
        invariant
            0 <= i,
            i + 2 <= n == s@.len(),
            forall|j: int|
                0 <= j < i ==> !(crate::count::is_digit_char(#[trigger] s@[j])
                    && crate::count::is_digit_char(s@[j + 1]) && s@[j + 2] == '%'),
        decreases n - i,
    {
        let a = s.get_char(i) as u32;
        let b = s.get_char(i + 1) as u32;
        let c = s.get_char(i + 2);
        if 48 <= a && a <= 57 && 48 <= b && b <= 57 && c == '%' {
            return true;
        }
        i = i + 1;
    }
    false
}

/// The tokens the sanity check flags, in order: each expected phrase
/// that is present or absent against expectation, each
/// unexpanded-content phrase that is visible, and a visible poll
/// without a percentage display.
pub open spec fn spec_check(raw: Seq<char>, ns: Seq<NodeData>) -> Seq<Seq<char>> {
    let enabled = !contains_seq(raw, disabled_comments_indicator());
    let sort_phrase =
        "\u{e08}\u{e31}\u{e14}\u{e40}\u{e23}\u{e35}\u{e22}\u{e07}\u{e04}\u{e27}\u{e32}\u{e21}\u{e04}\u{e34}\u{e14}\u{e40}\u{e2b}\u{e47}\u{e19}"@;
    let add_phrase =
        "\u{e40}\u{e1e}\u{e34}\u{e48}\u{e21}\u{e04}\u{e27}\u{e32}\u{e21}\u{e04}\u{e34}\u{e14}\u{e40}\u{e2b}\u{e47}\u{e19}"@;
    let like_phrase = "\u{e0a}\u{e2d}\u{e1a}"@;
    let dislike_phrase = "\u{e44}\u{e21}\u{e48}\u{e0a}\u{e2d}\u{e1a}"@;
    let more_replies =
        "\u{e41}\u{e2a}\u{e14}\u{e07}\u{e01}\u{e32}\u{e23}\u{e15}\u{e2d}\u{e1a}\u{e01}\u{e25}\u{e31}\u{e1a}\u{e40}\u{e1e}\u{e34}\u{e48}\u{e21}\u{e40}\u{e15}\u{e34}\u{e21}"@;
    let read_more = "\u{e2d}\u{e48}\u{e32}\u{e19}\u{e40}\u{e1e}\u{e34}\u{e48}\u{e21}\u{e40}\u{e15}\u{e34}\u{e21}"@;
    let replies_phrase = "\u{e01}\u{e32}\u{e23}\u{e15}\u{e2d}\u{e1a}\u{e01}\u{e25}\u{e31}\u{e1a}"@;
    let polls = selected(ns, 0, ns.len() as int, sel_id_not_hidden("poll-attachment"@));
    (if enabled != contains_seq(raw, sort_phrase) {
        seq![sort_phrase]
    } else {
        Seq::empty()
    }) + (if enabled != contains_seq(raw, add_phrase) {
        seq![add_phrase]
    } else {
        Seq::empty()
    }) + (if !contains_seq(raw, like_phrase) {
        seq![like_phrase]
    } else {
        Seq::empty()
    }) + (if !contains_seq(raw, dislike_phrase) {
        seq![dislike_phrase]
    } else {
        Seq::empty()
    }) + (if visible_phrase(ns, more_replies) {
        seq![more_replies]
    } else {
        Seq::empty()
    }) + (if visible_phrase(ns, read_more) {
        seq![read_more]
    } else {
        Seq::empty()
    }) + (if visible_phrase(ns, replies_phrase) {
        seq![replies_phrase]
    } else {
        Seq::empty()
    }) + (if polls.len() > 1 || (polls.len() == 1 && !has_percent_pattern(
        texts_range(ns, polls[0] + 1, ns[polls[0] as int].end as int),
    )) {
        seq!["poll-attachment"@]
    } else {
        Seq::empty()
    })
}

/// Runs the sanity check, matching [`spec_check`]; an empty result
/// means the archive looks sound.
#[verifier::rlimit(100)]
pub fn check(raw: &str, dom: &Dom) -> (r: Vec<String>)
    requires
        dom.wf(),
    ensures
        strs_view(r@) == spec_check(raw@, dom@),
{
    let mut out: Vec<String> = Vec::new();
    let enabled = !contains_str(raw, "support.google.com/youtube/answer/9706180");
    let sort_phrase =
        "\u{e08}\u{e31}\u{e14}\u{e40}\u{e23}\u{e35}\u{e22}\u{e07}\u{e04}\u{e27}\u{e32}\u{e21}\u{e04}\u{e34}\u{e14}\u{e40}\u{e2b}\u{e47}\u{e19}";
    let add_phrase =
        "\u{e40}\u{e1e}\u{e34}\u{e48}\u{e21}\u{e04}\u{e27}\u{e32}\u{e21}\u{e04}\u{e34}\u{e14}\u{e40}\u{e2b}\u{e47}\u{e19}";
    let like_phrase = "\u{e0a}\u{e2d}\u{e1a}";
    let dislike_phrase = "\u{e44}\u{e21}\u{e48}\u{e0a}\u{e2d}\u{e1a}";
    let more_replies =
        "\u{e41}\u{e2a}\u{e14}\u{e07}\u{e01}\u{e32}\u{e23}\u{e15}\u{e2d}\u{e1a}\u{e01}\u{e25}\u{e31}\u{e1a}\u{e40}\u{e1e}\u{e34}\u{e48}\u{e21}\u{e40}\u{e15}\u{e34}\u{e21}";
    let read_more = "\u{e2d}\u{e48}\u{e32}\u{e19}\u{e40}\u{e1e}\u{e34}\u{e48}\u{e21}\u{e40}\u{e15}\u{e34}\u{e21}";
    let replies_phrase = "\u{e01}\u{e32}\u{e23}\u{e15}\u{e2d}\u{e1a}\u{e01}\u{e25}\u{e31}\u{e1a}";
    let ghost mut parts: Seq<Seq<char>> = Seq::empty();
    if enabled != contains_str(raw, sort_phrase) {
        out.push(sort_phrase.to_owned());
    }
    proof {
        parts = parts + (if !contains_seq(raw@, disabled_comments_indicator()) != contains_seq(
            raw@,
            sort_phrase@,
        ) {
            seq![sort_phrase@]
        } else {
            Seq::empty()
        });
        assert(strs_view(out@) =~= parts);
    }
    if enabled != contains_str(raw, add_phrase) {
        out.push(add_phrase.to_owned());
    }
    proof {
        parts = parts + (if !contains_seq(raw@, disabled_comments_indicator()) != contains_seq(
            raw@,
            add_phrase@,
        ) {
            seq![add_phrase@]
        } else {
            Seq::empty()
        });
        assert(strs_view(out@) =~= parts);
    }
    if !contains_str(raw, like_phrase) {
        out.push(like_phrase.to_owned());
    }
    proof {
        parts = parts + (if !contains_seq(raw@, like_phrase@) {
            seq![like_phrase@]
        } else {
            Seq::empty()
        });
        assert(strs_view(out@) =~= parts);
    }
    if !contains_str(raw, dislike_phrase) {
        out.push(dislike_phrase.to_owned());
    }
    proof {
        parts = parts + (if !contains_seq(raw@, dislike_phrase@) {
            seq![dislike_phrase@]
        } else {
            Seq::empty()
        });
        assert(strs_view(out@) =~= parts);
    }
    if visible_text_contains(dom, more_replies) {
        out.push(more_replies.to_owned());
    }
    proof {
        parts = parts + (if visible_phrase(dom@, more_replies@) {
            seq![more_replies@]
        } else {
            Seq::empty()
        });
        assert(strs_view(out@) =~= parts);
    }
    if visible_text_contains(dom, read_more) {
        out.push(read_more.to_owned());
    }
    proof {
        parts = parts + (if visible_phrase(dom@, read_more@) {
            seq![read_more@]
        } else {
            Seq::empty()
        });
        assert(strs_view(out@) =~= parts);
    }
    if visible_text_contains(dom, replies_phrase) {
        out.push(replies_phrase.to_owned());
    }
    proof {
        parts = parts + (if visible_phrase(dom@, replies_phrase@) {
            seq![replies_phrase@]
        } else {
            Seq::empty()
        });
        assert(strs_view(out@) =~= parts);
    }
    let total = dom.len();
    let p_sel = crate::dom::by_id_not_hidden("poll-attachment");
    let polls = select_range(dom, 0, total, &p_sel);
    let poll_bad = if polls.len() > 1 {
        true
    } else if polls.len() == 1 {
        proof {
            assert(dom@.len() == total <= usize::MAX);
            lemma_selected_props(dom@, 0, total as int, p_sel@);
        }
        let p = polls[0];
        let e = dom.node(p).end;
        let t = collect_text(dom, p + 1, e);
        !percent_pattern_in(t.as_str())
    } else {
        false
    };
    if poll_bad {
        out.push(String::from_str("poll-attachment"));
    }
    proof {
        let ghost polls = selected(dom@, 0, dom@.len() as int, sel_id_not_hidden(
            "poll-attachment"@,
        ));
        parts = parts + (if polls.len() > 1 || (polls.len() == 1 && !has_percent_pattern(
            texts_range(dom@, polls[0] + 1, dom@[polls[0] as int].end as int),
        )) {
            seq!["poll-attachment"@]
        } else {
            Seq::empty()
        });
        assert(strs_view(out@) =~= parts);
        assert(parts =~= spec_check(raw@, dom@));
    }
    out
}

} // verus!
