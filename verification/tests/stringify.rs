use post_extract::content::stringify_content_item;
use post_extract::dom::{Dom, NodeData, NodeKind};
use post_extract::emote::EmoteResolver;
use post_extract::extract::parse_comment;
use post_extract::records::ErrorKind;

fn el(name: &str, attrs: &[(&str, &str)], children: Vec<Vec<NodeData>>) -> Vec<NodeData> {
    let mut nodes = vec![NodeData {
        kind: NodeKind::Element,
        name: name.to_string(),
        attrs: attrs.iter().map(|(k, v)| (k.to_string(), v.to_string())).collect(),
        text: String::new(),
        end: 0,
    }];
    for c in children {
        let off = nodes.len();
        for mut n in c {
            n.end += off;
            nodes.push(n);
        }
    }
    let total = nodes.len();
    nodes[0].end = total;
    nodes
}

fn txt(s: &str) -> Vec<NodeData> {
    vec![NodeData {
        kind: NodeKind::Text,
        name: String::new(),
        attrs: Vec::new(),
        text: s.to_string(),
        end: 1,
    }]
}

fn single(nodes: Vec<NodeData>) -> Dom {
    Dom::from_nodes(nodes).expect("well formed")
}

fn resolver() -> EmoteResolver {
    EmoteResolver::with_mapping(Vec::new())
}

#[test]
fn bold_span_is_wrapped() {
    let dom = single(el("span", &[("style", "font-weight: 500; color: red")], vec![txt("Hi")]));
    let (s, miss) = stringify_content_item(&dom, 0, &resolver()).unwrap();
    assert_eq!(s, "<b>Hi</b>");
    assert!(!miss);
}

#[test]
fn plain_span_is_trimmed_verbatim() {
    let dom = single(el("span", &[], vec![txt("  Hi there  ")]));
    let (s, _) = stringify_content_item(&dom, 0, &resolver()).unwrap();
    assert_eq!(s, "Hi there");
}

#[test]
fn plain_text_node_is_trimmed() {
    let dom = single(txt("  chunk  "));
    let (s, _) = stringify_content_item(&dom, 0, &resolver()).unwrap();
    assert_eq!(s, "chunk");
}

#[test]
fn span_wrapping_anchor_becomes_link_tag() {
    let dom = single(el(
        "span",
        &[],
        vec![el("a", &[("href", "/x")], vec![txt("go")])],
    ));
    let (s, _) = stringify_content_item(&dom, 0, &resolver()).unwrap();
    assert_eq!(s, "<a href=\"/x\">go</a>");
}

#[test]
fn span_wrapping_emote_resolves() {
    let dom = single(el(
        "span",
        &[],
        vec![el("img", &[("src", "https://x/emoji_u1f499.png")], vec![])],
    ));
    let (s, miss) = stringify_content_item(&dom, 0, &resolver()).unwrap();
    assert_eq!(s, "\u{1f499}");
    assert!(!miss);
}

#[test]
fn unresolved_emote_degrades_to_placeholder() {
    let dom = single(el(
        "span",
        &[],
        vec![el("img", &[("src", "https://host/zzz=s16")], vec![])],
    ));
    let (s, miss) = stringify_content_item(&dom, 0, &resolver()).unwrap();
    assert_eq!(s, "<img src=\"https://host/zzz=s16\">");
    assert!(miss);
}

#[test]
fn non_span_element_is_unrecognized() {
    let dom = single(el("div", &[], vec![txt("x")]));
    assert_eq!(
        stringify_content_item(&dom, 0, &resolver()).unwrap_err(),
        ErrorKind::UnrecognizedInline
    );
}

#[test]
fn empty_span_without_element_child_is_unrecognized() {
    let dom = single(el("span", &[], vec![txt("   ")]));
    assert_eq!(
        stringify_content_item(&dom, 0, &resolver()).unwrap_err(),
        ErrorKind::UnrecognizedInline
    );
}

#[test]
fn span_wrapping_unknown_element_is_unrecognized() {
    let dom = single(el("span", &[], vec![el("video", &[("src", "v")], vec![])]));
    assert_eq!(
        stringify_content_item(&dom, 0, &resolver()).unwrap_err(),
        ErrorKind::UnrecognizedInline
    );
}

#[test]
fn comment_content_concatenates_fragments_in_order() {
    let content_children = vec![
        txt(" see "),
        el("span", &[("style", "font-weight: 500")], vec![txt("this")]),
        el("span", &[], vec![el("a", &[("href", "/x")], vec![txt("go")])]),
    ];
    let comment = el(
        "div",
        &[("id", "c")],
        vec![
            el("span", &[("id", "author-text")], vec![txt("Bob")]),
            el("span", &[("id", "published-time-text")], vec![txt("1d")]),
            el("span", &[("id", "vote-count-middle")], vec![txt("3")]),
            el(
                "div",
                &[("id", "content-text")],
                vec![el("span", &[], content_children)],
            ),
        ],
    );
    let dom = Dom::from_nodes(comment).unwrap();
    let (c, miss) = parse_comment(&dom, 0, &resolver()).unwrap();
    assert_eq!(c.content, "see<b>this</b><a href=\"/x\">go</a>");
    assert!(!miss);
}
