use post_extract::dom::{Dom, NodeData, NodeKind};
use post_extract::emote::EmoteResolver;
use post_extract::extract::{parse, parse_comment, parse_main};
use post_extract::records::{ErrorKind, Main, Post};

fn el(name: &str, attrs: &[(&str, &str)], children: Vec<Vec<NodeData>>) -> Vec<NodeData> {
    let mut nodes = vec![NodeData {
        kind: NodeKind::Element,
        name: name.to_string(),
        attrs: attrs.iter().map(|(k, v)| (k.to_string(), v.to_string())).collect(),
        text: String::new(),
        end: 0,
    }];
    for c in children {
        let off = nodes.len();
        for mut n in c {
            n.end += off;
            nodes.push(n);
        }
    }
    let total = nodes.len();
    nodes[0].end = total;
    nodes
}

fn txt(s: &str) -> Vec<NodeData> {
    vec![NodeData {
        kind: NodeKind::Text,
        name: String::new(),
        attrs: Vec::new(),
        text: s.to_string(),
        end: 1,
    }]
}

fn doc(forest: Vec<Vec<NodeData>>) -> Dom {
    let mut nodes = Vec::new();
    for c in forest {
        let off = nodes.len();
        for mut n in c {
            n.end += off;
            nodes.push(n);
        }
    }
    Dom::from_nodes(nodes).expect("forest should be well formed")
}

fn resolver() -> EmoteResolver {
    EmoteResolver::with_mapping(Vec::new())
}

const INDICATOR: &str = "https://support.google.com/youtube/answer/9706180";

fn minimal_main() -> Vec<NodeData> {
    el(
        "div",
        &[("id", "post")],
        vec![el(
            "div",
            &[],
            vec![el(
                "div",
                &[("id", "body")],
                vec![el(
                    "div",
                    &[("id", "main")],
                    vec![
                        el("span", &[("id", "author-text")], vec![txt(" A ")]),
                        el("span", &[("id", "published-time-text")], vec![txt("now")]),
                        el("div", &[("id", "content")], vec![txt("hi")]),
                        el("span", &[("id", "vote-count-middle")], vec![txt("0")]),
                    ],
                )],
            )],
        )],
    )
}

fn post_item(with_indicator: bool) -> Vec<NodeData> {
    let mut children = vec![minimal_main()];
    if with_indicator {
        children.insert(0, el("a", &[("href", INDICATOR)], vec![]));
    }
    el("ytd-backstage-post-thread", &[], children)
}

fn doc_without_comments() -> Dom {
    doc(vec![el(
        "body",
        &[],
        vec![el("div", &[("id", "contents")], vec![post_item(true)])],
    )])
}

fn comment_el(author: &str, like: &str, content_children: Vec<Vec<NodeData>>) -> Vec<NodeData> {
    el(
        "div",
        &[("id", "comment-body")],
        vec![
            el("span", &[("id", "author-text")], vec![txt(author)]),
            el("span", &[("id", "published-time-text")], vec![txt("1d")]),
            el("span", &[("id", "vote-count-middle")], vec![txt(like)]),
            el(
                "div",
                &[("id", "content-text")],
                vec![el("span", &[], content_children)],
            ),
        ],
    )
}

#[test]
fn end_to_end_minimal_document_without_comments() {
    let dom = doc_without_comments();
    let (post, miss) = parse(&dom, "p1".to_string(), &resolver()).expect("should extract");
    let expected = Post {
        id: "p1".to_string(),
        main: Main {
            author: "A".to_string(),
            publish_time: "now".to_string(),
            sponsor_only: None,
            content: "hi".to_string(),
            content_attachment: None,
            poll_attachment: None,
            like: 0,
        },
        comments: None,
        total_comment: None,
    };
    assert_eq!(post, expected);
    assert!(!miss);
}

#[test]
fn extraction_is_idempotent() {
    let dom = doc_without_comments();
    let r1 = parse(&dom, "p1".to_string(), &resolver()).expect("first run");
    let r2 = parse(&dom, "p1".to_string(), &resolver()).expect("second run");
    assert_eq!(r1, r2);
}

#[test]
fn missing_comments_without_indicator_fails() {
    let dom = doc(vec![el(
        "body",
        &[],
        vec![el("div", &[("id", "contents")], vec![post_item(false)])],
    )]);
    let err = parse(&dom, "p2".to_string(), &resolver()).unwrap_err();
    assert_eq!(err.post_id, "p2");
    assert_eq!(err.kind, ErrorKind::IndicatorMissing);
}

#[test]
fn empty_document_is_missing_top_items() {
    let dom = doc(vec![]);
    let err = parse(&dom, "p3".to_string(), &resolver()).unwrap_err();
    assert!(matches!(err.kind, ErrorKind::Missing { .. }));
}

#[test]
fn three_top_items_violate_the_contract() {
    let dom = doc(vec![el(
        "body",
        &[],
        vec![el(
            "div",
            &[("id", "contents")],
            vec![post_item(true), el("ytd-comments", &[], vec![]), el("div", &[], vec![])],
        )],
    )]);
    let err = parse(&dom, "p4".to_string(), &resolver()).unwrap_err();
    assert!(matches!(err.kind, ErrorKind::MoreThanOne { .. }));
}

#[test]
fn second_item_must_be_the_comments_region() {
    let dom = doc(vec![el(
        "body",
        &[],
        vec![el(
            "div",
            &[("id", "contents")],
            vec![post_item(true), el("div", &[], vec![])],
        )],
    )]);
    let err = parse(&dom, "p5".to_string(), &resolver()).unwrap_err();
    assert_eq!(err.kind, ErrorKind::UnexpectedName { found: "div".to_string() });
}

#[test]
fn comments_are_extracted_with_declared_count() {
    let thread = el(
        "ytd-comment-thread-renderer",
        &[],
        vec![
            el("div", &[("id", "comment")], vec![comment_el("Bob", "3", vec![txt("nice")])]),
            el(
                "div",
                &[("id", "replies")],
                vec![el(
                    "div",
                    &[("id", "contents")],
                    vec![el(
                        "ytd-comment-renderer",
                        &[],
                        vec![comment_el("Eve", "", vec![txt("reply")])],
                    )],
                )],
            ),
        ],
    );
    let comments = el(
        "ytd-comments",
        &[],
        vec![
            el("div", &[("id", "count")], vec![txt("Comments"), txt("5")]),
            el("div", &[("id", "contents")], vec![thread]),
        ],
    );
    let dom = doc(vec![el(
        "body",
        &[],
        vec![el("div", &[("id", "contents")], vec![post_item(false), comments])],
    )]);
    let (post, miss) = parse(&dom, "p6".to_string(), &resolver()).expect("should extract");
    assert!(!miss);
    assert_eq!(post.total_comment, Some(5));
    let threads = post.comments.expect("comments present");
    assert_eq!(threads.len(), 1);
    assert_eq!(threads[0].comment.author, "Bob");
    assert_eq!(threads[0].comment.content, "nice");
    assert_eq!(threads[0].comment.like, 3);
    let replies = threads[0].replies.as_ref().expect("replies visible");
    assert_eq!(replies.len(), 1);
    assert_eq!(replies[0].author, "Eve");
    assert_eq!(replies[0].like, 0);
    // declared count bounds the visible threads
    assert!(post.total_comment.unwrap() as usize >= threads.len());
}

#[test]
fn hidden_replies_region_means_absent_replies() {
    let thread = el(
        "ytd-comment-thread-renderer",
        &[],
        vec![
            el("div", &[("id", "comment")], vec![comment_el("Bob", "3", vec![txt("hi")])]),
            el("div", &[("id", "replies"), ("hidden", "")], vec![]),
        ],
    );
    let comments = el(
        "ytd-comments",
        &[],
        vec![
            el("div", &[("id", "count")], vec![txt("1")]),
            el("div", &[("id", "contents")], vec![thread]),
        ],
    );
    let dom = doc(vec![el(
        "body",
        &[],
        vec![el("div", &[("id", "contents")], vec![post_item(false), comments])],
    )]);
    let (post, _) = parse(&dom, "p7".to_string(), &resolver()).expect("should extract");
    assert_eq!(post.comments.unwrap()[0].replies, None);
}

#[test]
fn declared_count_below_visible_threads_fails() {
    let thread = el(
        "ytd-comment-thread-renderer",
        &[],
        vec![el("div", &[("id", "comment")], vec![comment_el("Bob", "3", vec![txt("x")])])],
    );
    let comments = el(
        "ytd-comments",
        &[],
        vec![
            el("div", &[("id", "count")], vec![txt("0")]),
            el("div", &[("id", "contents")], vec![thread]),
        ],
    );
    let dom = doc(vec![el(
        "body",
        &[],
        vec![el("div", &[("id", "contents")], vec![post_item(false), comments])],
    )]);
    let err = parse(&dom, "p8".to_string(), &resolver()).unwrap_err();
    assert_eq!(err.kind, ErrorKind::CountBelowThreads { declared: 0, visible: 1 });
}

#[test]
fn comment_count_must_carry_a_numeric_fragment() {
    let comments = el(
        "ytd-comments",
        &[],
        vec![
            el("div", &[("id", "count")], vec![txt("no number here")]),
            el("div", &[("id", "contents")], vec![]),
        ],
    );
    let dom = doc(vec![el(
        "body",
        &[],
        vec![el("div", &[("id", "contents")], vec![post_item(false), comments])],
    )]);
    let err = parse(&dom, "p9".to_string(), &resolver()).unwrap_err();
    assert!(matches!(err.kind, ErrorKind::LocaleParse { .. }));
}

#[test]
fn two_authors_violate_exactly_one() {
    let dom = Dom::from_nodes(doc_nodes_with_two_authors()).unwrap();
    let err = parse_main(&dom, 0).unwrap_err();
    assert_eq!(
        err,
        ErrorKind::NotExactlyOne { query: "author-text".to_string(), found: 2 }
    );
}

fn doc_nodes_with_two_authors() -> Vec<NodeData> {
    el(
        "div",
        &[("id", "main")],
        vec![
            el("span", &[("id", "author-text")], vec![txt("A")]),
            el("span", &[("id", "author-text")], vec![txt("B")]),
        ],
    )
}

#[test]
fn unparsable_like_count_fails() {
    let dom = doc(vec![el(
        "div",
        &[("id", "main")],
        vec![
            el("span", &[("id", "author-text")], vec![txt("A")]),
            el("span", &[("id", "published-time-text")], vec![txt("now")]),
            el("div", &[("id", "content")], vec![txt("hi")]),
            el("span", &[("id", "vote-count-middle")], vec![txt("abc")]),
        ],
    )]);
    let err = parse_main(&dom, 0).unwrap_err();
    assert_eq!(err, ErrorKind::LocaleParse { text: "abc".to_string() });
}

#[test]
fn sponsor_only_badge_collapses_blank_to_absent() {
    let dom = doc(vec![el(
        "div",
        &[("id", "main")],
        vec![
            el("span", &[("id", "author-text")], vec![txt("A")]),
            el("span", &[("id", "published-time-text")], vec![txt("now")]),
            el(
                "div",
                &[("id", "sponsors-only-badge")],
                vec![txt("  "), txt(" Members "), txt("only")],
            ),
            el("div", &[("id", "content")], vec![txt("hi")]),
            el("span", &[("id", "vote-count-middle")], vec![txt("1")]),
        ],
    )]);
    let main = parse_main(&dom, 0).unwrap();
    assert_eq!(main.sponsor_only, Some("Members\nonly".to_string()));

    let dom2 = doc(vec![el(
        "div",
        &[("id", "main")],
        vec![
            el("span", &[("id", "author-text")], vec![txt("A")]),
            el("span", &[("id", "published-time-text")], vec![txt("now")]),
            el("div", &[("id", "sponsors-only-badge")], vec![txt("   ")]),
            el("div", &[("id", "content")], vec![txt("hi")]),
            el("span", &[("id", "vote-count-middle")], vec![txt("1")]),
        ],
    )]);
    assert_eq!(parse_main(&dom2, 0).unwrap().sponsor_only, None);
}

#[test]
fn content_attachment_partitions_links() {
    let dom = doc(vec![el(
        "div",
        &[("id", "main")],
        vec![
            el("span", &[("id", "author-text")], vec![txt("A")]),
            el("span", &[("id", "published-time-text")], vec![txt("now")]),
            el("div", &[("id", "content")], vec![txt("hi")]),
            el(
                "div",
                &[("id", "content-attachment")],
                vec![
                    el("img", &[("src", "a.jpg")], vec![]),
                    el("img", &[("src", "b.jpg")], vec![]),
                    el("a", &[("href", "https://youtube.com/watch?v=1")], vec![]),
                    el("a", &[("href", "https://youtube.com/watch?v=1")], vec![]),
                    el("a", &[("href", "https://youtube.com/@chan")], vec![]),
                    el("a", &[("href", "https://example.com/page")], vec![]),
                ],
            ),
            el("span", &[("id", "vote-count-middle")], vec![txt("2")]),
        ],
    )]);
    let main = parse_main(&dom, 0).unwrap();
    let att = main.content_attachment.expect("attachment present");
    assert_eq!(att.images, vec!["a.jpg".to_string(), "b.jpg".to_string()]);
    assert_eq!(att.videos, vec!["https://youtube.com/watch?v=1".to_string()]);
    assert_eq!(att.unknown, vec!["https://example.com/page".to_string()]);
}

#[test]
fn hidden_content_attachment_is_absent() {
    let dom = doc(vec![el(
        "div",
        &[("id", "main")],
        vec![
            el("span", &[("id", "author-text")], vec![txt("A")]),
            el("span", &[("id", "published-time-text")], vec![txt("now")]),
            el("div", &[("id", "content")], vec![txt("hi")]),
            el(
                "div",
                &[("id", "content-attachment"), ("hidden", "")],
                vec![el("img", &[("src", "a.jpg")], vec![])],
            ),
            el("span", &[("id", "vote-count-middle")], vec![txt("2")]),
        ],
    )]);
    assert_eq!(parse_main(&dom, 0).unwrap().content_attachment, None);
}

#[test]
fn poll_attachment_is_extracted() {
    let option = |text: &str, pct: &str| {
        el(
            "a",
            &[("role", "option")],
            vec![el(
                "div",
                &[("class", "choice-info extra")],
                vec![
                    el("span", &[("class", "choice-text")], vec![txt(text)]),
                    el("span", &[("class", "vote-percentage")], vec![txt(pct)]),
                ],
            )],
        )
    };
    let dom = doc(vec![el(
        "div",
        &[("id", "main")],
        vec![
            el("span", &[("id", "author-text")], vec![txt("A")]),
            el("span", &[("id", "published-time-text")], vec![txt("now")]),
            el("div", &[("id", "content")], vec![txt("hi")]),
            el(
                "div",
                &[("id", "poll-attachment")],
                vec![
                    el(
                        "div",
                        &[("id", "vote-info")],
                        vec![txt("1.5\u{e1e}\u{e31}\u{e19} \u{e04}\u{e30}\u{e41}\u{e19}\u{e19}")],
                    ),
                    option("Yes", "60%"),
                    option("No", "40%"),
                ],
            ),
            el("span", &[("id", "vote-count-middle")], vec![txt("2")]),
        ],
    )]);
    let main = parse_main(&dom, 0).unwrap();
    let poll = main.poll_attachment.expect("poll present");
    assert_eq!(poll.total_votes, 1500);
    assert_eq!(poll.items.len(), 2);
    assert_eq!(poll.items[0].text, "Yes");
    assert_eq!(poll.items[0].percentage, "60%");
    assert_eq!(poll.items[1].text, "No");
    assert_eq!(poll.items[1].percentage, "40%");
}

#[test]
fn comment_sponsor_metadata_is_extracted() {
    let mut nodes = comment_el("Bob", "3", vec![txt("x")]);
    // splice a sponsor badge region into the comment
    let badge = el(
        "div",
        &[("id", "sponsor-comment-badge")],
        vec![el(
            "ytd-sponsor-comment-badge-renderer",
            &[("aria-label", "2 months")],
            vec![el("img", &[("src", "badge.png")], vec![])],
        )],
    );
    let off = nodes.len();
    for mut n in badge {
        n.end += off;
        nodes.push(n);
    }
    nodes[0].end = nodes.len();
    let dom = Dom::from_nodes(nodes).unwrap();
    let (c, _) = parse_comment(&dom, 0, &resolver()).unwrap();
    assert_eq!(c.sponsor_duration, Some("2 months".to_string()));
    assert_eq!(c.sponsor_badge, Some("badge.png".to_string()));
}

#[test]
fn sponsor_badge_requires_accessibility_label() {
    let mut nodes = comment_el("Bob", "3", vec![txt("x")]);
    let badge = el(
        "div",
        &[("id", "sponsor-comment-badge")],
        vec![el("ytd-sponsor-comment-badge-renderer", &[], vec![])],
    );
    let off = nodes.len();
    for mut n in badge {
        n.end += off;
        nodes.push(n);
    }
    nodes[0].end = nodes.len();
    let dom = Dom::from_nodes(nodes).unwrap();
    let err = parse_comment(&dom, 0, &resolver()).unwrap_err();
    assert_eq!(err, ErrorKind::MissingAttr { attr: "aria-label".to_string() });
}

#[test]
fn malformed_node_array_is_rejected() {
    let nodes = vec![NodeData {
        kind: NodeKind::Element,
        name: "div".to_string(),
        attrs: Vec::new(),
        text: String::new(),
        end: 5,
    }];
    assert!(Dom::from_nodes(nodes).is_none());
}
