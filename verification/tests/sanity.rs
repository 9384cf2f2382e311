use post_extract::check::{check, percent_pattern_in, visible_text_contains};
use post_extract::dom::{Dom, NodeData, NodeKind};

fn el(name: &str, attrs: &[(&str, &str)], children: Vec<Vec<NodeData>>) -> Vec<NodeData> {
    let mut nodes = vec![NodeData {
        kind: NodeKind::Element,
        name: name.to_string(),
        attrs: attrs.iter().map(|(k, v)| (k.to_string(), v.to_string())).collect(),
        text: String::new(),
        end: 0,
    }];
    for c in children {
        let off = nodes.len();
        for mut n in c {
            n.end += off;
            nodes.push(n);
        }
    }
    let total = nodes.len();
    nodes[0].end = total;
    nodes
}

fn txt(s: &str) -> Vec<NodeData> {
    vec![NodeData {
        kind: NodeKind::Text,
        name: String::new(),
        attrs: Vec::new(),
        text: s.to_string(),
        end: 1,
    }]
}

fn doc(forest: Vec<Vec<NodeData>>) -> Dom {
    let mut nodes = Vec::new();
    for c in forest {
        let off = nodes.len();
        for mut n in c {
            n.end += off;
            nodes.push(n);
        }
    }
    Dom::from_nodes(nodes).expect("well formed")
}

const INDICATOR: &str = "support.google.com/youtube/answer/9706180";

#[test]
fn sound_archive_without_comments_passes() {
    let raw = format!("{INDICATOR} ชอบ ไม่ชอบ");
    let dom = doc(vec![el("body", &[], vec![])]);
    assert!(check(&raw, &dom).is_empty());
}

#[test]
fn sound_archive_with_comments_passes() {
    let raw = "จัดเรียงความคิดเห็น เพิ่มความคิดเห็น ชอบ ไม่ชอบ";
    let dom = doc(vec![el("body", &[], vec![])]);
    assert!(check(raw, &dom).is_empty());
}

#[test]
fn missing_reaction_labels_are_flagged() {
    let raw = format!("{INDICATOR} nothing else");
    let dom = doc(vec![el("body", &[], vec![])]);
    let errs = check(&raw, &dom);
    assert_eq!(errs, vec!["ชอบ".to_string(), "ไม่ชอบ".to_string()]);
}

#[test]
fn comment_phrases_without_comments_are_flagged() {
    // comments disabled, yet the sort-comments phrase is present
    let raw = format!("{INDICATOR} จัดเรียงความคิดเห็น ชอบ ไม่ชอบ");
    let dom = doc(vec![el("body", &[], vec![])]);
    let errs = check(&raw, &dom);
    assert_eq!(errs, vec!["จัดเรียงความคิดเห็น".to_string()]);
}

#[test]
fn visible_unexpanded_phrase_is_flagged() {
    let raw = format!("{INDICATOR} ชอบ ไม่ชอบ");
    let dom = doc(vec![el("body", &[], vec![txt("อ่านเพิ่มเติม")])]);
    let errs = check(&raw, &dom);
    assert_eq!(errs, vec!["อ่านเพิ่มเติม".to_string()]);
}

#[test]
fn hidden_phrases_are_not_visible() {
    let dom = doc(vec![el(
        "body",
        &[],
        vec![
            el("div", &[("hidden", "")], vec![txt("อ่านเพิ่มเติม")]),
            el("div", &[("style", "display: none;")], vec![txt("การตอบกลับ")]),
            el("div", &[], vec![txt("fine")]),
        ],
    )]);
    assert!(!visible_text_contains(&dom, "อ่านเพิ่มเติม"));
    assert!(!visible_text_contains(&dom, "การตอบกลับ"));
    assert!(visible_text_contains(&dom, "fine"));
}

#[test]
fn visible_poll_needs_a_percentage() {
    let raw = format!("{INDICATOR} ชอบ ไม่ชอบ");
    let poll_ok = doc(vec![el(
        "div",
        &[("id", "poll-attachment")],
        vec![txt("Yes 60% No 40%")],
    )]);
    assert!(check(&raw, &poll_ok).is_empty());
    let poll_bad = doc(vec![el(
        "div",
        &[("id", "poll-attachment")],
        vec![txt("Yes 6% No")],
    )]);
    assert_eq!(check(&raw, &poll_bad), vec!["poll-attachment".to_string()]);
    let poll_hidden = doc(vec![el(
        "div",
        &[("id", "poll-attachment"), ("hidden", "")],
        vec![txt("Yes 6% No")],
    )]);
    assert!(check(&raw, &poll_hidden).is_empty());
}

#[test]
fn percent_pattern_needs_two_digits() {
    assert!(percent_pattern_in("at 60% sure"));
    assert!(!percent_pattern_in("at 6% sure"));
    assert!(!percent_pattern_in("60 %"));
    assert!(!percent_pattern_in(""));
}
