use cardbrick::markup::{extract_text, kind_of, spans_from_markup, MarkupNode, TagKind};

fn el(name: &str, children: Vec<MarkupNode>) -> MarkupNode {
    MarkupNode::Element { name: name.to_string(), children }
}

fn text(t: &str) -> MarkupNode {
    MarkupNode::Text(t.to_string())
}

#[test]
fn bold_and_plain_text() {
    let spans = spans_from_markup(&vec![el("b", vec![text("bold")]), text(" text")]);
    assert_eq!(spans.len(), 2);
    assert_eq!(spans[0].text, "bold");
    assert!(spans[0].is_bold);
    assert_eq!(spans[1].text, " text");
    assert!(!spans[1].is_bold);
}

#[test]
fn heading_is_bold_block_and_ends_with_newline() {
    let spans = spans_from_markup(&vec![el("h2", vec![el("i", vec![text("Title")])]), text("after")]);
    assert_eq!(spans.len(), 3);
    assert!(spans[0].is_bold && spans[0].is_italic && spans[0].new_text_block);
    assert_eq!(spans[1].text, "\n");
    assert!(!spans[1].is_bold);
    assert_eq!(spans[2].text, "after");
}

#[test]
fn ruby_gives_one_base_span_with_reading() {
    let spans = spans_from_markup(&vec![el("ruby", vec![el("rb", vec![text("度")]), el("rt", vec![text("たく")])])]);
    assert_eq!(spans.len(), 1);
    assert_eq!(spans[0].text, "度");
    assert_eq!(spans[0].ruby_text.as_deref(), Some("たく"));
    assert!(spans[0].is_ruby_base);
}

#[test]
fn ruby_with_bare_base_text() {
    let spans = spans_from_markup(&vec![el("ruby", vec![text("漢"), el("rt", vec![text("かん")]), MarkupNode::Comment])]);
    assert_eq!(spans.len(), 1);
    assert_eq!(spans[0].text, "漢");
    assert_eq!(spans[0].ruby_text.as_deref(), Some("かん"));
}

#[test]
fn line_break_adds_newline_only() {
    let spans = spans_from_markup(&vec![text("a"), el("br", vec![text("ignored")]), text("b")]);
    let texts: Vec<&str> = spans.iter().map(|s| s.text.as_str()).collect();
    assert_eq!(texts, vec!["a", "\n", "b"]);
}

#[test]
fn paragraphs_end_with_one_newline() {
    let spans = spans_from_markup(&vec![
        el("p", vec![text("a")]),
        el("p", vec![text("b"), el("br", vec![])]),
        text("  \n "),
        MarkupNode::Comment,
    ]);
    let texts: Vec<&str> = spans.iter().map(|s| s.text.as_str()).collect();
    assert_eq!(texts, vec!["a", "\n", "b", "\n"]);
}

#[test]
fn tag_names_are_classified() {
    assert_eq!(kind_of(&"h6".to_string()), TagKind::Heading);
    assert_eq!(kind_of(&"hr/".to_string()), TagKind::ClosedRule);
    assert_eq!(kind_of(&"ul".to_string()), TagKind::List);
    assert_eq!(kind_of(&"div".to_string()), TagKind::Other);
}

#[test]
fn plain_text_follows_document_order() {
    let node = el("div", vec![el("p", vec![text("one"), el("b", vec![text(" two")])]), MarkupNode::Comment, el("br", vec![]), text("three")]);
    let mut out = String::from(">");
    extract_text(&node, &mut out);
    assert_eq!(out, ">one two\n\nthree");
}
