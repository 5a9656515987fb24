use text_view::paragraph::{text_bytes, ImageNode, Length, Paragraph, Span, TextNode};
use text_view::style::InlineTextStyle;

fn image(url: &str) -> ImageNode {
    ImageNode { url: url.to_string(), ..ImageNode::default() }
}

fn run(text: &str) -> TextNode {
    TextNode { text: text.to_string(), marks: vec![] }
}

#[test]
fn default_paragraph_is_empty_texts() {
    let p = Paragraph::default();
    assert_eq!(p, Paragraph::Texts { span: None, children: vec![] });
    assert!(p.is_empty());
    assert!(!p.is_image());
    assert_eq!(p.text_len(), 0);
}

#[test]
fn from_string_makes_one_unmarked_run() {
    let p = Paragraph::from("hello".to_string());
    assert_eq!(p, Paragraph::Texts { span: None, children: vec![run("hello")] });
    assert_eq!(Paragraph::from_string("hello".to_string()), p);
}

#[test]
fn push_str_adds_a_run_with_one_plain_mark_over_all_of_it() {
    let mut p = Paragraph::default();
    p.push_str("héllo");
    let expected = TextNode {
        text: "héllo".to_string(),
        marks: vec![(0..6, InlineTextStyle::default())],
    };
    assert_eq!(p, Paragraph::Texts { span: None, children: vec![expected] });
}

#[test]
fn push_adds_the_run_at_the_end() {
    let mut p = Paragraph::default();
    p.push(run("a"));
    p.push(run("b"));
    assert_eq!(p, Paragraph::Texts { span: None, children: vec![run("a"), run("b")] });
}

#[test]
fn push_and_push_str_leave_an_image_alone() {
    let mut p = Paragraph::default();
    p.set_image(image("a.png"));
    let before = p.clone();
    p.push_str("text");
    assert_eq!(p, before);
    p.push(run("more"));
    assert_eq!(p, before);
    assert!(p.is_image());
}

#[test]
fn set_image_replaces_text_runs_and_span() {
    let mut p = Paragraph::default();
    p.push_str("gone");
    p.set_span(Span { start: 3, end: 9 });
    p.set_image(image("a.png"));
    assert_eq!(p, Paragraph::Image { span: None, image: image("a.png") });
}

#[test]
fn clear_empties_texts_and_keeps_the_span() {
    let mut p = Paragraph::default();
    p.set_span(Span { start: 1, end: 2 });
    p.push_str("abc");
    p.clear();
    assert_eq!(p, Paragraph::Texts { span: Some(Span { start: 1, end: 2 }), children: vec![] });
}

#[test]
fn clear_turns_an_image_into_the_empty_paragraph() {
    let mut p = Paragraph::Image { span: Some(Span { start: 1, end: 2 }), image: image("a.png") };
    p.clear();
    assert_eq!(p, Paragraph::default());
}

#[test]
fn set_span_works_on_both_kinds() {
    let mut p = Paragraph::default();
    p.set_span(Span { start: 4, end: 8 });
    assert_eq!(p.span(), Span { start: 4, end: 8 });
    let mut q = Paragraph::Image { span: None, image: image("a.png") };
    assert_eq!(q.span(), Span { start: 0, end: 0 });
    q.set_span(Span { start: 5, end: 6 });
    assert_eq!(q, Paragraph::Image { span: Some(Span { start: 5, end: 6 }), image: image("a.png") });
}

#[test]
fn text_len_is_the_longest_run_not_the_sum() {
    let mut p = Paragraph::default();
    p.push_str("abc");
    p.push_str("abcdefg");
    p.push_str("ab");
    assert_eq!(p.text_len(), 7);
}

#[test]
fn text_len_counts_bytes() {
    let mut p = Paragraph::default();
    p.push_str("日本語");
    assert_eq!(p.text_len(), 9);
    assert_eq!(text_bytes("日本語"), 9);
    assert_eq!(text_bytes(""), 0);
}

#[test]
fn text_len_of_an_image_is_one() {
    let p = Paragraph::Image { span: None, image: image("a.png") };
    assert_eq!(p.text_len(), 1);
    assert!(!p.is_empty());
}

#[test]
fn a_paragraph_of_empty_runs_is_empty() {
    let mut p = Paragraph::default();
    p.push_str("");
    p.push(run(""));
    assert!(p.is_empty());
    p.push_str("x");
    assert!(!p.is_empty());
}

#[test]
fn images_are_equal_whatever_their_size() {
    let small = ImageNode { width: Some(Length::Pixels(10_000)), ..image("a.png") };
    let large = ImageNode {
        width: Some(Length::Fraction(500)),
        height: Some(Length::Rems(2_000)),
        ..image("a.png")
    };
    assert_eq!(small, large);
}

#[test]
fn images_differ_by_url_title_and_alt() {
    assert_ne!(image("a.png"), image("b.png"));
    assert_ne!(image("a.png"), ImageNode { title: Some("t".to_string()), ..image("a.png") });
    assert_ne!(image("a.png"), ImageNode { alt: Some("t".to_string()), ..image("a.png") });
    assert_ne!(
        ImageNode { alt: Some("s".to_string()), ..image("a.png") },
        ImageNode { alt: Some("t".to_string()), ..image("a.png") }
    );
}

#[test]
fn clone_of_a_paragraph_is_equal() {
    let mut p = Paragraph::default();
    p.set_span(Span { start: 2, end: 3 });
    p.push_str("abc");
    p.push(TextNode {
        text: "def".to_string(),
        marks: vec![(1..2, InlineTextStyle { bold: true, ..InlineTextStyle::default() })],
    });
    assert_eq!(p.clone(), p);
    assert_eq!(Span::default(), Span { start: 0, end: 0 });
    assert_eq!(TextNode::default(), run(""));
}
