use text_view::compose::{compose, try_compose, Composed};
use text_view::paragraph::TextNode;
use text_view::style::{ColorVariant, InlineTextStyle, LinkMark, ResolvedStyle, Slant, Weight};

fn plain() -> ResolvedStyle {
    ResolvedStyle {
        weight: Weight::Regular,
        slant: Slant::Upright,
        strikethrough: false,
        background: false,
        color: ColorVariant::Inherit,
        underline: false,
    }
}

fn bold() -> InlineTextStyle {
    InlineTextStyle { bold: true, ..InlineTextStyle::default() }
}

fn italic() -> InlineTextStyle {
    InlineTextStyle { italic: true, ..InlineTextStyle::default() }
}

fn mark(url: &str) -> LinkMark {
    LinkMark { url: url.to_string(), title: None }
}

fn link(url: &str) -> InlineTextStyle {
    InlineTextStyle { link: Some(mark(url)), ..InlineTextStyle::default() }
}

#[test]
fn compose_of_nothing_is_empty() {
    let out = compose(&vec![]);
    assert_eq!(out, Composed { text: String::new(), highlights: vec![], links: vec![] });
}

#[test]
fn compose_joins_the_texts_in_order() {
    let out = compose(&vec![
        TextNode { text: "Hello, ".to_string(), marks: vec![] },
        TextNode { text: "world".to_string(), marks: vec![] },
        TextNode { text: "!".to_string(), marks: vec![] },
    ]);
    assert_eq!(out.text, "Hello, world!");
    assert_eq!(out.text.len(), 7 + 5 + 1);
    assert!(out.highlights.is_empty());
    assert!(out.links.is_empty());
}

#[test]
fn compose_moves_marks_to_where_their_run_starts() {
    let out = compose(&vec![
        TextNode { text: "plain ".to_string(), marks: vec![] },
        TextNode { text: "bold".to_string(), marks: vec![(0..4, bold())] },
        TextNode { text: " and italic".to_string(), marks: vec![(5..11, italic())] },
    ]);
    assert_eq!(out.text, "plain bold and italic");
    assert_eq!(
        out.highlights,
        vec![
            (6..10, ResolvedStyle { weight: Weight::Bold, ..plain() }),
            (15..21, ResolvedStyle { slant: Slant::Italic, ..plain() }),
        ]
    );
}

#[test]
fn compose_counts_offsets_in_bytes() {
    let out = compose(&vec![
        TextNode { text: "日本".to_string(), marks: vec![] },
        TextNode { text: "語".to_string(), marks: vec![(0..3, bold())] },
    ]);
    assert_eq!(out.text, "日本語");
    assert_eq!(out.highlights, vec![(6..9, ResolvedStyle { weight: Weight::Bold, ..plain() })]);
}

#[test]
fn compose_layers_overlapping_marks_of_one_run() {
    let out = compose(&vec![TextNode {
        text: "0123456789".to_string(),
        marks: vec![(0..6, bold()), (4..10, italic())],
    }]);
    assert_eq!(
        out.highlights,
        vec![
            (0..4, ResolvedStyle { weight: Weight::Bold, ..plain() }),
            (4..6, ResolvedStyle { weight: Weight::Bold, slant: Slant::Italic, ..plain() }),
            (6..10, ResolvedStyle { slant: Slant::Italic, ..plain() }),
        ]
    );
}

#[test]
fn compose_lists_links_apart_from_highlights() {
    let out = compose(&vec![
        TextNode { text: "see ".to_string(), marks: vec![(0..4, InlineTextStyle::default())] },
        TextNode { text: "here".to_string(), marks: vec![(0..4, link("https://a.example"))] },
        TextNode { text: " or ".to_string(), marks: vec![] },
        TextNode {
            text: "there".to_string(),
            marks: vec![(0..5, bold()), (0..5, link("https://b.example"))],
        },
    ]);
    assert_eq!(out.text, "see here or there");
    assert_eq!(
        out.links,
        vec![(4..8, mark("https://a.example")), (12..17, mark("https://b.example"))]
    );
    assert_eq!(
        out.highlights,
        vec![
            (0..4, plain()),
            (4..8, ResolvedStyle { color: ColorVariant::Link, underline: true, ..plain() }),
            (
                12..17,
                ResolvedStyle {
                    weight: Weight::Bold,
                    color: ColorVariant::Link,
                    underline: true,
                    ..plain()
                }
            ),
        ]
    );
    assert_eq!(out.link_ranges(), vec![4..8, 12..17]);
    assert_eq!(out.link_at(0), Some(&mark("https://a.example")));
    assert_eq!(out.link_at(1), Some(&mark("https://b.example")));
    assert_eq!(out.link_at(2), None);
}

#[test]
fn compose_keeps_a_link_of_length_zero_in_the_link_table() {
    let out = compose(&vec![TextNode {
        text: "abc".to_string(),
        marks: vec![(1..1, link("https://a.example"))],
    }]);
    assert_eq!(out.links, vec![(1..1, mark("https://a.example"))]);
    assert!(out.highlights.is_empty());
}

#[test]
fn compose_length_is_the_sum_and_ranges_lie_inside() {
    let children = vec![
        TextNode { text: "añb".to_string(), marks: vec![(0..4, bold()), (1..3, link("u"))] },
        TextNode { text: String::new(), marks: vec![(0..0, italic())] },
        TextNode { text: "xyz".to_string(), marks: vec![(3..3, bold()), (0..3, italic())] },
    ];
    let total: usize = children.iter().map(|c| c.text.len()).sum();
    let out = compose(&children);
    assert_eq!(out.text.len(), total);
    assert_eq!(total, 7);
    for (range, _) in out.highlights.iter() {
        assert!(range.start <= range.end && range.end <= out.text.len());
    }
    for (range, _) in out.links.iter() {
        assert!(range.start <= range.end && range.end <= out.text.len());
    }
    assert_eq!(
        out.highlights,
        vec![
            (0..1, ResolvedStyle { weight: Weight::Bold, ..plain() }),
            (
                1..3,
                ResolvedStyle {
                    weight: Weight::Bold,
                    color: ColorVariant::Link,
                    underline: true,
                    ..plain()
                }
            ),
            (3..4, ResolvedStyle { weight: Weight::Bold, ..plain() }),
            (4..7, ResolvedStyle { slant: Slant::Italic, ..plain() }),
        ]
    );
}

#[test]
fn try_compose_is_compose_where_marks_lie_inside_their_runs() {
    let children = vec![
        TextNode { text: "ab".to_string(), marks: vec![(0..2, bold()), (2..2, italic())] },
        TextNode { text: "cd".to_string(), marks: vec![(1..2, link("u"))] },
    ];
    assert!(children.iter().all(|c| c.is_well_formed()));
    assert_eq!(try_compose(&children), Some(compose(&children)));
    assert_eq!(try_compose(&vec![]), Some(compose(&vec![])));
}

#[test]
fn try_compose_refuses_a_mark_that_leaves_its_run() {
    let beyond = TextNode { text: "ab".to_string(), marks: vec![(0..3, bold())] };
    assert!(!beyond.is_well_formed());
    assert_eq!(try_compose(&vec![beyond]), None);
    let backwards = TextNode {
        text: "abc".to_string(),
        marks: vec![(std::ops::Range { start: 2, end: 1 }, bold())],
    };
    assert!(!backwards.is_well_formed());
    let good = TextNode { text: "abc".to_string(), marks: vec![] };
    assert_eq!(try_compose(&vec![good, backwards]), None);
}
