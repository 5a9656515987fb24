use text_view::ranges::{flatten, merge, style_over};
use text_view::style::{InlineTextStyle, LinkMark, Style};

fn bold() -> InlineTextStyle {
    InlineTextStyle { bold: true, ..InlineTextStyle::default() }
}

fn italic() -> InlineTextStyle {
    InlineTextStyle { italic: true, ..InlineTextStyle::default() }
}

fn link(url: &str) -> InlineTextStyle {
    InlineTextStyle {
        link: Some(LinkMark { url: url.to_string(), title: None }),
        ..InlineTextStyle::default()
    }
}

#[test]
fn merge_splits_at_every_boundary() {
    let merged = merge(vec![(0..5, bold())], vec![(3..8, italic())]);
    let both = InlineTextStyle { bold: true, italic: true, ..InlineTextStyle::default() };
    assert_eq!(merged, vec![(0..3, bold()), (3..5, both), (5..8, italic())]);
}

#[test]
fn merge_with_empty_side_returns_the_other() {
    let a = vec![(0..2, bold()), (4..6, italic())];
    assert_eq!(merge(a.clone(), vec![]), a);
    assert_eq!(merge(vec![], a.clone()), a);
}

#[test]
fn merge_drops_zero_length_ranges() {
    let merged = merge(vec![(2..2, bold())], vec![(1..3, italic()), (5..5, bold())]);
    assert_eq!(merged, vec![(1..3, italic())]);
}

#[test]
fn merge_keeps_first_link_on_conflict() {
    let merged = merge(vec![(0..4, link("a"))], vec![(2..6, link("b"))]);
    assert_eq!(merged, vec![(0..2, link("a")), (2..4, link("a")), (4..6, link("b"))]);
}

#[test]
fn merge_keeps_adjacent_equal_segments_apart() {
    let merged = merge(vec![(0..2, bold())], vec![(2..4, bold())]);
    assert_eq!(merged, vec![(0..2, bold()), (2..4, bold())]);
}

#[test]
fn flatten_layers_overlapping_ranges_of_one_list() {
    let flat = flatten(&vec![(4..9, italic()), (0..6, bold())]);
    let both = InlineTextStyle { bold: true, italic: true, ..InlineTextStyle::default() };
    assert_eq!(flat, vec![(0..4, bold()), (4..6, both), (6..9, italic())]);
}

#[test]
fn merge_of_two_empty_lists_is_empty() {
    let merged: Vec<(std::ops::Range<usize>, InlineTextStyle)> = merge(vec![], vec![]);
    assert!(merged.is_empty());
}

#[test]
fn merge_covers_the_union_of_disjoint_lists() {
    let merged = merge(vec![(0..2, bold()), (6..8, bold())], vec![(3..5, italic())]);
    assert_eq!(merged, vec![(0..2, bold()), (3..5, italic()), (6..8, bold())]);
}

#[test]
fn merge_of_a_range_inside_another_gives_three_segments() {
    let merged = merge(vec![(0..10, bold())], vec![(4..6, italic())]);
    let both = InlineTextStyle { bold: true, italic: true, ..InlineTextStyle::default() };
    assert_eq!(merged, vec![(0..4, bold()), (4..6, both), (6..10, bold())]);
}

#[test]
fn merge_takes_the_link_of_the_second_list_where_the_first_has_none() {
    let merged = merge(vec![(0..4, bold())], vec![(0..4, link("b"))]);
    let expected = InlineTextStyle {
        bold: true,
        link: Some(LinkMark { url: "b".to_string(), title: None }),
        ..InlineTextStyle::default()
    };
    assert_eq!(merged, vec![(0..4, expected)]);
}

#[test]
fn merge_ignores_ranges_that_run_backwards() {
    let backwards = std::ops::Range { start: 7, end: 3 };
    let merged = merge(vec![(backwards, bold())], vec![(1..2, italic())]);
    assert_eq!(merged, vec![(1..2, italic())]);
}

#[test]
fn flatten_of_equal_ranges_layers_them_in_order() {
    let flat = flatten(&vec![(0..3, link("first")), (0..3, link("second")), (0..3, bold())]);
    let expected = InlineTextStyle {
        bold: true,
        link: Some(LinkMark { url: "first".to_string(), title: None }),
        ..InlineTextStyle::default()
    };
    assert_eq!(flat, vec![(0..3, expected)]);
}

#[test]
fn flatten_twice_is_flatten_once() {
    let once = flatten(&vec![(4..9, italic()), (0..6, bold()), (2..3, link("x"))]);
    let twice = flatten(&once);
    assert_eq!(once, twice);
}

#[test]
fn merged_style_at_each_offset_is_the_layering_of_both() {
    let a = vec![(0..5, bold()), (7..9, link("a"))];
    let b = vec![(3..8, italic()), (8..12, link("b"))];
    let merged = merge(a.clone(), b.clone());
    for p in 0..14usize {
        let expected = match (style_over(&a, p), style_over(&b, p)) {
            (Some(x), Some(y)) => Some(x.layer(&y)),
            (Some(x), None) => Some(x),
            (None, y) => y,
        };
        assert_eq!(style_over(&merged, p), expected);
    }
    for pair in merged.windows(2) {
        assert!(pair[0].0.end <= pair[1].0.start);
    }
}
