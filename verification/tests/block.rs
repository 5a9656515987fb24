use text_view::block::{heading_style, is_last_child, BlockLayout, HeadingStyle, HeadingWeight};
use text_view::list::ListState;
use text_view::node::Node;
use text_view::paragraph::Paragraph;
use text_view::table::Table;
use text_view::view::TextViewStyle;

fn para() -> Node {
    Node::Paragraph(Paragraph::from_string("a".to_string()))
}

#[test]
fn a_block_has_the_gap_of_the_style_below_it() {
    let style = TextViewStyle::default();
    assert_eq!(para().layout(None, false, &style), BlockLayout::Paragraph { gap: 1000 });
    assert_eq!(
        Node::Blockquote(Paragraph::default()).layout(None, false, &style),
        BlockLayout::Blockquote { gap: 1000 }
    );
    assert_eq!(
        Node::CodeBlock { code: String::new(), lang: None }.layout(None, false, &style),
        BlockLayout::CodeBlock { gap: 1000 }
    );
    assert_eq!(Node::Divider.layout(None, false, &style), BlockLayout::Divider { gap: 1000 });
}

#[test]
fn the_last_child_and_a_block_in_a_list_have_no_gap() {
    let style = TextViewStyle::default().paragraph_gap(800);
    assert_eq!(para().layout(None, true, &style), BlockLayout::Paragraph { gap: 0 });
    let state = ListState::default();
    assert_eq!(para().layout(Some(state), false, &style), BlockLayout::Paragraph { gap: 0 });
    assert_eq!(para().layout(None, false, &style), BlockLayout::Paragraph { gap: 800 });
    assert_eq!(
        para().layout(None, false, &TextViewStyle::inline()),
        BlockLayout::Paragraph { gap: 0 }
    );
}

#[test]
fn a_list_hands_its_state_to_its_items() {
    let style = TextViewStyle::default();
    let list = Node::List { children: vec![], ordered: true };
    assert_eq!(
        list.layout(None, false, &style),
        BlockLayout::List { gap: 1000, state: ListState { todo: false, ordered: true, depth: 0 } }
    );
    let outer = ListState { todo: true, ordered: false, depth: 3 };
    assert_eq!(
        list.layout(Some(outer), true, &style),
        BlockLayout::List { gap: 0, state: ListState { todo: true, ordered: true, depth: 3 } }
    );
}

#[test]
fn root_and_table_have_their_own_layout() {
    let style = TextViewStyle::default();
    assert_eq!(Node::Root { children: vec![] }.layout(None, false, &style), BlockLayout::Stack);
    assert_eq!(Node::Table(Table::default()).layout(None, false, &style), BlockLayout::Table);
}

#[test]
fn nodes_that_draw_nothing_are_empty() {
    let style = TextViewStyle::default();
    for node in [Node::Break, Node::Ignore].iter() {
        assert_eq!(node.layout(None, false, &style), BlockLayout::Empty);
    }
}

#[test]
fn an_unknown_node_and_a_stray_list_item_are_unsupported() {
    let style = TextViewStyle::default();
    let item = Node::ListItem { children: vec![para()], spread: false, checked: None };
    for node in [Node::Unknown, item].iter() {
        assert_eq!(node.layout(None, false, &style), BlockLayout::Unsupported);
        assert_eq!(
            node.layout(Some(ListState::default()), true, &style),
            BlockLayout::Unsupported
        );
    }
}

#[test]
fn heading_sizes_go_by_level() {
    let style = |size, weight| HeadingStyle { size, weight };
    assert_eq!(heading_style(1), style(2000, HeadingWeight::Bold));
    assert_eq!(heading_style(2), style(1500, HeadingWeight::Semibold));
    assert_eq!(heading_style(3), style(1250, HeadingWeight::Semibold));
    assert_eq!(heading_style(4), style(1125, HeadingWeight::Semibold));
    assert_eq!(heading_style(5), style(1000, HeadingWeight::Semibold));
    assert_eq!(heading_style(6), style(1000, HeadingWeight::Medium));
    assert_eq!(heading_style(7), style(1000, HeadingWeight::Normal));
    assert_eq!(heading_style(0), style(1000, HeadingWeight::Normal));
    let heading = Node::Heading { level: 3, children: Paragraph::default() };
    assert_eq!(
        heading.layout(None, false, &TextViewStyle::default()),
        BlockLayout::Heading { style: style(1250, HeadingWeight::Semibold) }
    );
}

#[test]
fn only_the_last_index_is_the_last_child() {
    assert!(is_last_child(2, 3));
    assert!(!is_last_child(1, 3));
    assert!(is_last_child(0, 1));
    assert!(!is_last_child(0, 0));
    assert!(!is_last_child(3, 3));
}
