use text_view::list::{list_item_layout, ordinals, ItemLayout, ItemPrefix, ItemRow, ListState};
use text_view::node::Node;
use text_view::paragraph::Paragraph;

fn para(text: &str) -> Node {
    Node::Paragraph(Paragraph::from_string(text.to_string()))
}

fn item(children: Vec<Node>, checked: Option<bool>) -> Node {
    Node::ListItem { children, spread: false, checked }
}

#[test]
fn a_stray_child_of_a_list_takes_no_number() {
    let children = vec![
        item(vec![para("one")], None),
        para("note"),
        item(vec![para("two")], None),
        item(vec![para("three")], None),
    ];
    let numbers = ordinals(&children);
    assert_eq!(numbers, vec![0, 1, 1, 2]);
    let of_items: Vec<usize> = children
        .iter()
        .zip(numbers.iter())
        .filter(|(child, _)| child.is_list_item())
        .map(|(_, n)| *n)
        .collect();
    assert_eq!(of_items, vec![0, 1, 2]);
    let state = ListState::enter(None, true);
    assert_eq!(list_item_layout(&children[1], numbers[1], state), None);
}

#[test]
fn ordinals_of_an_empty_list_are_empty() {
    assert_eq!(ordinals(&vec![]), Vec::<usize>::new());
}

#[test]
fn ordinals_count_only_items() {
    let children = vec![Node::Break, Node::Ignore, item(vec![], None), Node::Divider];
    assert_eq!(ordinals(&children), vec![0, 0, 0, 1]);
}

#[test]
fn a_checked_item_shows_its_box_and_no_marker() {
    let state = ListState::enter(None, true);
    let layout = list_item_layout(&item(vec![para("done")], Some(true)), 3, state);
    let below = ListState { todo: true, ordered: true, depth: 1 };
    assert_eq!(
        layout,
        Some(ItemLayout {
            spread: false,
            rows: vec![ItemRow::Line {
                child: 0,
                prefix: ItemPrefix::Checkbox { checked: true },
                state: below,
            }],
        })
    );
}

#[test]
fn an_unchecked_item_shows_an_empty_box() {
    let state = ListState::default();
    assert_eq!(state.item_prefix(0, Some(false)), ItemPrefix::Checkbox { checked: false });
}

#[test]
fn an_item_without_a_box_shows_its_marker() {
    let state = ListState::enter(None, true);
    let layout = list_item_layout(&item(vec![para("plain")], None), 3, state);
    let below = ListState { todo: false, ordered: true, depth: 1 };
    assert_eq!(
        layout,
        Some(ItemLayout {
            spread: false,
            rows: vec![ItemRow::Line {
                child: 0,
                prefix: ItemPrefix::Marker { ordinal: 3, ordered: true, depth: 0 },
                state: below,
            }],
        })
    );
}

#[test]
fn an_item_inside_a_checklist_shows_nothing_in_front() {
    let state = ListState { todo: true, ordered: false, depth: 2 };
    assert_eq!(state.item_prefix(1, None), ItemPrefix::Bare);
    assert_eq!(state.item_prefix(1, Some(true)), ItemPrefix::Checkbox { checked: true });
}

#[test]
fn enter_takes_ordered_from_the_list_and_the_rest_from_outside() {
    assert_eq!(ListState::enter(None, true), ListState { todo: false, ordered: true, depth: 0 });
    let outer = ListState { todo: true, ordered: true, depth: 4 };
    assert_eq!(
        ListState::enter(Some(outer), false),
        ListState { todo: true, ordered: false, depth: 4 }
    );
    assert_eq!(ListState::default(), ListState { todo: false, ordered: false, depth: 0 });
}

#[test]
fn nested_goes_one_level_down() {
    let state = ListState { todo: false, ordered: true, depth: 2 };
    assert_eq!(state.nested(None), ListState { todo: false, ordered: true, depth: 3 });
    assert_eq!(state.nested(Some(false)), ListState { todo: true, ordered: true, depth: 3 });
}

#[test]
fn an_item_draws_paragraphs_and_lists_and_skips_the_rest() {
    let nested = Node::List { children: vec![item(vec![para("x")], None)], ordered: false };
    let it = Node::ListItem {
        children: vec![Node::Divider, para("a"), Node::Unknown, nested, para("b")],
        spread: true,
        checked: None,
    };
    let state = ListState { todo: false, ordered: false, depth: 1 };
    let below = ListState { todo: false, ordered: false, depth: 2 };
    let marker = ItemPrefix::Marker { ordinal: 5, ordered: false, depth: 1 };
    assert_eq!(
        list_item_layout(&it, 5, state),
        Some(ItemLayout {
            spread: true,
            rows: vec![
                ItemRow::Line { child: 1, prefix: marker, state: below },
                ItemRow::Nested { child: 3, state: below },
                ItemRow::Line { child: 4, prefix: marker, state: below },
            ],
        })
    );
}

#[test]
fn what_is_no_item_has_no_item_layout() {
    let state = ListState::default();
    assert_eq!(list_item_layout(&para("a"), 0, state), None);
    assert_eq!(list_item_layout(&Node::Ignore, 0, state), None);
    assert_eq!(
        list_item_layout(&item(vec![], None), 0, state),
        Some(ItemLayout { spread: false, rows: vec![] })
    );
}
