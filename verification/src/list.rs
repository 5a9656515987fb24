//! Lists: the state handed down through nested lists, the ordinal of each
//! item, and what stands in front of an item's text.

use crate::node::{lemma_view_of_children, views, Node, NodeView};
use vstd::prelude::*;

verus! {

/// What a list hands down to its items and to the lists nested in them.
#[derive(Clone, Copy, Debug, PartialEq, Eq, Structural)]
pub struct ListState {
    /// Whether the enclosing item carries a checkbox.
    pub todo: bool,
    /// Whether the list numbers its items.
    pub ordered: bool,
    /// How many items enclose this one.
    pub depth: usize,
}

impl Default for ListState {
    fn default() -> (r: Self)
        ensures
            r == ListState::outermost(),
    {
        ListState { todo: false, ordered: false, depth: 0 }
    }
}

/// What stands in front of the text of a list item.
#[derive(Clone, Copy, Debug, PartialEq, Eq, Structural)]
pub enum ItemPrefix {
    /// Nothing: the text belongs to a checklist item that drew its box.
    Bare,
    /// The number of the item in an ordered list, or a bullet that goes by
    /// the depth in an unordered one. `ordinal` counts from zero.
    Marker { ordinal: usize, ordered: bool, depth: usize },
    /// A checkbox, ticked or not.
    Checkbox { checked: bool },
}

/// One child of a list item that is drawn.
#[derive(Clone, Copy, Debug, PartialEq, Eq, Structural)]
pub enum ItemRow {
    /// The paragraph at index `child`, on a line after `prefix`.
    Line { child: usize, prefix: ItemPrefix, state: ListState },
    /// The list at index `child`, indented by one step.
    Nested { child: usize, state: ListState },
}

/// How a list item is laid out.
#[derive(Debug, PartialEq)]
pub struct ItemLayout {
    /// Whether the item is set apart from the one before it.
    pub spread: bool,
    /// The children that are drawn, in order. Others are passed over.
    pub rows: Vec<ItemRow>,
}

impl ListState {
    /// The state outside of any list.
    pub open spec fn outermost() -> ListState {
        ListState { todo: false, ordered: false, depth: 0 }
    }

    /// The state of a list that stands in `outer`, or in no list where
    /// `outer` is `None`: the list brings its own `ordered` and takes the
    /// rest from outside.
    pub open spec fn entered(outer: Option<ListState>, ordered: bool) -> ListState {
        match outer {
            Some(s) => ListState { todo: s.todo, ordered, depth: s.depth },
            None => ListState { todo: false, ordered, depth: 0 },
        }
    }

    /// The state handed to the children of an item: one level deeper, and a
    /// checklist exactly where the item has a checkbox.
    pub open spec fn below(self, checked: Option<bool>) -> ListState {
        ListState { todo: checked is Some, ordered: self.ordered, depth: (self.depth + 1) as usize }
    }

    /// What stands in front of the text of item number `ordinal`: its
    /// checkbox where it has one; else nothing inside a checklist, and the
    /// number or bullet elsewhere.
    pub open spec fn prefix(self, ordinal: usize, checked: Option<bool>) -> ItemPrefix {
        match checked {
            Some(c) => ItemPrefix::Checkbox { checked: c },
            None => if self.todo {
                ItemPrefix::Bare
            } else {
                ItemPrefix::Marker { ordinal, ordered: self.ordered, depth: self.depth }
            },
        }
    }

    /// See [`ListState::entered`].
    pub fn enter(outer: Option<ListState>, ordered: bool) -> (r: ListState)
        ensures
            r == ListState::entered(outer, ordered),
    {
        match outer {
            Some(s) => ListState { todo: s.todo, ordered, depth: s.depth },
            None => ListState { todo: false, ordered, depth: 0 },
        }
    }

    /// See [`ListState::below`].
    pub fn nested(&self, checked: Option<bool>) -> (r: ListState)
        requires
            self.depth < usize::MAX,
        ensures
            r == self.below(checked),
            r.depth == self.depth + 1,
    {
        ListState { todo: checked.is_some(), ordered: self.ordered, depth: self.depth + 1 }
    }

    /// See [`ListState::prefix`].
    pub fn item_prefix(&self, ordinal: usize, checked: Option<bool>) -> (r: ItemPrefix)
        ensures
            r == self.prefix(ordinal, checked),
    {
        match checked {
            Some(c) => ItemPrefix::Checkbox { checked: c },
            None => if self.todo {
                ItemPrefix::Bare
            } else {
                ItemPrefix::Marker { ordinal, ordered: self.ordered, depth: self.depth }
            },
        }
    }
}

/// The number of list items among `children`.
pub open spec fn count_items(children: Seq<NodeView>) -> nat
    decreases children.len(),
{
    if children.len() == 0 {
        0
    } else {
        count_items(children.drop_last()) + if children.last() is ListItem {
            1nat
        } else {
            0nat
        }
    }
}

/// There are no more items than children.
pub proof fn lemma_count_items_bounded(children: Seq<NodeView>)
    ensures
        count_items(children) <= children.len(),
    decreases children.len(),
{
    if children.len() > 0 {
        lemma_count_items_bounded(children.drop_last());
    }
}

/// The ordinal of each child of a list, counted from zero: the number of
/// list items before it. A child that is no item takes no number; it is
/// given the ordinal of the next item and is not drawn.
pub fn ordinals(children: &Vec<Node>) -> (r: Vec<usize>)
    ensures
        r@.len() == children@.len(),
        forall|i: int|
            0 <= i < r@.len() ==> #[trigger] r@[i] == count_items(views(children@).take(i)),
{
    let ghost all = views(children@);
    let mut out: Vec<usize> = Vec::new();
    let mut ix: usize = 0;
    let mut i: usize = 0;
    while i < children.len()
        invariant
            i <= children.len(),
            all == views(children@),
            out@.len() == i,
            ix == count_items(all.take(i as int)),
            ix <= i,
            forall|j: int| 0 <= j < i ==> #[trigger] out@[j] == count_items(all.take(j)),
        decreases children.len() - i,
    {
        proof {
            assert(all.take(i + 1).drop_last() =~= all.take(i as int));
            assert(all.take(i + 1).last() == children@[i as int]@);
        }
        out.push(ix);
        if children[i].is_list_item() {
            ix += 1;
        }
        i += 1;
    }
    out
}

/// The rows of a list item whose first `n` children are looked at: a line
/// for each paragraph, an indented block for each list, nothing for any
/// other child.
pub open spec fn item_rows(
    children: Seq<NodeView>,
    n: nat,
    ordinal: usize,
    state: ListState,
    checked: Option<bool>,
) -> Seq<ItemRow>
    decreases n,
{
    if n == 0 || n > children.len() {
        Seq::empty()
    } else {
        let rest = item_rows(children, (n - 1) as nat, ordinal, state, checked);
        match children[n - 1] {
            NodeView::Paragraph(_) => rest.push(
                ItemRow::Line {
                    child: (n - 1) as usize,
                    prefix: state.prefix(ordinal, checked),
                    state: state.below(checked),
                },
            ),
            NodeView::List { .. } => rest.push(
                ItemRow::Nested { child: (n - 1) as usize, state: state.below(checked) },
            ),
            _ => rest,
        }
    }
}

/// Lays out the child `item` of a list, which is item number `ordinal`
/// there. A child that is no list item has no layout: nothing is drawn.
pub fn list_item_layout(item: &Node, ordinal: usize, state: ListState) -> (r: Option<ItemLayout>)
    requires
        state.depth < usize::MAX,
    ensures
        match item@ {
            NodeView::ListItem { children, spread, checked } => r matches Some(layout)
                && layout.spread == spread && layout.rows@ == item_rows(
                children,
                children.len(),
                ordinal,
                state,
                checked,
            ),
            _ => r is None,
        },
{
    match item {
        Node::ListItem { children, spread, checked } => {
            proof {
                lemma_view_of_children(*item);
            }
            let ghost all = views(children@);
            let below = state.nested(*checked);
            let prefix = state.item_prefix(ordinal, *checked);
            let mut rows: Vec<ItemRow> = Vec::new();
            let mut i: usize = 0;
            while i < children.len()
                invariant
                    i <= children.len(),
                    all == views(children@),
                    below == state.below(*checked),
                    prefix == state.prefix(ordinal, *checked),
                    rows@ == item_rows(all, i as nat, ordinal, state, *checked),
                decreases children.len() - i,
            {
                match &children[i] {
                    Node::Paragraph(_) => {
                        rows.push(ItemRow::Line { child: i, prefix, state: below });
                    },
                    Node::List { .. } => {
                        rows.push(ItemRow::Nested { child: i, state: below });
                    },
                    _ => {},
                }
                i += 1;
            }
            Some(ItemLayout { spread: *spread, rows })
        },
        _ => None,
    }
}

/// An item with a checkbox shows the box, ticked as the item is, and never a
/// number or bullet. An item without one shows its number or bullet, unless
/// it stands inside a checklist, where it shows nothing.
pub proof fn prefix_is_box_or_marker(state: ListState, ordinal: usize, checked: Option<bool>)
    ensures
        checked matches Some(c) ==> state.prefix(ordinal, checked) == (ItemPrefix::Checkbox {
            checked: c,
        }),
        checked is None && !state.todo ==> state.prefix(ordinal, checked) == (ItemPrefix::Marker {
            ordinal,
            ordered: state.ordered,
            depth: state.depth,
        }),
        checked is None && state.todo ==> state.prefix(ordinal, checked) == ItemPrefix::Bare,
{
}

/// From one child of a list to the next the ordinal goes up by one after a
/// list item and stays after any other child.
pub proof fn ordinal_counts_items_only(children: Seq<NodeView>, i: int)
    requires
        0 <= i < children.len(),
    ensures
        count_items(children.take(i + 1)) == count_items(children.take(i)) + if children[i]
            is ListItem {
            1nat
        } else {
            0nat
        },
{
    assert(children.take(i + 1).drop_last() =~= children.take(i));
    assert(children.take(i + 1).last() == children[i]);
}

} // verus!
