//! How each kind of block is drawn: the gap below it, the size of a heading,
//! and the list state that a list hands to its items.

use crate::list::ListState;
use crate::node::{Node, NodeView};
use crate::view::TextViewStyle;
use vstd::prelude::*;

verus! {

/// How heavy the strokes of a heading are.
#[derive(Clone, Copy, Debug, PartialEq, Eq, Structural)]
pub enum HeadingWeight {
    Bold,
    Semibold,
    Medium,
    Normal,
}

/// The size and weight of the text of a heading.
#[derive(Clone, Copy, Debug, PartialEq, Eq, Structural)]
pub struct HeadingStyle {
    /// The font size in thousandths of the root font size.
    pub size: u32,
    pub weight: HeadingWeight,
}

/// How a block is drawn, apart from what it holds.
#[derive(Clone, Copy, Debug, PartialEq, Eq, Structural)]
pub enum BlockLayout {
    /// The children one below the other, each outside of any list.
    Stack,
    Paragraph { gap: u32 },
    Heading { style: HeadingStyle },
    Blockquote { gap: u32 },
    /// A list, whose children are laid out with `state`.
    List { gap: u32, state: ListState },
    CodeBlock { gap: u32 },
    Table,
    Divider { gap: u32 },
    /// Nothing is drawn.
    Empty,
    /// Nothing is drawn, and the node had no business here: it is worth a
    /// note to whoever debugs the document.
    Unsupported,
}

/// The heading style of each level: the first six levels shrink from twice
/// the root font size to the root font size, any further level is drawn as
/// plain text.
pub open spec fn heading_style_of(level: u8) -> HeadingStyle {
    if level == 1 {
        HeadingStyle { size: 2000, weight: HeadingWeight::Bold }
    } else if level == 2 {
        HeadingStyle { size: 1500, weight: HeadingWeight::Semibold }
    } else if level == 3 {
        HeadingStyle { size: 1250, weight: HeadingWeight::Semibold }
    } else if level == 4 {
        HeadingStyle { size: 1125, weight: HeadingWeight::Semibold }
    } else if level == 5 {
        HeadingStyle { size: 1000, weight: HeadingWeight::Semibold }
    } else if level == 6 {
        HeadingStyle { size: 1000, weight: HeadingWeight::Medium }
    } else {
        HeadingStyle { size: 1000, weight: HeadingWeight::Normal }
    }
}

/// The gap below a block, in thousandths of the root font size: none inside
/// a list and none below the last child, else the gap of the style.
pub open spec fn gap_below(in_list: bool, is_last_child: bool, style: TextViewStyle) -> u32 {
    if in_list || is_last_child {
        0
    } else {
        style.paragraph_gap
    }
}

impl NodeView {
    /// How the node is drawn inside the list of `list_state`, or outside of
    /// any list where that is `None`.
    pub open spec fn layout(
        self,
        list_state: Option<ListState>,
        is_last_child: bool,
        style: TextViewStyle,
    ) -> BlockLayout {
        let gap = gap_below(list_state is Some, is_last_child, style);
        match self {
            NodeView::Root { .. } => BlockLayout::Stack,
            NodeView::Paragraph(_) => BlockLayout::Paragraph { gap },
            NodeView::Heading { level, .. } => BlockLayout::Heading {
                style: heading_style_of(level),
            },
            NodeView::Blockquote(_) => BlockLayout::Blockquote { gap },
            NodeView::List { ordered, .. } => BlockLayout::List {
                gap,
                state: ListState::entered(list_state, ordered),
            },
            NodeView::ListItem { .. } => BlockLayout::Unsupported,
            NodeView::CodeBlock { .. } => BlockLayout::CodeBlock { gap },
            NodeView::Table(_) => BlockLayout::Table,
            NodeView::Break => BlockLayout::Empty,
            NodeView::Divider => BlockLayout::Divider { gap },
            NodeView::Ignore => BlockLayout::Empty,
            NodeView::Unknown => BlockLayout::Unsupported,
        }
    }
}

/// See [`heading_style_of`].
pub fn heading_style(level: u8) -> (r: HeadingStyle)
    ensures
        r == heading_style_of(level),
{
    match level {
        1 => HeadingStyle { size: 2000, weight: HeadingWeight::Bold },
        2 => HeadingStyle { size: 1500, weight: HeadingWeight::Semibold },
        3 => HeadingStyle { size: 1250, weight: HeadingWeight::Semibold },
        4 => HeadingStyle { size: 1125, weight: HeadingWeight::Semibold },
        5 => HeadingStyle { size: 1000, weight: HeadingWeight::Semibold },
        6 => HeadingStyle { size: 1000, weight: HeadingWeight::Medium },
        _ => HeadingStyle { size: 1000, weight: HeadingWeight::Normal },
    }
}

/// Whether child number `ix` of `len` children is the last one.
pub fn is_last_child(ix: usize, len: usize) -> (r: bool)
    ensures
        r == (ix + 1 == len),
{
    len > 0 && ix == len - 1
}

impl Node {
    /// See [`NodeView::layout`]. A break and an ignored node draw nothing,
    /// nor does an unknown node or a list item that stands outside of a
    /// list: these two are unsupported.
    pub fn layout(
        &self,
        list_state: Option<ListState>,
        is_last_child: bool,
        style: &TextViewStyle,
    ) -> (r: BlockLayout)
        ensures
            r == self@.layout(list_state, is_last_child, *style),
    {
        let gap = if list_state.is_some() || is_last_child {
            0
        } else {
            style.paragraph_gap
        };
        match self {
            Node::Root { .. } => BlockLayout::Stack,
            Node::Paragraph(_) => BlockLayout::Paragraph { gap },
            Node::Heading { level, .. } => BlockLayout::Heading { style: heading_style(*level) },
            Node::Blockquote(_) => BlockLayout::Blockquote { gap },
            Node::List { ordered, .. } => BlockLayout::List {
                gap,
                state: ListState::enter(list_state, *ordered),
            },
            Node::ListItem { .. } => BlockLayout::Unsupported,
            Node::CodeBlock { .. } => BlockLayout::CodeBlock { gap },
            Node::Table(_) => BlockLayout::Table,
            Node::Break => BlockLayout::Empty,
            Node::Divider => BlockLayout::Divider { gap },
            Node::Ignore => BlockLayout::Empty,
            Node::Unknown => BlockLayout::Unsupported,
        }
    }
}

} // verus!
