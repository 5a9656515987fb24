//! The block tree of a document and its compaction.

use crate::paragraph::{duplicate_text, Paragraph, ParagraphView};
use crate::table::{Table, TableView};
use vstd::prelude::*;

verus! {

/// A block of a document.
#[allow(inconsistent_fields)]
#[derive(Debug, PartialEq)]
pub enum Node {
    Root { children: Vec<Node> },
    Paragraph(Paragraph),
    Heading { level: u8, children: Paragraph },
    Blockquote(Paragraph),
    List {
        /// Only list items count; any other child is passed over.
        children: Vec<Node>,
        ordered: bool,
    },
    ListItem {
        children: Vec<Node>,
        spread: bool,
        /// Whether the item is ticked; `None` where it has no checkbox.
        checked: Option<bool>,
    },
    CodeBlock { code: String, lang: Option<String> },
    Table(Table),
    Break,
    Divider,
    Ignore,
    Unknown,
}

/// What a [`Node`] holds.
#[allow(inconsistent_fields)]
pub enum NodeView {
    Root { children: Seq<NodeView> },
    Paragraph(ParagraphView),
    Heading { level: u8, children: ParagraphView },
    Blockquote(ParagraphView),
    List { children: Seq<NodeView>, ordered: bool },
    ListItem { children: Seq<NodeView>, spread: bool, checked: Option<bool> },
    CodeBlock { code: String, lang: Option<String> },
    Table(TableView),
    Break,
    Divider,
    Ignore,
    Unknown,
}

impl View for Node {
    type V = NodeView;

    open spec fn view(&self) -> NodeView
        decreases self,
    {
        match *self {
            Node::Root { children } => NodeView::Root {
                children: Seq::new(
                    children@.len(),
                    |i: int|
                        if 0 <= i < children@.len() {
                            children@[i].view()
                        } else {
                            NodeView::Ignore
                        },
                ),
            },
            Node::Paragraph(p) => NodeView::Paragraph(p@),
            Node::Heading { level, children } => NodeView::Heading { level, children: children@ },
            Node::Blockquote(p) => NodeView::Blockquote(p@),
            Node::List { children, ordered } => NodeView::List {
                children: Seq::new(
                    children@.len(),
                    |i: int|
                        if 0 <= i < children@.len() {
                            children@[i].view()
                        } else {
                            NodeView::Ignore
                        },
                ),
                ordered,
            },
            Node::ListItem { children, spread, checked } => NodeView::ListItem {
                children: Seq::new(
                    children@.len(),
                    |i: int|
                        if 0 <= i < children@.len() {
                            children@[i].view()
                        } else {
                            NodeView::Ignore
                        },
                ),
                spread,
                checked,
            },
            Node::CodeBlock { code, lang } => NodeView::CodeBlock { code, lang },
            Node::Table(t) => NodeView::Table(t@),
            Node::Break => NodeView::Break,
            Node::Divider => NodeView::Divider,
            Node::Ignore => NodeView::Ignore,
            Node::Unknown => NodeView::Unknown,
        }
    }
}

/// What a list of nodes holds.
pub open spec fn views(children: Seq<Node>) -> Seq<NodeView> {
    Seq::new(children.len(), |i: int| children[i]@)
}

impl NodeView {
    /// The node with every root of a single child replaced by that child.
    ///
    /// The children of a root are compacted and those that are `Ignore` are
    /// dropped. Where exactly one is left, it stands for the root; it is
    /// compact already, so compacting it once more changes nothing (see
    /// [`compaction_is_idempotent`]). Otherwise the root keeps what is left.
    /// Any node but a root is compact as it is.
    pub open spec fn compacted(self) -> NodeView
        decreases self, 0nat,
    {
        match self {
            NodeView::Root { children } => {
                let kept = kept_children(children, children.len());
                if kept.len() == 1 {
                    kept[0]
                } else {
                    NodeView::Root { children: kept }
                }
            },
            _ => self,
        }
    }
}

/// The first `n` nodes of `children`, each compacted, without those that are
/// then `Ignore`.
pub open spec fn kept_children(children: Seq<NodeView>, n: nat) -> Seq<NodeView>
    decreases children, n,
{
    if n == 0 || n > children.len() {
        Seq::empty()
    } else {
        let rest = kept_children(children, (n - 1) as nat);
        let child = children[n - 1].compacted();
        if child is Ignore {
            rest
        } else {
            rest.push(child)
        }
    }
}

/// The view of a node that has children is the same kind of node over the
/// views of its children.
pub proof fn lemma_view_of_children(node: Node)
    ensures
        node matches Node::Root { children } ==> node@ == (NodeView::Root {
            children: views(children@),
        }),
        node matches Node::List { children, ordered } ==> node@ == (NodeView::List {
            children: views(children@),
            ordered,
        }),
        node matches Node::ListItem { children, spread, checked } ==> node@ == (NodeView::ListItem {
            children: views(children@),
            spread,
            checked,
        }),
{
    reveal_with_fuel(<Node as View>::view, 2);
    match node {
        Node::Root { children } => {
            assert(node@->Root_children =~= views(children@));
        },
        Node::List { children, .. } => {
            assert(node@->List_children =~= views(children@));
        },
        Node::ListItem { children, .. } => {
            assert(node@->ListItem_children =~= views(children@));
        },
        _ => {},
    }
}

/// Compacts each node of a list and keeps those that are not `Ignore`.
fn compact_all(children: &Vec<Node>) -> (kept: Vec<Node>)
    ensures
        views(kept@) == kept_children(views(children@), children@.len()),
    decreases children, 0nat,
{
    let ghost all = views(children@);
    let mut kept: Vec<Node> = Vec::new();
    let mut i: usize = 0;
    proof {
        assert(views(kept@) =~= kept_children(all, 0));
    }
    while i < children.len()
        invariant
            i <= children.len(),
            all == views(children@),
            views(kept@) == kept_children(all, i as nat),
        decreases children.len() - i,
    {
        let ghost before = views(kept@);
        let child = children[i].compact();
        if !child.is_ignore() {
            kept.push(child);
            proof {
                assert(views(kept@) =~= before.push(child@));
            }
        }
        i += 1;
    }
    kept
}

impl Node {
    pub fn is_ignore(&self) -> (r: bool)
        ensures
            r == (self@ is Ignore),
    {
        matches!(self, Node::Ignore)
    }

    pub fn is_list_item(&self) -> (r: bool)
        ensures
            r == (self@ is ListItem),
    {
        matches!(self, Node::ListItem { .. })
    }

    /// A copy of a list of nodes.
    fn duplicate_all(children: &Vec<Node>) -> (r: Vec<Node>)
        ensures
            views(r@) == views(children@),
        decreases children, 0nat,
    {
        let mut out: Vec<Node> = Vec::new();
        let mut i: usize = 0;
        while i < children.len()
            invariant
                i <= children.len(),
                out@.len() == i,
                forall|j: int| 0 <= j < i ==> (#[trigger] out@[j])@ == children@[j]@,
            decreases children.len() - i,
        {
            out.push(children[i].duplicate());
            i += 1;
        }
        proof {
            assert(views(out@) =~= views(children@));
        }
        out
    }

    /// A copy of the node and of all below it.
    pub fn duplicate(&self) -> (r: Node)
        ensures
            r@ == self@,
        decreases self, 1nat,
    {
        match self {
            Node::Root { children } => {
                let copy = Node::duplicate_all(children);
                let r = Node::Root { children: copy };
                proof {
                    lemma_view_of_children(r);
                    lemma_view_of_children(*self);
                }
                r
            },
            Node::Paragraph(p) => Node::Paragraph(p.clone()),
            Node::Heading { level, children } => Node::Heading {
                level: *level,
                children: children.clone(),
            },
            Node::Blockquote(p) => Node::Blockquote(p.clone()),
            Node::List { children, ordered } => {
                let copy = Node::duplicate_all(children);
                let r = Node::List { children: copy, ordered: *ordered };
                proof {
                    lemma_view_of_children(r);
                    lemma_view_of_children(*self);
                }
                r
            },
            Node::ListItem { children, spread, checked } => {
                let copy = Node::duplicate_all(children);
                let r = Node::ListItem { children: copy, spread: *spread, checked: *checked };
                proof {
                    lemma_view_of_children(r);
                    lemma_view_of_children(*self);
                }
                r
            },
            Node::CodeBlock { code, lang } => Node::CodeBlock {
                code: code.clone(),
                lang: duplicate_text(lang),
            },
            Node::Table(t) => Node::Table(t.clone()),
            Node::Break => Node::Break,
            Node::Divider => Node::Divider,
            Node::Ignore => Node::Ignore,
            Node::Unknown => Node::Unknown,
        }
    }

    /// Combines a root with its only child, all the way down: see
    /// [`NodeView::compacted`]. The node itself is left as it is.
    pub fn compact(&self) -> (r: Node)
        ensures
            r@ == self@.compacted(),
        decreases self, 1nat,
    {
        match self {
            Node::Root { children } => {
                let mut kept = compact_all(children);
                proof {
                    lemma_view_of_children(*self);
                }
                if kept.len() == 1 {
                    kept.pop().unwrap()
                } else {
                    let r = Node::Root { children: kept };
                    proof {
                        lemma_view_of_children(r);
                    }
                    r
                }
            },
            _ => self.duplicate(),
        }
    }
}

impl Clone for Node {
    fn clone(&self) -> (r: Self)
        ensures
            r@ == self@,
    {
        self.duplicate()
    }
}

/// Whether compaction leaves every node of `s` as it is and none is `Ignore`.
pub open spec fn all_compact(s: Seq<NodeView>) -> bool {
    forall|j: int| 0 <= j < s.len() ==> (#[trigger] s[j]).compacted() == s[j] && !(s[j] is Ignore)
}

/// What a root keeps of its children is compact and holds no `Ignore`.
proof fn lemma_kept_are_compact(children: Seq<NodeView>, n: nat)
    ensures
        all_compact(kept_children(children, n)),
    decreases children, n,
{
    if n == 0 || n > children.len() {
    } else {
        lemma_kept_are_compact(children, (n - 1) as nat);
        compaction_is_idempotent(children[n - 1]);
    }
}

/// Of compact nodes without `Ignore`, a root keeps every one.
proof fn lemma_compact_are_kept(s: Seq<NodeView>, n: nat)
    requires
        all_compact(s),
        n <= s.len(),
    ensures
        kept_children(s, n) == s.take(n as int),
    decreases n,
{
    if n == 0 {
        assert(kept_children(s, n) =~= s.take(n as int));
    } else {
        lemma_compact_are_kept(s, (n - 1) as nat);
        assert(s[n - 1].compacted() == s[n - 1]);
        assert(s.take(n - 1).push(s[n - 1]) =~= s.take(n as int));
    }
}

/// Compacting a compacted tree changes nothing.
pub proof fn compaction_is_idempotent(node: NodeView)
    ensures
        node.compacted().compacted() == node.compacted(),
    decreases node, 0nat,
{
    match node {
        NodeView::Root { children } => {
            let kept = kept_children(children, children.len());
            lemma_kept_are_compact(children, children.len());
            if kept.len() != 1 {
                lemma_compact_are_kept(kept, kept.len());
                assert(kept.take(kept.len() as int) =~= kept);
            }
        },
        _ => {},
    }
}

/// Only `Ignore` compacts to `Ignore`.
pub proof fn only_ignore_compacts_to_ignore(node: NodeView)
    ensures
        node.compacted() is Ignore <==> node is Ignore,
{
    match node {
        NodeView::Root { children } => {
            lemma_kept_are_compact(children, children.len());
        },
        _ => {},
    }
}

/// A root that holds `Ignore` and one other node, which is not `Ignore`,
/// compacts to what that node compacts to.
pub proof fn root_of_ignore_and_one_unwraps(node: NodeView)
    requires
        !(node is Ignore),
    ensures
        (NodeView::Root { children: seq![NodeView::Ignore, node] }).compacted() == node.compacted(),
{
    let children = seq![NodeView::Ignore, node];
    only_ignore_compacts_to_ignore(node);
    assert(children[0].compacted() is Ignore);
    assert(kept_children(children, 0) =~= Seq::empty());
    assert(kept_children(children, 1) =~= Seq::empty());
    assert(kept_children(children, 2) =~= seq![node.compacted()]);
}

} // verus!
