use text_view::node::Node;
use text_view::paragraph::Paragraph;
use text_view::table::Table;

fn para(text: &str) -> Node {
    Node::Paragraph(Paragraph::from_string(text.to_string()))
}

fn root(children: Vec<Node>) -> Node {
    Node::Root { children }
}

#[test]
fn compact_leaves_a_node_that_is_no_root() {
    let nodes = vec![
        para("a"),
        Node::Heading { level: 2, children: Paragraph::from_string("h".to_string()) },
        Node::Blockquote(Paragraph::default()),
        Node::List { children: vec![Node::Ignore], ordered: true },
        Node::ListItem { children: vec![root(vec![para("x")])], spread: false, checked: None },
        Node::CodeBlock { code: "let x;".to_string(), lang: Some("rust".to_string()) },
        Node::Table(Table::default()),
        Node::Break,
        Node::Divider,
        Node::Ignore,
        Node::Unknown,
    ];
    for node in nodes.iter() {
        assert_eq!(&node.compact(), node);
    }
}

#[test]
fn compact_unwraps_a_root_of_one_child() {
    assert_eq!(root(vec![para("a")]).compact(), para("a"));
}

#[test]
fn compact_unwraps_nested_roots() {
    assert_eq!(root(vec![root(vec![root(vec![para("a")])])]).compact(), para("a"));
}

#[test]
fn compact_of_ignore_and_one_node_is_that_node_compacted() {
    let x = root(vec![Node::Ignore, Node::Divider, Node::Ignore]);
    assert_eq!(root(vec![Node::Ignore, x.duplicate()]).compact(), x.compact());
    assert_eq!(x.compact(), Node::Divider);
    assert_eq!(root(vec![Node::Ignore, para("a")]).compact(), para("a"));
}

#[test]
fn compact_of_only_ignored_children_is_an_empty_root() {
    assert_eq!(root(vec![Node::Ignore, Node::Ignore]).compact(), root(vec![]));
    assert_eq!(root(vec![]).compact(), root(vec![]));
}

#[test]
fn compact_keeps_a_root_of_several_children_without_the_ignored() {
    let tree = root(vec![
        para("a"),
        Node::Ignore,
        root(vec![Node::Ignore, para("b")]),
        root(vec![para("c"), para("d")]),
    ]);
    assert_eq!(
        tree.compact(),
        root(vec![para("a"), para("b"), root(vec![para("c"), para("d")])])
    );
}

#[test]
fn compact_drops_an_empty_root_child_only_if_it_is_ignore() {
    let tree = root(vec![root(vec![Node::Ignore]), para("a")]);
    assert_eq!(tree.compact(), root(vec![root(vec![]), para("a")]));
}

#[test]
fn compact_twice_is_compact_once() {
    let trees = vec![
        root(vec![]),
        root(vec![Node::Ignore]),
        root(vec![Node::Ignore, para("a")]),
        root(vec![para("a"), root(vec![root(vec![para("b")]), Node::Ignore])]),
        root(vec![root(vec![para("a"), para("b")])]),
        para("a"),
        Node::Ignore,
    ];
    for tree in trees.iter() {
        let once = tree.compact();
        assert_eq!(once.compact(), once);
    }
}

#[test]
fn compact_does_not_look_below_other_nodes() {
    let list = Node::List { children: vec![root(vec![para("a")]), Node::Ignore], ordered: false };
    assert_eq!(root(vec![list.duplicate()]).compact(), list);
}

#[test]
fn is_ignore_and_is_list_item_tell_the_variant() {
    assert!(Node::Ignore.is_ignore());
    assert!(!Node::Break.is_ignore());
    assert!(Node::ListItem { children: vec![], spread: false, checked: None }.is_list_item());
    assert!(!para("a").is_list_item());
}

#[test]
fn duplicate_of_a_tree_is_equal() {
    let tree = root(vec![
        Node::List {
            children: vec![Node::ListItem {
                children: vec![para("a")],
                spread: true,
                checked: Some(false),
            }],
            ordered: true,
        },
        Node::CodeBlock { code: "x".to_string(), lang: None },
    ]);
    assert_eq!(tree.duplicate(), tree);
    assert_eq!(tree.clone(), tree);
}
