use xml_tree::builder::{OpenElement, TreeBuilder};
use xml_tree::error::ParseErrorKind;
use xml_tree::parser::parse_xml_to_tree;
use xml_tree::run::build_tree;
use xml_tree::tag::{classify_all, Attribute, Tag, TagKind};
use xml_tree::token::tokenize;
use xml_tree::tree::{append_child, XmlNode, XmlTree};

const SAMPLE: &str = "<root><element1><subelement1/><subelement2 attribute3=\"value3\"><subsubelement/></subelement2></element1><element2><subelement3/></element2></root>";

fn tag(kind: TagKind, name: &str, position: usize) -> Tag {
    Tag { kind, name: name.to_string(), attributes: vec![], position }
}

fn tags_of(text: &str) -> Vec<Tag> {
    classify_all(&tokenize(text).unwrap()).unwrap()
}

#[test]
fn a_new_node_has_no_children() {
    let attributes = vec![Attribute { name: "k".to_string(), value: "v".to_string() }];
    let node = XmlNode::new("a".to_string(), attributes.clone(), Some(3));
    assert_eq!(node.tag, "a");
    assert_eq!(node.attributes, attributes);
    assert_eq!(node.parent, Some(3));
    assert!(node.children.is_empty());
    assert!(!node.is_root());
    assert!(XmlNode::new("r".to_string(), vec![], None).is_root());
}

#[test]
fn a_shared_node_gets_the_next_place() {
    let mut arena: Vec<XmlNode> = vec![];
    let root = XmlNode::shared("r".to_string(), vec![], None, &mut arena);
    let child = XmlNode::shared("c".to_string(), vec![], Some(root), &mut arena);
    assert_eq!((root, child), (0, 1));
    assert_eq!(arena.len(), 2);
    assert_eq!(arena[1].tag, "c");
    assert_eq!(arena[1].parent, Some(0));
    assert!(arena[0].children.is_empty());
    append_child(&mut arena, root, child);
    assert_eq!(arena[0].children, vec![1]);
    assert!(arena[1].children.is_empty());
}

#[test]
fn the_builder_follows_the_tags() {
    let mut builder = TreeBuilder::new();
    assert!(!builder.is_done());
    assert_eq!(builder.depth(), 0);
    assert_eq!(builder.top(), None);

    builder.push_tag(tag(TagKind::Open, "a", 0)).unwrap();
    assert_eq!(builder.depth(), 1);
    assert_eq!(builder.top(), Some(0));
    builder.push_tag(tag(TagKind::SelfClosing, "b", 3)).unwrap();
    assert_eq!(builder.depth(), 1);
    assert_eq!(builder.top(), Some(0));
    builder.push_tag(tag(TagKind::Open, "c", 7)).unwrap();
    assert_eq!(builder.depth(), 2);
    assert_eq!(builder.top(), Some(2));
    assert_eq!(builder.stack, vec![
        OpenElement { node: 0, position: 0 },
        OpenElement { node: 2, position: 7 }
    ]);
    builder.push_tag(tag(TagKind::Close, "c", 10)).unwrap();
    assert_eq!(builder.depth(), 1);
    assert!(!builder.is_done());
    builder.push_tag(tag(TagKind::Close, "a", 14)).unwrap();
    assert!(builder.is_done());
    assert_eq!(builder.depth(), 0);

    let tree = builder.finish().unwrap();
    assert_eq!(tree.len(), 3);
    assert_eq!(tree.nodes[0].children, vec![1, 2]);
    assert_eq!(tree.nodes[1].parent, Some(0));
    assert_eq!(tree.nodes[2].parent, Some(0));
    assert!(tree.nodes[1].children.is_empty());
}

#[test]
fn a_failure_leaves_the_builder_as_it_was() {
    let mut builder = TreeBuilder::new();
    let e = builder.push_tag(tag(TagKind::Close, "a", 4)).unwrap_err();
    assert_eq!(e.kind, ParseErrorKind::OrphanElement);
    assert_eq!((e.position, e.tags), (4, vec!["a".to_string()]));
    let e = builder.push_tag(tag(TagKind::SelfClosing, "a", 5)).unwrap_err();
    assert_eq!(e.kind, ParseErrorKind::OrphanElement);
    assert_eq!((e.position, e.tags), (5, vec!["a".to_string()]));
    assert!(builder.nodes.is_empty());
    assert!(builder.stack.is_empty());

    builder.push_tag(tag(TagKind::Open, "a", 0)).unwrap();
    builder.push_tag(tag(TagKind::Open, "b", 3)).unwrap();
    let nodes = builder.nodes.clone();
    let stack = builder.stack.clone();
    let e = builder.push_tag(tag(TagKind::Close, "a", 6)).unwrap_err();
    assert_eq!(e.kind, ParseErrorKind::MismatchedTag);
    assert_eq!((e.position, e.tags), (6, vec!["b".to_string(), "a".to_string()]));
    assert_eq!(builder.nodes, nodes);
    assert_eq!(builder.stack, stack);

    let e = builder.finish().unwrap_err();
    assert_eq!(e.kind, ParseErrorKind::UnclosedElement);
    assert_eq!((e.position, e.tags), (3, vec!["b".to_string()]));
}

#[test]
fn tags_behind_the_root_change_nothing() {
    let mut builder = TreeBuilder::new();
    builder.push_tag(tag(TagKind::Open, "a", 0)).unwrap();
    builder.push_tag(tag(TagKind::Close, "a", 3)).unwrap();
    assert!(builder.is_done());
    builder.push_tag(tag(TagKind::Close, "a", 7)).unwrap();
    builder.push_tag(tag(TagKind::SelfClosing, "b", 11)).unwrap();
    builder.push_tag(tag(TagKind::Open, "c", 15)).unwrap();
    assert!(builder.is_done());
    let tree = builder.finish().unwrap();
    assert_eq!(tree.len(), 1);
}

#[test]
fn a_builder_without_tags_gives_the_empty_tree() {
    let tree = TreeBuilder::new().finish().unwrap();
    assert!(tree.is_empty());
    assert_eq!(build_tree(vec![]).unwrap(), XmlTree { nodes: vec![] });
}

#[test]
fn building_from_tags_agrees_with_parsing() {
    let built = build_tree(tags_of(SAMPLE)).unwrap();
    let parsed = parse_xml_to_tree(SAMPLE).unwrap();
    assert_eq!(built, parsed);
    let e = build_tree(tags_of("<a><b></a>")).unwrap_err();
    assert_eq!(e, parse_xml_to_tree("<a><b></a>").unwrap_err());
    let e = build_tree(tags_of("<a><b>")).unwrap_err();
    assert_eq!(e, parse_xml_to_tree("<a><b>").unwrap_err());
}

#[test]
fn opening_and_closing_tags_balance() {
    let tags = tags_of(SAMPLE);
    let opening = tags.iter().filter(|t| t.kind == TagKind::Open).count();
    let closing = tags.iter().filter(|t| t.kind == TagKind::Close).count();
    assert_eq!(opening, 4);
    assert_eq!(opening, closing);
    let last = tags.len() - 1;
    let mut builder = TreeBuilder::new();
    for (i, t) in tags.into_iter().enumerate() {
        builder.push_tag(t).unwrap();
        assert_eq!(builder.depth() == 0, i == last);
        assert_eq!(builder.is_done(), i == last);
    }
}

#[test]
fn the_parent_is_the_innermost_open_element() {
    let mut builder = TreeBuilder::new();
    for t in tags_of(SAMPLE) {
        let top = builder.top();
        let made = builder.nodes.len();
        let makes_node = t.kind != TagKind::Close;
        builder.push_tag(t).unwrap();
        if makes_node {
            assert_eq!(builder.nodes.len(), made + 1);
            assert_eq!(builder.nodes[made].parent, top);
            if let Some(p) = top {
                assert_eq!(builder.nodes[p].children.last(), Some(&made));
            }
        } else {
            assert_eq!(builder.nodes.len(), made);
        }
    }
    let tree = builder.finish().unwrap();
    assert_eq!(tree, parse_xml_to_tree(SAMPLE).unwrap());
}

#[test]
fn self_closing_tags_make_leaves() {
    let tags = tags_of(SAMPLE);
    let kinds: Vec<TagKind> =
        tags.iter().filter(|t| t.kind != TagKind::Close).map(|t| t.kind).collect();
    let tree = build_tree(tags).unwrap();
    assert_eq!(tree.len(), kinds.len());
    for (node, kind) in tree.nodes.iter().zip(kinds) {
        if kind == TagKind::SelfClosing {
            assert!(node.children.is_empty());
        }
    }
}
