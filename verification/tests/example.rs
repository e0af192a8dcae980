use regex::Regex;
use xml_tree::tag::TagKind;
use xml_tree::token::tokenize;
use xml_tree::tree::{append_child, NodeId, XmlNode, XmlTree};

const EXAMPLE: &str = "<root><element1><subelement1/><subelement2 attribute3=\"value3\"><subsubelement/></subelement2></element1><element2><subelement3/></element2></root>";

fn to_tags(s: &str) -> Vec<String> {
    tokenize(s).unwrap().into_iter().map(|token| token.text).collect()
}

#[test]
fn hello_world() {
    println!("Hello, world!");
}

#[test]
fn test_parse_xml() {
    let r = Regex::new("(<[^>]+>)").unwrap();
    let matches = r.captures_iter(EXAMPLE).collect::<Vec<_>>();
    let tags = to_tags(EXAMPLE);
    assert_eq!(matches.len(), tags.len());
    for (m, tag) in matches.iter().zip(tags.iter()) {
        let text = m.get(0).unwrap().as_str();
        println!("{text}");
        assert_eq!(text, tag.as_str());
    }
}

#[test]
fn test_to_tag_kind() {
    let tags = to_tags(EXAMPLE);
    println!("{EXAMPLE}");
    let mut kinds = Vec::new();
    for tag in tags {
        let tagkind = TagKind::from(tag.as_str());
        println!("{tagkind:?}");
        kinds.push(tagkind);
    }
    assert_eq!(
        kinds,
        vec![
            TagKind::Open,
            TagKind::Open,
            TagKind::SelfClosing,
            TagKind::Open,
            TagKind::SelfClosing,
            TagKind::Close,
            TagKind::Close,
            TagKind::Open,
            TagKind::SelfClosing,
            TagKind::Close,
            TagKind::Close,
        ]
    );
}

#[test]
fn test_build_tree() {
    let tags = to_tags(EXAMPLE);
    let mut arena: Vec<XmlNode> = vec![];
    let mut stack: Vec<NodeId> = vec![];
    let mut closed_root = false;
    for tag in tags {
        match TagKind::from(tag.as_str()) {
            TagKind::Open => {
                let parent = stack.last().cloned();
                let node = XmlNode::shared(tag, vec![], parent, &mut arena);
                if let Some(p) = parent {
                    append_child(&mut arena, p, node);
                }
                stack.push(node);
            }
            TagKind::Close => {
                let el = stack.pop();
                if let Some(id) = el {
                    if arena[id].tag == "<root>" {
                        let el = XmlTree { nodes: arena.clone() }.render(id);
                        println!("{el}");
                        closed_root = true;
                    }
                }
                if arena[el.unwrap()].tag == "root" {
                    return;
                }
            }
            TagKind::SelfClosing => {
                let parent = stack.last().cloned().unwrap();
                let node = XmlNode::shared(tag, vec![], stack.last().cloned(), &mut arena);
                append_child(&mut arena, parent, node);
            }
        }
    }
    assert!(closed_root);
    assert!(stack.is_empty());
    assert_eq!(arena.len(), 7);
    assert_eq!(arena[0].tag, "<root>");
    assert_eq!(arena[0].parent, None);
    assert_eq!(arena[0].children, vec![1, 5]);
    assert_eq!(arena[1].tag, "<element1>");
    assert_eq!(arena[1].children, vec![2, 3]);
    assert_eq!(arena[3].parent, Some(1));
    assert_eq!(arena[3].children, vec![4]);
    assert_eq!(arena[5].children, vec![6]);
    assert_eq!(arena[6].tag, "<subelement3/>");
    assert_eq!(arena[6].parent, Some(5));
}

/// A small generator of numbers, so that the texts below are the same in
/// every run.
struct Numbers(u64);

impl Numbers {
    fn next(&mut self, below: usize) -> usize {
        self.0 = self.0.wrapping_mul(6364136223846793005).wrapping_add(1442695040888963407);
        ((self.0 >> 33) as usize) % below
    }
}

#[test]
fn tokens_are_the_matches_of_the_pattern_where_nothing_is_quoted() {
    let pattern = Regex::new("(<[^>]+>)").unwrap();
    let letters = ['<', '>', '/', 'a', 'b', ' ', '=', '\n', 'ä'];
    let mut numbers = Numbers(7);
    let mut compared = 0;
    for _ in 0..4000 {
        let length = numbers.next(14);
        let text: String = (0..length).map(|_| letters[numbers.next(letters.len())]).collect();
        let Ok(tokens) = tokenize(&text) else {
            continue;
        };
        if tokens.iter().any(|t| t.text == "<>") {
            continue;
        }
        let found: Vec<&str> = tokens.iter().map(|t| t.text.as_str()).collect();
        let matched: Vec<&str> = pattern.find_iter(&text).map(|m| m.as_str()).collect();
        assert_eq!(found, matched, "{text:?}");
        for (token, m) in tokens.iter().zip(pattern.find_iter(&text)) {
            assert_eq!(token.position, text[..m.start()].chars().count(), "{text:?}");
        }
        compared += 1;
    }
    assert!(compared > 1000);
}
