use xml_tree::error::{ParseError, ParseErrorKind};
use xml_tree::tag::{
    classify, classify_all, enter_attribute, find_attribute, Attribute, Tag, TagKind,
};
use xml_tree::token::{tokenize, TagToken};

fn read(text: &str) -> Result<Tag, ParseError> {
    classify(&TagToken { text: text.to_string(), position: 11 })
}

fn pairs(tag: &Tag) -> Vec<(&str, &str)> {
    tag.attributes.iter().map(|a| (a.name.as_str(), a.value.as_str())).collect()
}

fn attribute(name: &str, value: &str) -> Attribute {
    Attribute { name: name.to_string(), value: value.to_string() }
}

#[test]
fn the_kind_goes_by_the_slashes() {
    assert_eq!(TagKind::from("<a>"), TagKind::Open);
    assert_eq!(TagKind::from("</a>"), TagKind::Close);
    assert_eq!(TagKind::from("<a/>"), TagKind::SelfClosing);
    assert_eq!(TagKind::from("<a b=\"/\">"), TagKind::Open);
    assert_eq!(TagKind::from("<a b=\"1\" />"), TagKind::SelfClosing);
    assert_eq!(TagKind::from("</a/>"), TagKind::Close);
    assert_eq!(TagKind::from("</>"), TagKind::Close);
    assert_eq!(TagKind::from("<>"), TagKind::Open);
    assert_eq!(TagKind::from("<ä/>"), TagKind::SelfClosing);
    assert_eq!(TagKind::from(""), TagKind::Open);
    assert_eq!(TagKind::from("/"), TagKind::Open);
    let chars: Vec<char> = "<é/>".chars().collect();
    assert_eq!(TagKind::of(&chars), TagKind::SelfClosing);
}

#[test]
fn an_opening_tag_has_a_name_and_attributes() {
    let tag = read("<item id=\"7\" class='wide'>").unwrap();
    assert_eq!(tag.kind, TagKind::Open);
    assert_eq!(tag.name, "item");
    assert_eq!(tag.position, 11);
    assert_eq!(pairs(&tag), vec![("id", "7"), ("class", "wide")]);
}

#[test]
fn a_self_closing_tag_has_a_name_and_attributes() {
    let tag = read("<item id=\"7\"/>").unwrap();
    assert_eq!(tag.kind, TagKind::SelfClosing);
    assert_eq!(tag.name, "item");
    assert_eq!(pairs(&tag), vec![("id", "7")]);
    let tag = read("<item />").unwrap();
    assert_eq!(tag.kind, TagKind::SelfClosing);
    assert_eq!(tag.name, "item");
    assert!(tag.attributes.is_empty());
}

#[test]
fn a_closing_tag_has_a_name_and_no_attributes() {
    let tag = read("</item>").unwrap();
    assert_eq!(tag.kind, TagKind::Close);
    assert_eq!(tag.name, "item");
    assert!(tag.attributes.is_empty());
    let tag = read("</item id=\"7\">").unwrap();
    assert_eq!(tag.name, "item");
    assert!(tag.attributes.is_empty());
    let tag = read("</item\n>").unwrap();
    assert_eq!(tag.name, "item");
}

#[test]
fn white_space_of_any_kind_separates() {
    let tag = read("<a\tb=\"1\"\n  c='2'\r\n>").unwrap();
    assert_eq!(tag.name, "a");
    assert_eq!(pairs(&tag), vec![("b", "1"), ("c", "2")]);
}

#[test]
fn a_value_may_be_empty_or_hold_markup() {
    let tag = read("<a b=\"\" c='<x y=\"1\"/>' d=\"it's\">").unwrap();
    assert_eq!(pairs(&tag), vec![("b", ""), ("c", "<x y=\"1\"/>"), ("d", "it's")]);
}

#[test]
fn a_later_value_replaces_the_first() {
    let tag = read("<a b=\"1\" c=\"2\" b=\"3\">").unwrap();
    assert_eq!(pairs(&tag), vec![("b", "3"), ("c", "2")]);
}

#[test]
fn an_empty_name_is_refused() {
    for text in ["<>", "</>", "< a>", "</ a>", "", "<", "</", "/>", "<\t/>"] {
        let e = read(text).unwrap_err();
        assert_eq!(e.kind, ParseErrorKind::TagName, "{text}");
        assert_eq!(e.position, 11);
        assert_eq!(e.tags, vec![""]);
    }
}

#[test]
fn a_name_with_markup_in_it_is_refused() {
    for (text, name) in [
        ("<a=b>", "a=b"),
        ("<a/b>", "a/b"),
        ("<a\"b\">", "a\"b\""),
        ("<a<b c=\"1\">", "a<b"),
        ("</a/>", "a/"),
        ("<a'>", "a'"),
        ("<a>>", "a>"),
    ] {
        let e = read(text).unwrap_err();
        assert_eq!(e.kind, ParseErrorKind::TagName, "{text}");
        assert_eq!(e.tags, vec![name]);
    }
}

#[test]
fn malformed_attributes_are_refused() {
    for text in [
        "<a b>",
        "<a b=>",
        "<a b=1>",
        "<a b =\"1\">",
        "<a b= \"1\">",
        "<a =\"1\">",
        "<a b=\"1>",
        "<a b='1\">",
        "<a b=\"1\"c=\"2\">",
        "<a b=\"1\" c>",
        "<a b=\"1\"/ >",
        "<a \"1\">",
    ] {
        let e = read(text).unwrap_err();
        assert_eq!(e.kind, ParseErrorKind::AttributeParse, "{text}");
        assert_eq!(e.position, 11);
        assert_eq!(e.tags, vec!["a"]);
    }
}

#[test]
fn attributes_are_entered_like_into_a_map() {
    let mut attributes = vec![attribute("a", "1"), attribute("b", "2")];
    assert_eq!(find_attribute(&attributes, &"b".to_string()), 1);
    assert_eq!(find_attribute(&attributes, &"c".to_string()), 2);
    enter_attribute(&mut attributes, attribute("c", "3"));
    enter_attribute(&mut attributes, attribute("a", "4"));
    assert_eq!(attributes, vec![attribute("a", "4"), attribute("b", "2"), attribute("c", "3")]);
}

#[test]
fn tokens_are_read_in_their_order() {
    let tokens = tokenize("<a x='1'><b/></a>").unwrap();
    let tags = classify_all(&tokens).unwrap();
    let seen: Vec<(TagKind, &str, usize)> =
        tags.iter().map(|t| (t.kind, t.name.as_str(), t.position)).collect();
    assert_eq!(
        seen,
        vec![(TagKind::Open, "a", 0), (TagKind::SelfClosing, "b", 9), (TagKind::Close, "a", 13)]
    );
    assert_eq!(pairs(&tags[0]), vec![("x", "1")]);
    assert!(classify_all(&Vec::new()).unwrap().is_empty());
}

#[test]
fn the_first_token_that_cannot_be_read_is_the_failure() {
    let tokens = tokenize("<a>< ><b c></a>").unwrap();
    let e = classify_all(&tokens).unwrap_err();
    assert_eq!(e.kind, ParseErrorKind::TagName);
    assert_eq!(e.position, 3);
}
