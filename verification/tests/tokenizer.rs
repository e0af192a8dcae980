use xml_tree::error::ParseErrorKind;
use xml_tree::text::{copy_range, find_first, substring, to_chars, CharClass};
use xml_tree::token::{find_tag_close, scan_tag, tokenize, Scan, TagToken};

fn texts(tokens: &[TagToken]) -> Vec<&str> {
    tokens.iter().map(|t| t.text.as_str()).collect()
}

fn positions(tokens: &[TagToken]) -> Vec<usize> {
    tokens.iter().map(|t| t.position).collect()
}

#[test]
fn tokens_come_in_the_order_of_the_text() {
    let tokens = tokenize("<a>text<b/> more </a>").unwrap();
    assert_eq!(texts(&tokens), vec!["<a>", "<b/>", "</a>"]);
    assert_eq!(positions(&tokens), vec![0, 7, 17]);
}

#[test]
fn a_text_without_tags_has_no_tokens() {
    assert!(tokenize("").unwrap().is_empty());
    assert!(tokenize("a > b").unwrap().is_empty());
}

#[test]
fn a_bracket_in_a_quoted_value_does_not_end_the_tag() {
    let tokens = tokenize("<tag1 attr=\"<<<>>>>>\"/><dfs></dfs>").unwrap();
    assert_eq!(texts(&tokens), vec!["<tag1 attr=\"<<<>>>>>\"/>", "<dfs>", "</dfs>"]);
    assert_eq!(positions(&tokens), vec![0, 23, 28]);
}

#[test]
fn only_the_same_quote_closes_a_value() {
    let tokens = tokenize("<a b='\">' c=\"'>\">x</a>").unwrap();
    assert_eq!(texts(&tokens), vec!["<a b='\">' c=\"'>\">", "</a>"]);
}

#[test]
fn quotes_between_tags_are_plain_text() {
    let tokens = tokenize("<a>it's \"<b>\"</a>").unwrap();
    assert_eq!(texts(&tokens), vec!["<a>", "<b>", "</a>"]);
}

#[test]
fn a_tag_that_the_text_does_not_end_is_a_failure() {
    let e = tokenize("<a><b").unwrap_err();
    assert_eq!(e.kind, ParseErrorKind::Tokenize);
    assert_eq!(e.position, 3);
    assert!(e.tags.is_empty());
    let e = tokenize("<a b=\"x>").unwrap_err();
    assert_eq!(e.kind, ParseErrorKind::Tokenize);
    assert_eq!(e.position, 0);
    assert_eq!(tokenize("<").unwrap_err().position, 0);
}

#[test]
fn an_empty_tag_is_a_token() {
    let tokens = tokenize("<><a>").unwrap();
    assert_eq!(texts(&tokens), vec!["<>", "<a>"]);
}

#[test]
fn a_second_opening_bracket_belongs_to_the_tag() {
    let tokens = tokenize("<a <b>").unwrap();
    assert_eq!(texts(&tokens), vec!["<a <b>"]);
}

#[test]
fn positions_count_characters() {
    let tokens = tokenize("äö<a>€<b/>").unwrap();
    assert_eq!(positions(&tokens), vec![2, 6]);
    assert_eq!(texts(&tokens), vec!["<a>", "<b/>"]);
}

#[test]
fn the_search_can_begin_anywhere() {
    let text = to_chars("<a>x<b>");
    assert_eq!(scan_tag(&text, 0), Scan::Tag { start: 0, end: 3 });
    assert_eq!(scan_tag(&text, 1), Scan::Tag { start: 4, end: 7 });
    assert_eq!(scan_tag(&text, 3), Scan::Tag { start: 4, end: 7 });
    assert_eq!(scan_tag(&text, 5), Scan::End);
    assert_eq!(scan_tag(&text, 7), Scan::End);
    assert_eq!(scan_tag(&text, 0), Scan::Tag { start: 0, end: 3 });
    let open = to_chars("<a><b c='>");
    assert_eq!(scan_tag(&open, 1), Scan::Unterminated { start: 3 });
}

#[test]
fn the_closing_bracket_is_sought_outside_quotes() {
    let text = to_chars("a='>'>b>");
    assert_eq!(find_tag_close(&text, 0, None), Some(5));
    assert_eq!(find_tag_close(&text, 6, None), Some(7));
    assert_eq!(find_tag_close(&text, 0, Some('"')), None);
    assert_eq!(find_tag_close(&text, 3, Some('\'')), Some(5));
    assert_eq!(find_tag_close(&text, 8, None), None);
    assert_eq!(find_tag_close(&text, 20, None), None);
}

#[test]
fn characters_go_to_and_from_strings() {
    let chars = to_chars("<ä b>");
    assert_eq!(chars, vec!['<', 'ä', ' ', 'b', '>']);
    assert_eq!(substring(&chars, 1, 4), "ä b");
    assert_eq!(substring(&chars, 2, 2), "");
    assert_eq!(substring(&chars, 0, 5), "<ä b>");
    assert_eq!(copy_range(&chars, 3, 5), vec!['b', '>']);
}

#[test]
fn the_first_character_of_a_class_is_found() {
    let chars = to_chars("ab \t=c'");
    assert_eq!(find_first(&chars, 0, 7, CharClass::Space), 2);
    assert_eq!(find_first(&chars, 2, 7, CharClass::NonSpace), 4);
    assert_eq!(find_first(&chars, 0, 7, CharClass::NonName), 2);
    assert_eq!(find_first(&chars, 5, 7, CharClass::NonName), 6);
    assert_eq!(find_first(&chars, 0, 7, CharClass::Is('c')), 5);
    assert_eq!(find_first(&chars, 0, 5, CharClass::Is('c')), 5);
    assert_eq!(find_first(&chars, 0, 7, CharClass::Is('x')), 7);
    assert_eq!(find_first(&chars, 3, 3, CharClass::Space), 3);
    assert!(CharClass::Space.test('\n'));
    assert!(CharClass::Space.test('\r'));
    assert!(!CharClass::Space.test('\u{a0}'));
    assert!(CharClass::NonName.test('/'));
    assert!(CharClass::NonName.test('<'));
    assert!(CharClass::NonName.test('>'));
    assert!(CharClass::NonName.test('"'));
    assert!(!CharClass::NonName.test('-'));
}
