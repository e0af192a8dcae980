//! The whole way from a text to its tree.

use vstd::prelude::*;
use crate::builder::{finish, step, BuilderModel, TreeBuilder};
use crate::error::{ParseError, ParseErrorKind, ParseErrorModel};
use crate::run::{
    build_spec, count_kind, element_tags, feed, lemma_balanced_run, lemma_feed_done,
    lemma_nodes_follow_tags, takes_all,
};
use crate::tag::{
    classify_all_spec, classify_chars, classify_spec, lemma_classified_tag, unique_names,
    valid_tags, TagKind, TagModel,
};
use crate::text::{copy_range, first_match, lemma_first_match, to_chars, CharClass};
use crate::token::{lemma_tag_close, scan_tag, tag_close, tokens_from, Scan};
use crate::tree::{tree_wf, NodeModel, XmlTree};

verus! {

/// The outcome of reading `text` from `from` on with the builder in state
/// `s`.
///
/// The tags are taken one after the other: each is cut out of the text,
/// read, and handed to the builder, and the first failure of any of the
/// three ends the reading. The reading also ends, with the tree, as soon as
/// the root is closed: what follows the root is not looked at. When the text
/// runs out before that, an element that is still open is the failure
/// `UnclosedElement`, and a text without any tag gives the empty tree.
pub open spec fn parse_from(text: Seq<char>, from: int, s: BuilderModel) -> Result<
    Seq<NodeModel>,
    ParseErrorModel,
>
    recommends
        0 <= from <= text.len(),
    decreases text.len() - from,
{
    let open = first_match(text, from, text.len() as int, CharClass::Is('<'));
    if s.done() {
        Ok(s.nodes)
    } else if from < 0 || from > text.len() || open >= text.len() {
        finish(s)
    } else {
        match tag_close(text, open + 1, None) {
            None => Err(
                ParseErrorModel {
                    kind: ParseErrorKind::Tokenize,
                    position: open,
                    tags: Seq::empty(),
                },
            ),
            Some(close) => match classify_spec(text.subrange(open, close + 1), open) {
                Err(e) => Err(e),
                Ok(tag) => match step(s, tag) {
                    Err(e) => Err(e),
                    Ok(next) => {
                        proof {
                            lemma_first_match(text, from, text.len() as int, CharClass::Is('<'));
                            lemma_tag_close(text, open + 1, None);
                        }
                        parse_from(text, close + 1, next)
                    },
                },
            },
        }
    }
}

/// The tree of `text`, or the first failure met on the way.
pub open spec fn parse_spec(text: Seq<char>) -> Result<Seq<NodeModel>, ParseErrorModel> {
    parse_from(text, 0, BuilderModel::empty())
}

/// The tags that the reading of `text`, from `from` on in state `s`, hands
/// to the builder: those up to the closing tag of the root, or up to the
/// first failure, or all when the text runs out first.
pub open spec fn tags_read(text: Seq<char>, from: int, s: BuilderModel) -> Seq<TagModel>
    recommends
        0 <= from <= text.len(),
    decreases text.len() - from,
{
    let open = first_match(text, from, text.len() as int, CharClass::Is('<'));
    if s.done() || from < 0 || from > text.len() || open >= text.len() {
        Seq::empty()
    } else {
        match tag_close(text, open + 1, None) {
            None => Seq::empty(),
            Some(close) => match classify_spec(text.subrange(open, close + 1), open) {
                Err(_) => Seq::empty(),
                Ok(tag) => match step(s, tag) {
                    Err(_) => seq![tag],
                    Ok(next) => {
                        proof {
                            lemma_first_match(text, from, text.len() as int, CharClass::Is('<'));
                            lemma_tag_close(text, open + 1, None);
                        }
                        seq![tag] + tags_read(text, close + 1, next)
                    },
                },
            },
        }
    }
}

/// Reading a text is running the builder over the tags read: they are
/// valid, the builder takes each of them, and it ends where the reading
/// ends, with the same failure if one of the tags is a failure to the
/// builder.
pub proof fn lemma_reading_feeds_builder(text: Seq<char>, from: int, s: BuilderModel)
    requires
        0 <= from <= text.len(),
    ensures
        valid_tags(tags_read(text, from, s)),
        takes_all(s, tags_read(text, from, s)),
        parse_from(text, from, s) matches Ok(nodes) ==> {
            &&& feed(s, tags_read(text, from, s)) matches Ok(last)
            &&& finish(last) == Ok::<_, ParseErrorModel>(nodes)
        },
        feed(s, tags_read(text, from, s)) matches Err(e) ==> parse_from(text, from, s) == Err::<
            Seq<NodeModel>,
            _,
        >(e),
    decreases text.len() - from,
{
    let open = first_match(text, from, text.len() as int, CharClass::Is('<'));
    let tags = tags_read(text, from, s);
    if s.done() || open >= text.len() {
    } else {
        match tag_close(text, open + 1, None) {
            None => {},
            Some(close) => {
                lemma_first_match(text, from, text.len() as int, CharClass::Is('<'));
                lemma_tag_close(text, open + 1, None);
                lemma_classified_tag(text.subrange(open, close + 1), open);
                match classify_spec(text.subrange(open, close + 1), open) {
                    Err(_) => {},
                    Ok(tag) => {
                        match step(s, tag) {
                            Err(_) => {},
                            Ok(next) => {
                                lemma_reading_feeds_builder(text, close + 1, next);
                                let rest = tags_read(text, close + 1, next);
                                assert(tags.drop_first() =~= rest);
                                assert forall|i: int| 0 <= i < tags.len() implies unique_names(
                                    (#[trigger] tags[i]).attributes,
                                ) by {}
                            },
                        }
                    },
                }
            },
        }
    }
}

/// A text that gives a tree with a root is balanced: among the tags read,
/// which the builder takes one and all, there are as many opening tags as
/// closing ones. The tree is the one that the builder makes of these tags:
/// it is well-formed, and its nodes are the opening and self-closing tags
/// in their order, each with the name and the attributes of its tag.
pub proof fn lemma_parsed_text(text: Seq<char>)
    requires
        parse_spec(text) matches Ok(nodes) && nodes.len() > 0,
    ensures
        ({
            let tags = tags_read(text, 0, BuilderModel::empty());
            let nodes = parse_spec(text)->Ok_0;
            let made = element_tags(tags);
            &&& valid_tags(tags)
            &&& takes_all(BuilderModel::empty(), tags)
            &&& build_spec(tags) == parse_spec(text)
            &&& count_kind(tags, TagKind::Open) == count_kind(tags, TagKind::Close)
            &&& tree_wf(nodes)
            &&& nodes.len() == made.len()
            &&& forall|i: int|
                0 <= i < nodes.len() ==> {
                    &&& (#[trigger] nodes[i]).tag == made[i].name
                    &&& nodes[i].attributes == made[i].attributes
                    &&& made[i].kind is SelfClosing ==> nodes[i].children.len() == 0
                }
        }),
{
    let tags = tags_read(text, 0, BuilderModel::empty());
    lemma_reading_feeds_builder(text, 0, BuilderModel::empty());
    lemma_balanced_run(tags);
    lemma_nodes_follow_tags(tags);
}

/// Reading a text step by step gives what the three stages give one after
/// the other: when the text can be cut into tokens and every token can be
/// read, the outcome is that of the builder on the tags of all the tokens.
pub proof fn lemma_stages_compose(text: Seq<char>, from: int, s: BuilderModel)
    requires
        0 <= from <= text.len(),
        tokens_from(text, from) matches Ok(tokens) && classify_all_spec(tokens) is Ok,
    ensures
        parse_from(text, from, s) == match feed(
            s,
            classify_all_spec(tokens_from(text, from)->Ok_0)->Ok_0,
        ) {
            Err(e) => Err(e),
            Ok(last) => finish(last),
        },
    decreases text.len() - from,
{
    let open = first_match(text, from, text.len() as int, CharClass::Is('<'));
    let tokens = tokens_from(text, from)->Ok_0;
    let tags = classify_all_spec(tokens)->Ok_0;
    if s.done() {
        lemma_feed_done(s, tags);
    } else if open < text.len() {
        lemma_first_match(text, from, text.len() as int, CharClass::Is('<'));
        lemma_tag_close(text, open + 1, None);
        let close = tag_close(text, open + 1, None)->Some_0;
        let rest = tokens_from(text, close + 1)->Ok_0;
        assert(tokens.drop_first() =~= rest);
        let tag = classify_spec(text.subrange(open, close + 1), open)->Ok_0;
        assert(tags.drop_first() =~= classify_all_spec(rest)->Ok_0);
        match step(s, tag) {
            Err(_) => {},
            Ok(next) => {
                lemma_stages_compose(text, close + 1, next);
            },
        }
    }
}

/// Builds the tree of the elements of `xml_text`.
///
/// Reads the text tag by tag until the root is closed and gives the tree,
/// which is well-formed. What follows the closing tag of the root is not
/// looked at, and a text without any tag gives the empty tree. The first
/// thing that goes wrong on the way is the failure:
///
/// - `Tokenize`: a `<` whose tag the text does not end;
/// - `TagName`: a tag without a valid name;
/// - `AttributeParse`: an opening or self-closing tag whose name is not
///   followed by a run of attributes;
/// - `OrphanElement`: a self-closing or closing tag while no element is
///   open;
/// - `MismatchedTag`: a closing tag that does not carry the name of the
///   innermost open element;
/// - `UnclosedElement`: the end of the text while an element is open.
///
/// `parse_spec` says the same exactly.
pub fn parse_xml_to_tree(xml_text: &str) -> (tree: Result<XmlTree, ParseError>)
    ensures
        match tree {
            Ok(t) => parse_spec(xml_text@) == Ok::<_, ParseErrorModel>(t@) && t.wf(),
            Err(e) => parse_spec(xml_text@) == Err::<Seq<NodeModel>, _>(e@),
        },
{
    let text = to_chars(xml_text);
    let mut builder = TreeBuilder::new();
    let mut from: usize = 0;
    loop
        invariant
            text@ == xml_text@,
            from <= text.len(),
            builder@.wf(),
            parse_spec(xml_text@) == parse_from(text@, from as int, builder@),
        decreases text.len() - from,
    {
        if builder.is_done() {
            return builder.finish();
        }
        match scan_tag(&text, from) {
            Scan::End => {
                return builder.finish();
            },
            Scan::Unterminated { start } => {
                return Err(ParseError::unnamed(ParseErrorKind::Tokenize, start));
            },
            Scan::Tag { start, end } => {
                let token = copy_range(&text, start, end);
                match classify_chars(&token, start) {
                    Err(e) => {
                        return Err(e);
                    },
                    Ok(tag) => {
                        match builder.push_tag(tag) {
                            Err(e) => {
                                return Err(e);
                            },
                            Ok(_) => {},
                        }
                    },
                }
                from = end;
            },
        }
    }
}

} // verus!
