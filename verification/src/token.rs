//! The tokenizer: cuts a text into its tags and drops what stands between
//! them.
//!
//! A tag begins at a `<` and ends at the first `>` after it that stands
//! outside the quoted values of the tag, so that `<a title="x > y">` is one
//! tag. A `<` whose tag the text does not end is a failure.

use vstd::prelude::*;
use crate::error::{ParseError, ParseErrorKind, ParseErrorModel};
use crate::text::{
    find_first, first_match, is_quote, is_quote_char, lemma_first_match, substring, to_chars,
    CharClass,
};

verus! {

/// The quote that is open after the character `c`, when `quote` was open
/// before it: a quote character opens a value, and only the same character
/// closes it again.
pub open spec fn quote_step(quote: Option<char>, c: char) -> Option<char> {
    match quote {
        Some(q) => if c == q {
            None
        } else {
            quote
        },
        None => if is_quote(c) {
            Some(c)
        } else {
            None
        },
    }
}

/// The quote that is open after `s[from..to]`, when `quote` was open before.
pub open spec fn open_quote(s: Seq<char>, from: int, to: int, quote: Option<char>) -> Option<char>
    decreases to - from,
{
    if to <= from {
        quote
    } else {
        quote_step(open_quote(s, from, to - 1, quote), s[to - 1])
    }
}

/// Whether the character at `at` ends a tag whose inside begins at `from`
/// with `quote` open: it is a `>` and no quote is open when it is reached.
pub open spec fn ends_tag(s: Seq<char>, from: int, at: int, quote: Option<char>) -> bool {
    s[at] == '>' && open_quote(s, from, at, quote) is None
}

/// Index of the `>` that ends a tag, searching from `at` with `quote` open;
/// `None` when the text ends first.
pub open spec fn tag_close(s: Seq<char>, at: int, quote: Option<char>) -> Option<int>
    recommends
        0 <= at,
    decreases s.len() - at,
{
    if at >= s.len() {
        None
    } else if quote is None && s[at] == '>' {
        Some(at)
    } else {
        tag_close(s, at + 1, quote_step(quote, s[at]))
    }
}

/// Reading `s[from..to]` is reading `s[from]` and then `s[from + 1..to]`.
pub proof fn lemma_open_quote_split(s: Seq<char>, from: int, to: int, quote: Option<char>)
    requires
        from < to,
    ensures
        open_quote(s, from, to, quote) == open_quote(
            s,
            from + 1,
            to,
            quote_step(quote, s[from]),
        ),
    decreases to - from,
{
    if from + 1 < to {
        lemma_open_quote_split(s, from, to - 1, quote);
    } else {
        assert(open_quote(s, from, from, quote) == quote);
    }
}

/// `tag_close` is the first character from `at` on that ends the tag, and
/// `None` exactly when no character does.
pub proof fn lemma_tag_close(s: Seq<char>, at: int, quote: Option<char>)
    requires
        0 <= at,
    ensures
        match tag_close(s, at, quote) {
            Some(close) => {
                &&& at <= close < s.len()
                &&& ends_tag(s, at, close, quote)
                &&& forall|i: int| at <= i < close ==> !ends_tag(s, at, i, quote)
            },
            None => forall|i: int| at <= i < s.len() ==> !ends_tag(s, at, i, quote),
        },
    decreases s.len() - at,
{
    if at < s.len() && !(quote is None && s[at] == '>') {
        let next = quote_step(quote, s[at]);
        lemma_tag_close(s, at + 1, next);
        assert forall|i: int| at < i < s.len() implies ends_tag(s, at, i, quote) == ends_tag(
            s,
            at + 1,
            i,
            next,
        ) by {
            lemma_open_quote_split(s, at, i, quote);
        }
    }
}

/// What the tokenizer finds when it looks for the next tag.
#[derive(Clone, Copy, Debug, PartialEq, Eq)]
pub enum Scan {
    /// No tag is left.
    End,
    /// A `<` at `start` opens a tag that the text does not end.
    Unterminated { start: usize },
    /// The next tag is `text[start..end]`.
    Tag { start: usize, end: usize },
}

/// Whether `scan` is the answer to a search in `text` from `from`: the tag
/// begins at the first `<` from there on and ends behind the `>` that closes
/// it.
pub open spec fn is_scan(text: Seq<char>, from: int, scan: Scan) -> bool {
    let open = first_match(text, from, text.len() as int, CharClass::Is('<'));
    match scan {
        Scan::End => open == text.len(),
        Scan::Unterminated { start } => {
            &&& start == open
            &&& open < text.len()
            &&& tag_close(text, open + 1, None) is None
        },
        Scan::Tag { start, end } => {
            &&& start == open
            &&& open < text.len()
            &&& tag_close(text, open + 1, None) == Some(end - 1)
        },
    }
}

/// Finds the `>` that ends a tag, searching `s` from `at` with `quote` open.
pub fn find_tag_close(s: &Vec<char>, at: usize, quote: Option<char>) -> (close: Option<usize>)
    ensures
        match close {
            Some(c) => tag_close(s@, at as int, quote) == Some(c as int) && at <= c < s.len(),
            None => tag_close(s@, at as int, quote) is None,
        },
{
    let mut i: usize = at;
    let mut open: Option<char> = quote;
    while i < s.len()
        invariant
            at <= i,
            tag_close(s@, at as int, quote) == tag_close(s@, i as int, open),
        decreases s.len() - i,
    {
        let c = s[i];
        match open {
            Some(q) => {
                if c == q {
                    open = None;
                }
            },
            None => {
                if c == '>' {
                    return Some(i);
                }
                if is_quote_char(c) {
                    open = Some(c);
                }
            },
        }
        i += 1;
    }
    None
}

/// Looks for the next tag of `text` at or after `from`.
///
/// The search can be taken up again behind the tag that was found, or begun
/// anew at any place.
pub fn scan_tag(text: &Vec<char>, from: usize) -> (scan: Scan)
    ensures
        is_scan(text@, from as int, scan),
        scan matches Scan::Tag { start, end } ==> from <= start && start + 2 <= end <= text.len(),
        scan matches Scan::Unterminated { start } ==> from <= start < text.len(),
{
    if from > text.len() {
        return Scan::End;
    }
    let start = find_first(text, from, text.len(), CharClass::Is('<'));
    if start >= text.len() {
        return Scan::End;
    }
    match find_tag_close(text, start + 1, None) {
        Some(close) => Scan::Tag { start, end: close + 1 },
        None => Scan::Unterminated { start },
    }
}

/// One tag of a text.
#[derive(Clone, Debug, PartialEq, Eq)]
pub struct TagToken {
    /// The tag as written, from its `<` to its `>`.
    pub text: String,
    /// Index, in characters, of the `<` in the text that was tokenized.
    pub position: usize,
}

/// The mathematical value of a `TagToken`.
pub struct TagTokenModel {
    pub text: Seq<char>,
    pub position: int,
}

impl View for TagToken {
    type V = TagTokenModel;

    open spec fn view(&self) -> TagTokenModel {
        TagTokenModel { text: self.text@, position: self.position as int }
    }
}

/// The values of a sequence of tokens.
pub open spec fn tokens_of(tokens: Seq<TagToken>) -> Seq<TagTokenModel> {
    tokens.map_values(|t: TagToken| t@)
}

/// The tags of `text` from `from` on, in the order in which they stand, or
/// the failure of the first `<` whose tag the text does not end.
pub open spec fn tokens_from(text: Seq<char>, from: int) -> Result<
    Seq<TagTokenModel>,
    ParseErrorModel,
>
    recommends
        0 <= from <= text.len(),
    decreases text.len() - from,
{
    let open = first_match(text, from, text.len() as int, CharClass::Is('<'));
    if from < 0 || from > text.len() || open >= text.len() {
        Ok(Seq::empty())
    } else {
        match tag_close(text, open + 1, None) {
            None => Err(
                ParseErrorModel {
                    kind: ParseErrorKind::Tokenize,
                    position: open,
                    tags: Seq::empty(),
                },
            ),
            Some(close) => {
                proof {
                    lemma_first_match(text, from, text.len() as int, CharClass::Is('<'));
                    lemma_tag_close(text, open + 1, None);
                }
                match tokens_from(text, close + 1) {
                    Err(e) => Err(e),
                    Ok(rest) => Ok(
                        seq![TagTokenModel { text: text.subrange(open, close + 1), position: open }]
                            + rest,
                    ),
                }
            },
        }
    }
}

/// Whether `token` is a tag of `text`: it holds the characters that stand
/// at its place, from a `<` to the `>` that ends the tag begun there.
pub open spec fn is_tag_of(text: Seq<char>, token: TagTokenModel) -> bool {
    let end = token.position + token.text.len();
    &&& 0 <= token.position
    &&& token.position + 2 <= end <= text.len()
    &&& token.text == text.subrange(token.position, end)
    &&& text[token.position] == '<'
    &&& tag_close(text, token.position + 1, None) == Some(end - 1)
}

/// The tokens are the tags of the text, in the order in which they stand:
/// each is a tag at or after `from`, none reaches into the next, and every
/// `<` from `from` on lies in one of them, so that what is passed over
/// begins no tag.
pub proof fn lemma_tokens_are_the_tags(text: Seq<char>, from: int)
    requires
        0 <= from <= text.len(),
    ensures
        tokens_from(text, from) matches Ok(tokens) ==> {
            &&& forall|i: int|
                0 <= i < tokens.len() ==> is_tag_of(text, #[trigger] tokens[i]) && from
                    <= tokens[i].position
            &&& forall|i: int, j: int|
                0 <= i < j < tokens.len() ==> (#[trigger] tokens[i]).position
                    + tokens[i].text.len() <= (#[trigger] tokens[j]).position
            &&& forall|p: int|
                from <= p < text.len() && text[p] == '<' ==> exists|i: int|
                    0 <= i < tokens.len() && (#[trigger] tokens[i]).position <= p
                        < tokens[i].position + tokens[i].text.len()
        },
    decreases text.len() - from,
{
    let open = first_match(text, from, text.len() as int, CharClass::Is('<'));
    lemma_first_match(text, from, text.len() as int, CharClass::Is('<'));
    if open < text.len() {
        match tag_close(text, open + 1, None) {
            None => {},
            Some(close) => {
                lemma_tag_close(text, open + 1, None);
                lemma_tokens_are_the_tags(text, close + 1);
                match tokens_from(text, close + 1) {
                    Err(_) => {},
                    Ok(rest) => {
                        // The first token is the tag at `open`; the others
                        // are those of the text behind it.
                        let tokens = tokens_from(text, from)->Ok_0;
                        assert forall|i: int| 0 < i < tokens.len() implies tokens[i] == rest[i
                            - 1] by {}
                        assert forall|i: int| 0 <= i < tokens.len() implies is_tag_of(
                            text,
                            #[trigger] tokens[i],
                        ) && from <= tokens[i].position by {}
                        assert forall|i: int, j: int| 0 <= i < j < tokens.len() implies (
                        #[trigger] tokens[i]).position + tokens[i].text.len() <= (
                        #[trigger] tokens[j]).position by {}
                        assert forall|p: int|
                            from <= p < text.len() && text[p] == '<' implies exists|i: int|
                            0 <= i < tokens.len() && (#[trigger] tokens[i]).position <= p
                                < tokens[i].position + tokens[i].text.len() by {
                            if p <= close {
                                assert(tokens[0].position <= p < tokens[0].position
                                    + tokens[0].text.len());
                            } else {
                                let i = choose|i: int|
                                    0 <= i < rest.len() && (#[trigger] rest[i]).position <= p
                                        < rest[i].position + rest[i].text.len();
                                assert(tokens[i + 1].position <= p < tokens[i + 1].position
                                    + tokens[i + 1].text.len());
                            }
                        }
                    },
                }
            },
        }
    }
}

/// The tags of a whole text.
pub open spec fn tokens_spec(text: Seq<char>) -> Result<Seq<TagTokenModel>, ParseErrorModel> {
    tokens_from(text, 0)
}

/// `found`, followed by what the rest of the text gives.
pub open spec fn tokens_after(
    found: Seq<TagTokenModel>,
    rest: Result<Seq<TagTokenModel>, ParseErrorModel>,
) -> Result<Seq<TagTokenModel>, ParseErrorModel> {
    match rest {
        Ok(more) => Ok(found + more),
        Err(e) => Err(e),
    }
}

/// Cuts `text` into its tags.
///
/// Gives the tags in the order in which they stand, each with its place, and
/// fails with `Tokenize` at the first `<` whose tag the text does not end.
pub fn tokenize(text: &str) -> (tokens: Result<Vec<TagToken>, ParseError>)
    ensures
        match tokens {
            Ok(found) => tokens_spec(text@) == Ok::<_, ParseErrorModel>(tokens_of(found@)),
            Err(e) => tokens_spec(text@) == Err::<Seq<TagTokenModel>, _>(e@),
        },
{
    let chars = to_chars(text);
    let mut found: Vec<TagToken> = Vec::new();
    let mut from: usize = 0;
    loop
        invariant
            chars@ == text@,
            from <= chars.len(),
            tokens_spec(text@) == tokens_after(tokens_of(found@), tokens_from(chars@, from as int)),
        decreases chars.len() - from,
    {
        match scan_tag(&chars, from) {
            Scan::End => {
                return Ok(found);
            },
            Scan::Unterminated { start } => {
                return Err(ParseError::unnamed(ParseErrorKind::Tokenize, start));
            },
            Scan::Tag { start, end } => {
                let token = TagToken { text: substring(&chars, start, end), position: start };
                proof {
                    let first = seq![token@];
                    let rest = tokens_from(chars@, end as int);
                    assert(tokens_of(found@.push(token)) =~= tokens_of(found@) + first);
                    if rest is Ok {
                        assert((tokens_of(found@) + first) + rest->Ok_0 =~= tokens_of(found@) + (
                        first + rest->Ok_0));
                    }
                }
                found.push(token);
                from = end;
            },
        }
    }
}

} // verus!
