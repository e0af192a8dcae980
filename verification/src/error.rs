//! The failures that parsing can report.

use vstd::prelude::*;

verus! {

/// What went wrong.
#[derive(Clone, Copy, Debug, PartialEq, Eq, Structural)]
pub enum ParseErrorKind {
    /// A `<` that no `>` closes before the text ends.
    Tokenize,
    /// A tag whose name is empty or holds a character that no name can hold.
    TagName,
    /// Attributes that are not a run of `name="value"` pairs.
    AttributeParse,
    /// A self-closing or closing tag that no open element encloses.
    OrphanElement,
    /// A closing tag whose name is not that of the innermost open element.
    MismatchedTag,
    /// The text ended while elements were still open.
    UnclosedElement,
}

/// A failure, with the place of the tag that caused it and the element names
/// involved.
#[derive(Clone, Debug, PartialEq, Eq)]
pub struct ParseError {
    pub kind: ParseErrorKind,
    /// Index, in characters, of the `<` of the offending tag.
    pub position: usize,
    /// The names involved: none for `Tokenize`; the name as written for
    /// `TagName`; the name of the tag for `AttributeParse` and
    /// `OrphanElement`; the name of the open element and then that of the
    /// closing tag for `MismatchedTag`; the name of the innermost open
    /// element for `UnclosedElement`.
    pub tags: Vec<String>,
}

/// The mathematical value of a `ParseError`.
pub struct ParseErrorModel {
    pub kind: ParseErrorKind,
    pub position: int,
    pub tags: Seq<Seq<char>>,
}

/// The character sequences that a sequence of strings holds.
pub open spec fn names_of(tags: Seq<String>) -> Seq<Seq<char>> {
    tags.map_values(|t: String| t@)
}

impl View for ParseError {
    type V = ParseErrorModel;

    open spec fn view(&self) -> ParseErrorModel {
        ParseErrorModel {
            kind: self.kind,
            position: self.position as int,
            tags: names_of(self.tags@),
        }
    }
}

impl ParseError {
    /// A failure that involves no name.
    pub fn unnamed(kind: ParseErrorKind, position: usize) -> (e: ParseError)
        ensures
            e@ == (ParseErrorModel { kind, position: position as int, tags: Seq::empty() }),
    {
        let e = ParseError { kind, position, tags: Vec::new() };
        assert(e@.tags =~= Seq::empty());
        e
    }

    /// A failure that involves one name.
    pub fn named(kind: ParseErrorKind, position: usize, tag: String) -> (e: ParseError)
        ensures
            e@ == (ParseErrorModel { kind, position: position as int, tags: seq![tag@] }),
    {
        let mut tags: Vec<String> = Vec::new();
        tags.push(tag);
        let e = ParseError { kind, position, tags };
        assert(e@.tags =~= seq![tag@]);
        e
    }

    /// A failure that involves two names.
    pub fn named_pair(kind: ParseErrorKind, position: usize, first: String, second: String) -> (e:
        ParseError)
        ensures
            e@ == (ParseErrorModel {
                kind,
                position: position as int,
                tags: seq![first@, second@],
            }),
    {
        let mut tags: Vec<String> = Vec::new();
        tags.push(first);
        tags.push(second);
        let e = ParseError { kind, position, tags };
        assert(e@.tags =~= seq![first@, second@]);
        e
    }
}

} // verus!
