//! The classifier: reads the kind, the name and the attributes of one tag.

use vstd::prelude::*;
use crate::error::{ParseError, ParseErrorKind, ParseErrorModel};
use crate::text::{
    find_first, first_match, is_name_char, is_name_character, is_quote, is_quote_char, is_space,
    is_space_char, lemma_first_match, substring, to_chars, CharClass,
};
use crate::token::{tokens_of, TagToken, TagTokenModel};

verus! {

/// The three kinds of tag.
#[derive(Clone, Copy, Debug, PartialEq, Eq, Structural)]
pub enum TagKind {
    /// `<name ...>`: begins an element that a closing tag ends later.
    Open,
    /// `</name>`: ends the innermost open element.
    Close,
    /// `<name .../>`: an element with no content.
    SelfClosing,
}

/// The kind of the tag `t`: closing when a `/` follows the `<`, else
/// self-closing when a `/` stands before the `>`, else opening.
pub open spec fn kind_of(t: Seq<char>) -> TagKind {
    if t.len() >= 2 && t[1] == '/' {
        TagKind::Close
    } else if t.len() >= 2 && t[t.len() - 2] == '/' {
        TagKind::SelfClosing
    } else {
        TagKind::Open
    }
}

impl TagKind {
    /// The kind of the tag `value`.
    pub fn from(value: &str) -> (kind: TagKind)
        ensures
            kind == kind_of(value@),
    {
        let n = value.unicode_len();
        if n < 2 {
            TagKind::Open
        } else if value.get_char(1) == '/' {
            TagKind::Close
        } else if value.get_char(n - 2) == '/' {
            TagKind::SelfClosing
        } else {
            TagKind::Open
        }
    }

    /// The kind of the tag whose characters are `t`.
    pub fn of(t: &Vec<char>) -> (kind: TagKind)
        ensures
            kind == kind_of(t@),
    {
        let n = t.len();
        if n < 2 {
            TagKind::Open
        } else if t[1] == '/' {
            TagKind::Close
        } else if t[n - 2] == '/' {
            TagKind::SelfClosing
        } else {
            TagKind::Open
        }
    }
}

/// One attribute of an element.
#[derive(Clone, Debug, PartialEq, Eq)]
pub struct Attribute {
    pub name: String,
    pub value: String,
}

/// The mathematical value of an `Attribute`.
pub struct AttributeModel {
    pub name: Seq<char>,
    pub value: Seq<char>,
}

impl View for Attribute {
    type V = AttributeModel;

    open spec fn view(&self) -> AttributeModel {
        AttributeModel { name: self.name@, value: self.value@ }
    }
}

/// The values of a sequence of attributes.
pub open spec fn attributes_of(attributes: Seq<Attribute>) -> Seq<AttributeModel> {
    attributes.map_values(|a: Attribute| a@)
}

/// No two attributes have the same name.
pub open spec fn unique_names(attributes: Seq<AttributeModel>) -> bool {
    forall|i: int, j: int|
        0 <= i < j < attributes.len() ==> (#[trigger] attributes[i]).name != (
        #[trigger] attributes[j]).name
}

/// The least index from `from` on of an attribute called `name`, or the
/// length of `attributes` when there is none.
pub open spec fn index_of_name(attributes: Seq<AttributeModel>, name: Seq<char>, from: int) -> int
    decreases attributes.len() - from,
{
    if from >= attributes.len() {
        attributes.len() as int
    } else if attributes[from].name == name {
        from
    } else {
        index_of_name(attributes, name, from + 1)
    }
}

/// The attributes after `attribute` has been entered: it takes the place of
/// the one that had its name, or else comes last.
pub open spec fn insert_attribute(
    attributes: Seq<AttributeModel>,
    attribute: AttributeModel,
) -> Seq<AttributeModel> {
    let at = index_of_name(attributes, attribute.name, 0);
    if at < attributes.len() {
        attributes.update(at, attribute)
    } else {
        attributes.push(attribute)
    }
}

/// `index_of_name` lies in `from..=len`, hits the name unless it is the
/// length, and passes over no attribute of that name.
pub proof fn lemma_index_of_name(attributes: Seq<AttributeModel>, name: Seq<char>, from: int)
    requires
        0 <= from <= attributes.len(),
    ensures
        from <= index_of_name(attributes, name, from) <= attributes.len(),
        index_of_name(attributes, name, from) < attributes.len() ==> attributes[index_of_name(
            attributes,
            name,
            from,
        )].name == name,
        forall|i: int|
            from <= i < index_of_name(attributes, name, from) ==> (#[trigger] attributes[i]).name
                != name,
    decreases attributes.len() - from,
{
    if from < attributes.len() && attributes[from].name != name {
        lemma_index_of_name(attributes, name, from + 1);
    }
}

/// Entering an attribute keeps the names distinct.
pub proof fn lemma_insert_keeps_names_unique(
    attributes: Seq<AttributeModel>,
    attribute: AttributeModel,
)
    requires
        unique_names(attributes),
    ensures
        unique_names(insert_attribute(attributes, attribute)),
{
    lemma_index_of_name(attributes, attribute.name, 0);
    let at = index_of_name(attributes, attribute.name, 0);
    let after = insert_attribute(attributes, attribute);
    assert forall|i: int, j: int| 0 <= i < j < after.len() implies (#[trigger] after[i]).name != (
    #[trigger] after[j]).name by {}
}

/// A tag that has been read.
#[derive(Clone, Debug, PartialEq, Eq)]
pub struct Tag {
    pub kind: TagKind,
    /// The name of the element.
    pub name: String,
    /// The attributes in the order in which their names first occur; a
    /// closing tag has none.
    pub attributes: Vec<Attribute>,
    /// Index, in characters, of the `<` of the tag in its text.
    pub position: usize,
}

/// The mathematical value of a `Tag`.
pub struct TagModel {
    pub kind: TagKind,
    pub name: Seq<char>,
    pub attributes: Seq<AttributeModel>,
    pub position: int,
}

impl View for Tag {
    type V = TagModel;

    open spec fn view(&self) -> TagModel {
        TagModel {
            kind: self.kind,
            name: self.name@,
            attributes: attributes_of(self.attributes@),
            position: self.position as int,
        }
    }
}

/// The values of a sequence of tags.
pub open spec fn tags_of(tags: Seq<Tag>) -> Seq<TagModel> {
    tags.map_values(|t: Tag| t@)
}

/// The attributes of every tag have distinct names.
pub open spec fn valid_tags(tags: Seq<TagModel>) -> bool {
    forall|i: int| 0 <= i < tags.len() ==> unique_names((#[trigger] tags[i]).attributes)
}

/// A name is valid when it is not empty and holds only name characters.
pub open spec fn valid_name(name: Seq<char>) -> bool {
    name.len() > 0 && forall|i: int| 0 <= i < name.len() ==> is_name_char(#[trigger] name[i])
}

/// Where the inside of the tag `t` begins: behind the `<`, and behind the
/// `/` of a closing tag.
pub open spec fn body_start(t: Seq<char>) -> int {
    if kind_of(t) is Close {
        2
    } else {
        1
    }
}

/// Where the inside of the tag `t` ends: before the `>`, and before the `/`
/// of a self-closing tag.
pub open spec fn body_end(t: Seq<char>) -> int {
    if kind_of(t) is SelfClosing {
        t.len() - 2
    } else {
        t.len() - 1
    }
}

/// The attributes written in `s[at..end]`, entered one after the other into
/// `found`: a run of `name="value"` or `name='value'` pairs, each with white
/// space before it, and white space alone after the last. `None` when
/// `s[at..end]` is not such a run.
pub open spec fn parse_attributes(
    s: Seq<char>,
    at: int,
    end: int,
    found: Seq<AttributeModel>,
) -> Option<Seq<AttributeModel>>
    recommends
        0 <= at <= end <= s.len(),
    decreases end - at,
{
    let name_start = first_match(s, at, end, CharClass::NonSpace);
    let name_stop = first_match(s, name_start, end, CharClass::NonName);
    let value_start = name_stop + 2;
    let value_stop = first_match(s, value_start, end, CharClass::Is(s[name_stop + 1]));
    if at >= end {
        Some(found)
    } else if !is_space(s[at]) {
        None
    } else if name_start >= end {
        Some(found)
    } else if name_stop == name_start || name_stop >= end || s[name_stop] != '=' {
        None
    } else if name_stop + 1 >= end || !is_quote(s[name_stop + 1]) {
        None
    } else if value_stop >= end {
        None
    } else {
        proof {
            lemma_first_match(s, at, end, CharClass::NonSpace);
            lemma_first_match(s, name_start, end, CharClass::NonName);
            lemma_first_match(s, value_start, end, CharClass::Is(s[name_stop + 1]));
        }
        parse_attributes(
            s,
            value_stop + 1,
            end,
            insert_attribute(
                found,
                AttributeModel {
                    name: s.subrange(name_start, name_stop),
                    value: s.subrange(value_start, value_stop),
                },
            ),
        )
    }
}

/// What the tag `t` at `position` says: its kind; its name, which runs from
/// the inside's begin to the first white space; and, unless it is a closing
/// tag, the attributes that follow the name.
///
/// The failure is `TagName` when the name is not valid and `AttributeParse`
/// when what follows the name of an opening or self-closing tag is not a run
/// of attributes.
pub open spec fn classify_spec(t: Seq<char>, position: int) -> Result<TagModel, ParseErrorModel> {
    let kind = kind_of(t);
    let start = body_start(t);
    let end = body_end(t);
    let name_stop = first_match(t, start, end, CharClass::Space);
    let name = if start <= end {
        t.subrange(start, name_stop)
    } else {
        Seq::empty()
    };
    if !valid_name(name) {
        Err(ParseErrorModel { kind: ParseErrorKind::TagName, position, tags: seq![name] })
    } else if kind is Close {
        Ok(TagModel { kind, name, attributes: Seq::empty(), position })
    } else {
        match parse_attributes(t, name_stop, end, Seq::empty()) {
            Some(attributes) => Ok(TagModel { kind, name, attributes, position }),
            None => Err(
                ParseErrorModel { kind: ParseErrorKind::AttributeParse, position, tags: seq![name] },
            ),
        }
    }
}

/// The attributes that `parse_attributes` gives have distinct names when
/// those it began with have.
pub proof fn lemma_parse_attributes_unique(
    s: Seq<char>,
    at: int,
    end: int,
    found: Seq<AttributeModel>,
)
    requires
        unique_names(found),
    ensures
        parse_attributes(s, at, end, found) matches Some(all) ==> unique_names(all),
    decreases end - at,
{
    let name_start = first_match(s, at, end, CharClass::NonSpace);
    let name_stop = first_match(s, name_start, end, CharClass::NonName);
    let value_start = name_stop + 2;
    let value_stop = first_match(s, value_start, end, CharClass::Is(s[name_stop + 1]));
    if at < end && parse_attributes(s, at, end, found) is Some && name_start < end {
        lemma_first_match(s, at, end, CharClass::NonSpace);
        lemma_first_match(s, name_start, end, CharClass::NonName);
        lemma_first_match(s, value_start, end, CharClass::Is(s[name_stop + 1]));
        let attribute = AttributeModel {
            name: s.subrange(name_start, name_stop),
            value: s.subrange(value_start, value_stop),
        };
        lemma_insert_keeps_names_unique(found, attribute);
        lemma_parse_attributes_unique(s, value_stop + 1, end, insert_attribute(found, attribute));
    }
}

/// The tag that `classify_spec` gives has the kind of its text and a valid
/// name, and its attributes have distinct names; a closing tag has none.
pub proof fn lemma_classified_tag(t: Seq<char>, position: int)
    ensures
        classify_spec(t, position) matches Ok(tag) ==> {
            &&& tag.kind == kind_of(t)
            &&& tag.position == position
            &&& valid_name(tag.name)
            &&& unique_names(tag.attributes)
            &&& tag.kind is Close ==> tag.attributes.len() == 0
        },
{
    let name_stop = first_match(t, body_start(t), body_end(t), CharClass::Space);
    lemma_parse_attributes_unique(t, name_stop, body_end(t), Seq::empty());
}

/// The least index of an attribute called `name`, or the length.
pub fn find_attribute(attributes: &Vec<Attribute>, name: &String) -> (at: usize)
    ensures
        at == index_of_name(attributes_of(attributes@), name@, 0),
        at <= attributes.len(),
{
    let mut at: usize = 0;
    while at < attributes.len() && attributes[at].name != *name
        invariant
            at <= attributes.len(),
            index_of_name(attributes_of(attributes@), name@, 0) == index_of_name(
                attributes_of(attributes@),
                name@,
                at as int,
            ),
        decreases attributes.len() - at,
    {
        at += 1;
    }
    at
}

/// Enters `attribute` into `attributes`.
pub fn enter_attribute(attributes: &mut Vec<Attribute>, attribute: Attribute)
    ensures
        attributes_of(final(attributes)@) == insert_attribute(
            attributes_of(old(attributes)@),
            attribute@,
        ),
{
    let at = find_attribute(attributes, &attribute.name);
    if at < attributes.len() {
        attributes[at] = attribute;
    } else {
        attributes.push(attribute);
    }
}

/// Reads the attributes written in `s[at..end]`.
pub fn read_attributes(s: &Vec<char>, at: usize, end: usize) -> (attributes: Option<
    Vec<Attribute>,
>)
    requires
        at <= end <= s.len(),
    ensures
        match attributes {
            Some(found) => {
                &&& parse_attributes(s@, at as int, end as int, Seq::empty()) == Some(
                    attributes_of(found@),
                )
                &&& unique_names(attributes_of(found@))
            },
            None => parse_attributes(s@, at as int, end as int, Seq::empty()) is None,
        },
{
    let mut found: Vec<Attribute> = Vec::new();
    let mut i: usize = at;
    assert(attributes_of(found@) =~= Seq::empty());
    loop
        invariant
            at <= i <= end <= s.len(),
            unique_names(attributes_of(found@)),
            parse_attributes(s@, at as int, end as int, Seq::empty()) == parse_attributes(
                s@,
                i as int,
                end as int,
                attributes_of(found@),
            ),
        decreases end - i,
    {
        if i >= end {
            return Some(found);
        }
        if !is_space_char(s[i]) {
            return None;
        }
        let name_start = find_first(s, i, end, CharClass::NonSpace);
        if name_start >= end {
            return Some(found);
        }
        let name_stop = find_first(s, name_start, end, CharClass::NonName);
        if name_stop == name_start || name_stop >= end || s[name_stop] != '=' {
            return None;
        }
        if name_stop + 1 >= end || !is_quote_char(s[name_stop + 1]) {
            return None;
        }
        let value_start = name_stop + 2;
        let value_stop = find_first(s, value_start, end, CharClass::Is(s[name_stop + 1]));
        if value_stop >= end {
            return None;
        }
        let attribute = Attribute {
            name: substring(s, name_start, name_stop),
            value: substring(s, value_start, value_stop),
        };
        proof {
            lemma_insert_keeps_names_unique(attributes_of(found@), attribute@);
        }
        enter_attribute(&mut found, attribute);
        i = value_stop + 1;
    }
}

/// Whether every character of `s[from..to]` may stand in a name.
pub fn all_name_chars(s: &Vec<char>, from: usize, to: usize) -> (all: bool)
    requires
        from <= to <= s.len(),
    ensures
        all == forall|i: int| from <= i < to ==> is_name_char(#[trigger] s@[i]),
{
    let mut i: usize = from;
    while i < to
        invariant
            from <= i <= to <= s.len(),
            forall|j: int| from <= j < i ==> is_name_char(#[trigger] s@[j]),
        decreases to - i,
    {
        if !is_name_character(s[i]) {
            return false;
        }
        i += 1;
    }
    true
}

/// Reads the tag whose characters are `t` and that stands at `position`.
pub fn classify_chars(t: &Vec<char>, position: usize) -> (tag: Result<Tag, ParseError>)
    ensures
        match tag {
            Ok(read) => classify_spec(t@, position as int) == Ok::<_, ParseErrorModel>(read@)
                && unique_names(read@.attributes),
            Err(e) => classify_spec(t@, position as int) == Err::<TagModel, _>(e@),
        },
{
    let kind = TagKind::of(t);
    let n = t.len();
    let start: usize = match kind {
        TagKind::Close => 2,
        _ => 1,
    };
    let shorter: usize = match kind {
        TagKind::SelfClosing => 2,
        _ => 1,
    };
    if n < start + shorter {
        return Err(ParseError::named(ParseErrorKind::TagName, position, String::new()));
    }
    let end: usize = n - shorter;
    let name_stop = find_first(t, start, end, CharClass::Space);
    let name = substring(t, start, name_stop);
    let valid = name_stop > start && all_name_chars(t, start, name_stop);
    proof {
        let written = t@.subrange(start as int, name_stop as int);
        if valid {
            assert forall|i: int| 0 <= i < written.len() implies is_name_char(
                #[trigger] written[i],
            ) by {}
        } else if name_stop > start {
            let bad = choose|i: int| start <= i < name_stop && !is_name_char(#[trigger] t@[i]);
            assert(!is_name_char(written[bad - start]));
        }
    }
    if !valid {
        return Err(ParseError::named(ParseErrorKind::TagName, position, name));
    }
    match kind {
        TagKind::Close => {
            let tag = Tag { kind, name, attributes: Vec::new(), position };
            assert(tag@.attributes =~= Seq::empty());
            Ok(tag)
        },
        _ => {
            match read_attributes(t, name_stop, end) {
                Some(attributes) => Ok(Tag { kind, name, attributes, position }),
                None => Err(ParseError::named(ParseErrorKind::AttributeParse, position, name)),
            }
        },
    }
}

/// Reads a tag: its kind, its name and its attributes.
///
/// Fails with `TagName` when the name is empty or holds a character that no
/// name can hold, and with `AttributeParse` when what follows the name of an
/// opening or self-closing tag is not a run of attributes. The failure
/// carries the place of the tag and the name as written.
pub fn classify(token: &TagToken) -> (tag: Result<Tag, ParseError>)
    ensures
        match tag {
            Ok(read) => classify_spec(token@.text, token@.position) == Ok::<_, ParseErrorModel>(
                read@,
            ) && unique_names(read@.attributes),
            Err(e) => classify_spec(token@.text, token@.position) == Err::<TagModel, _>(e@),
        },
{
    let chars = to_chars(token.text.as_str());
    classify_chars(&chars, token.position)
}

/// What the tokens say, in their order, or the failure of the first among
/// them that cannot be read.
pub open spec fn classify_all_spec(tokens: Seq<TagTokenModel>) -> Result<
    Seq<TagModel>,
    ParseErrorModel,
>
    decreases tokens.len(),
{
    if tokens.len() == 0 {
        Ok(Seq::empty())
    } else {
        match classify_spec(tokens[0].text, tokens[0].position) {
            Err(e) => Err(e),
            Ok(tag) => match classify_all_spec(tokens.drop_first()) {
                Err(e) => Err(e),
                Ok(rest) => Ok(seq![tag] + rest),
            },
        }
    }
}

/// `read`, followed by what the other tokens say.
pub open spec fn tags_after(
    read: Seq<TagModel>,
    rest: Result<Seq<TagModel>, ParseErrorModel>,
) -> Result<Seq<TagModel>, ParseErrorModel> {
    match rest {
        Ok(more) => Ok(read + more),
        Err(e) => Err(e),
    }
}

/// Reads the tags of a sequence of tokens.
///
/// Gives what `classify` gives for each token, in their order, or the
/// failure of the first token that cannot be read.
pub fn classify_all(tokens: &Vec<TagToken>) -> (tags: Result<Vec<Tag>, ParseError>)
    ensures
        match tags {
            Ok(read) => classify_all_spec(tokens_of(tokens@)) == Ok::<_, ParseErrorModel>(
                tags_of(read@),
            ) && valid_tags(tags_of(read@)),
            Err(e) => classify_all_spec(tokens_of(tokens@)) == Err::<Seq<TagModel>, _>(e@),
        },
{
    let ghost all = tokens_of(tokens@);
    let mut read: Vec<Tag> = Vec::new();
    let mut i: usize = 0;
    assert(all.skip(0) =~= all);
    while i < tokens.len()
        invariant
            i <= tokens.len(),
            all == tokens_of(tokens@),
            valid_tags(tags_of(read@)),
            classify_all_spec(all) == tags_after(
                tags_of(read@),
                classify_all_spec(all.skip(i as int)),
            ),
        decreases tokens.len() - i,
    {
        assert(all.skip(i as int).drop_first() =~= all.skip(i + 1));
        match classify(&tokens[i]) {
            Err(e) => {
                return Err(e);
            },
            Ok(tag) => {
                proof {
                    let first = seq![tag@];
                    let rest = classify_all_spec(all.skip(i + 1));
                    assert(tags_of(read@.push(tag)) =~= tags_of(read@) + first);
                    if rest is Ok {
                        assert((tags_of(read@) + first) + rest->Ok_0 =~= tags_of(read@) + (first
                            + rest->Ok_0));
                    }
                }
                read.push(tag);
            },
        }
        i += 1;
    }
    Ok(read)
}

} // verus!
