//! Characters and character sequences: the character classes of the tag
//! grammar, searching for the first character of a class, and moving between
//! strings and vectors of characters.

use vstd::prelude::*;

verus! {

/// `String::push` of the standard library, which appends one character to
/// the end of a string: afterwards the string holds the characters it held
/// before, followed by `c`.
pub assume_specification[ String::push ](s: &mut String, c: char)
    ensures
        final(s)@ == old(s)@.push(c),
;

/// White space inside a tag: space, tab, line feed and carriage return.
pub open spec fn is_space(c: char) -> bool {
    c == ' ' || c == '\t' || c == '\n' || c == '\r'
}

/// The two characters that can enclose an attribute value.
pub open spec fn is_quote(c: char) -> bool {
    c == '"' || c == '\''
}

/// Characters that may stand in the name of an element or of an attribute:
/// anything but white space and the characters of the markup itself.
pub open spec fn is_name_char(c: char) -> bool {
    !is_space(c) && !is_quote(c) && c != '<' && c != '>' && c != '/' && c != '='
}

/// A set of characters that a search can look for.
#[derive(Clone, Copy, Debug)]
pub enum CharClass {
    /// The one given character.
    Is(char),
    /// White space.
    Space,
    /// Anything but white space.
    NonSpace,
    /// Anything that cannot stand in a name.
    NonName,
}

impl CharClass {
    /// Whether `c` belongs to the class.
    pub open spec fn holds(self, c: char) -> bool {
        match self {
            CharClass::Is(x) => c == x,
            CharClass::Space => is_space(c),
            CharClass::NonSpace => !is_space(c),
            CharClass::NonName => !is_name_char(c),
        }
    }

    /// Tests whether `c` belongs to the class.
    pub fn test(self, c: char) -> (b: bool)
        ensures
            b == self.holds(c),
    {
        match self {
            CharClass::Is(x) => c == x,
            CharClass::Space => is_space_char(c),
            CharClass::NonSpace => !is_space_char(c),
            CharClass::NonName => !is_name_character(c),
        }
    }
}

/// Tests for white space.
pub fn is_space_char(c: char) -> (b: bool)
    ensures
        b == is_space(c),
{
    c == ' ' || c == '\t' || c == '\n' || c == '\r'
}

/// Tests for a quote character.
pub fn is_quote_char(c: char) -> (b: bool)
    ensures
        b == is_quote(c),
{
    c == '"' || c == '\''
}

/// Tests whether `c` may stand in a name.
pub fn is_name_character(c: char) -> (b: bool)
    ensures
        b == is_name_char(c),
{
    !is_space_char(c) && !is_quote_char(c) && c != '<' && c != '>' && c != '/' && c != '='
}

/// The least index in `from..end` whose character belongs to `class`, or
/// `end` when no character of that range does.
pub open spec fn first_match(s: Seq<char>, from: int, end: int, class: CharClass) -> int
    recommends
        0 <= from <= end <= s.len(),
    decreases end - from,
{
    if from >= end {
        end
    } else if class.holds(s[from]) {
        from
    } else {
        first_match(s, from + 1, end, class)
    }
}

/// `first_match` lies in `from..=end`, hits a character of the class unless
/// it is `end`, and passes over no character of the class.
pub proof fn lemma_first_match(s: Seq<char>, from: int, end: int, class: CharClass)
    requires
        from <= end,
    ensures
        from <= first_match(s, from, end, class) <= end,
        first_match(s, from, end, class) < end ==> class.holds(
            s[first_match(s, from, end, class)],
        ),
        forall|i: int| from <= i < first_match(s, from, end, class) ==> !class.holds(#[trigger] s[i]),
    decreases end - from,
{
    if from < end && !class.holds(s[from]) {
        lemma_first_match(s, from + 1, end, class);
    }
}

/// Finds the first character of `class` in `s[from..end]`.
pub fn find_first(s: &Vec<char>, from: usize, end: usize, class: CharClass) -> (at: usize)
    requires
        from <= end <= s.len(),
    ensures
        at == first_match(s@, from as int, end as int, class),
        from <= at <= end,
{
    let mut at: usize = from;
    while at < end && !class.test(s[at])
        invariant
            from <= at <= end <= s.len(),
            first_match(s@, from as int, end as int, class) == first_match(
                s@,
                at as int,
                end as int,
                class,
            ),
        decreases end - at,
    {
        at += 1;
    }
    at
}

/// The characters of `s`, in order.
pub fn to_chars(s: &str) -> (chars: Vec<char>)
    ensures
        chars@ == s@,
{
    let mut chars: Vec<char> = Vec::new();
    for c in it: s.chars()
        invariant
            it.seq() == s@,
            chars@ == it.seq().take(it.index()),
    {
        chars.push(c);
    }
    chars
}

/// The string that holds `chars[from..to]`.
pub fn substring(chars: &Vec<char>, from: usize, to: usize) -> (s: String)
    requires
        from <= to <= chars.len(),
    ensures
        s@ == chars@.subrange(from as int, to as int),
{
    let mut s = String::new();
    let mut i: usize = from;
    while i < to
        invariant
            from <= i <= to <= chars.len(),
            s@ == chars@.subrange(from as int, i as int),
        decreases to - i,
    {
        s.push(chars[i]);
        i += 1;
    }
    s
}

/// A vector that holds `chars[from..to]`.
pub fn copy_range(chars: &Vec<char>, from: usize, to: usize) -> (part: Vec<char>)
    requires
        from <= to <= chars.len(),
    ensures
        part@ == chars@.subrange(from as int, to as int),
{
    let mut part: Vec<char> = Vec::new();
    let mut i: usize = from;
    while i < to
        invariant
            from <= i <= to <= chars.len(),
            part@ == chars@.subrange(from as int, i as int),
        decreases to - i,
    {
        part.push(chars[i]);
        i += 1;
    }
    part
}

} // verus!
