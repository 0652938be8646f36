//! The boundary to `serde_json`: reading the members of a JSON object out of a
//! frame, and writing a string as a JSON string literal.

use serde_json::Value;
use vstd::prelude::*;
use vstd::string::*;

verus! {

/// What a member of a JSON object holds, one level deep: the wire protocol
/// reads strings and integers, and only tells the other kinds apart.
#[derive(Debug, PartialEq, Eq)]
pub enum JsonMember {
    /// `null`.
    Null,
    /// `true` or `false`.
    Bool(bool),
    /// A number, read both ways: as a signed and as an unsigned integer of
    /// 64 bits. A number that is written as an integer and fits neither is
    /// kept by the JSON reader as a floating-point number, as is every number
    /// with a fraction or an exponent: for those both readings are `None`.
    Number(Option<i64>, Option<u64>),
    /// A string.
    Text(String),
    /// An array.
    Array,
    /// An object.
    Object,
}

/// The mathematical value of a [`JsonMember`].
pub enum JsonMemberView {
    Null,
    Bool(bool),
    Number(Option<i64>, Option<u64>),
    Text(Seq<char>),
    Array,
    Object,
}

impl View for JsonMember {
    type V = JsonMemberView;

    open spec fn view(&self) -> JsonMemberView {
        match self {
            JsonMember::Null => JsonMemberView::Null,
            JsonMember::Bool(b) => JsonMemberView::Bool(*b),
            JsonMember::Number(signed, unsigned) => JsonMemberView::Number(*signed, *unsigned),
            JsonMember::Text(s) => JsonMemberView::Text(s@),
            JsonMember::Array => JsonMemberView::Array,
            JsonMember::Object => JsonMemberView::Object,
        }
    }
}

/// The members of a JSON object as a sequence of keys and values.
pub type Members = Seq<(Seq<char>, JsonMemberView)>;

/// The mathematical value of a list of members.
pub open spec fn members_view(members: Seq<(String, JsonMember)>) -> Members {
    members.map_values(|m: (String, JsonMember)| (m.0@, m.1@))
}

/// What `serde_json` reads from `text` when asked for a JSON object: the
/// members of the object, each key once, or the message of its error.
pub uninterp spec fn json_object_of(text: Seq<char>) -> Result<Members, Seq<char>>;

/// The hexadecimal digit for `n`, in lower case.
pub open spec fn hex_digit(n: int) -> char {
    "0123456789abcdef"@[n]
}

/// How a character stands inside a JSON string literal: the quote and the
/// backslash behind a backslash, the control characters below the space as
/// their short escape where they have one and as `\u00` with two hexadecimal
/// digits where they have none, and every other character as itself.
pub open spec fn escaped_char(c: char) -> Seq<char> {
    if c == '"' {
        seq!['\\', '"']
    } else if c == '\\' {
        seq!['\\', '\\']
    } else if c == '\u{8}' {
        seq!['\\', 'b']
    } else if c == '\t' {
        seq!['\\', 't']
    } else if c == '\n' {
        seq!['\\', 'n']
    } else if c == '\u{c}' {
        seq!['\\', 'f']
    } else if c == '\r' {
        seq!['\\', 'r']
    } else if (c as u32) < 0x20 {
        seq![
            '\\',
            'u',
            '0',
            '0',
            hex_digit((c as u32) as int / 16),
            hex_digit((c as u32) as int % 16),
        ]
    } else {
        seq![c]
    }
}

/// The characters of `text` as they stand inside a JSON string literal.
pub open spec fn escaped(text: Seq<char>) -> Seq<char>
    decreases text.len(),
{
    if text.len() == 0 {
        Seq::empty()
    } else {
        escaped(text.drop_last()) + escaped_char(text.last())
    }
}

/// The JSON string literal for `text`: its characters, escaped, between two
/// quotes.
pub open spec fn json_string_of(text: Seq<char>) -> Seq<char> {
    seq!['"'] + escaped(text) + seq!['"']
}

/// Whether a character stands for itself inside a JSON string literal.
pub open spec fn is_plain(c: char) -> bool {
    (c as u32) >= 0x20 && c != '"' && c != '\\'
}

/// A text of plain characters is written as it is, between two quotes.
pub proof fn lemma_plain_text(text: Seq<char>)
    requires
        forall|i: int| 0 <= i < text.len() ==> is_plain(#[trigger] text[i]),
    ensures
        escaped(text) == text,
        json_string_of(text) == seq!['"'] + text + seq!['"'],
    decreases text.len(),
{
    if text.len() > 0 {
        lemma_plain_text(text.drop_last());
        assert(is_plain(text.last()));
        assert(escaped(text) =~= text);
    }
}

/// What [`parse_object`] hands back, as a mathematical value.
pub open spec fn parsed_view(parsed: Result<Vec<(String, JsonMember)>, String>) -> Result<
    Members,
    Seq<char>,
> {
    match parsed {
        Ok(members) => Ok(members_view(members@)),
        Err(detail) => Err(detail@),
    }
}

/// Reads `text` as one JSON object with `serde_json::from_str`, asked for a
/// `serde_json::Map`. Nothing is proved of the parser: the contract only gives
/// its answer a name, [`json_object_of`], so that two readings of one text
/// agree. The members come back in the order of the map, each value as the
/// variant of the same kind: a number with what `Number::as_i64` and
/// `Number::as_u64` make of it, an array or an object without what it holds.
/// An error comes back as the text it displays.
#[verifier::external_body]
pub(crate) fn parse_object(text: &str) -> (parsed: Result<Vec<(String, JsonMember)>, String>)
    ensures
        parsed_view(parsed) == json_object_of(text@),
{
    match serde_json::from_str::<serde_json::Map<String, Value>>(text) {
        Ok(map) => Ok(map.into_iter().map(|(key, value)| (key, match value {
            Value::Null => JsonMember::Null,
            Value::Bool(b) => JsonMember::Bool(b),
            Value::Number(n) => JsonMember::Number(n.as_i64(), n.as_u64()),
            Value::String(s) => JsonMember::Text(s),
            Value::Array(_) => JsonMember::Array,
            Value::Object(_) => JsonMember::Object,
        })).collect()),
        Err(error) => Err(error.to_string()),
    }
}

/// Writes `text` as a JSON string literal with `serde_json::to_string`. The
/// contract states the literal as `serde_json` writes it, [`json_string_of`],
/// and claims that the call succeeds: `serde_json` documents failure only for
/// a `Serialize` impl that fails and for a map with keys that are not
/// strings, and a `str` is neither. Nothing of this is proved here.
#[verifier::external_body]
pub(crate) fn quote(text: &str) -> (quoted: Option<String>)
    ensures
        quoted is Some,
        quoted->Some_0@ == json_string_of(text@),
{
    serde_json::to_string(text).ok()
}

/// The integer that a number is, if either reading gives one.
pub open spec fn integer_of(signed: Option<i64>, unsigned: Option<u64>) -> Option<int> {
    match signed {
        Some(i) => Some(i as int),
        None => match unsigned {
            Some(u) => Some(u as int),
            None => None,
        },
    }
}

/// The value of the first member under `key`, if there is one.
pub open spec fn member_of(members: Members, key: Seq<char>) -> Option<JsonMemberView>
    decreases members.len(),
{
    if members.len() == 0 {
        None
    } else if members[0].0 == key {
        Some(members[0].1)
    } else {
        member_of(members.skip(1), key)
    }
}

/// Finds the first member under `key`.
pub fn find_member<'a>(members: &'a Vec<(String, JsonMember)>, key: &String) -> (found: Option<
    &'a JsonMember,
>)
    ensures
        match found {
            Some(member) => member_of(members_view(members@), key@) == Some(member@),
            None => member_of(members_view(members@), key@) is None,
        },
{
    let ghost all = members_view(members@);
    let mut i: usize = 0;
    assert(all.skip(0) == all);
    while i < members.len()
        invariant
            i <= members.len(),
            all == members_view(members@),
            member_of(all, key@) == member_of(all.skip(i as int), key@),
        decreases members.len() - i,
    {
        if members[i].0 == *key {
            assert(all.skip(i as int)[0] == (members[i as int].0@, members[i as int].1@));
            return Some(&members[i].1);
        }
        assert(all.skip(i as int).skip(1) == all.skip(i + 1));
        i += 1;
    }
    None
}

/// Appends to `out` the JSON string literal for `text`.
pub fn push_quoted(out: &mut String, text: &str)
    ensures
        final(out)@ == old(out)@ + json_string_of(text@),
{
    match quote(text) {
        Some(quoted) => out.append(quoted.as_str()),
        None => {},
    }
}

} // verus!
