//! The boundary to `serde_json`: JSON documents go in and come out as text.
//!
//! The store keeps every value as JSON text. Whatever needs the structure of
//! a document (its kind, the members of an object, the target of a pointer)
//! asks `serde_json` through one of the functions here and gets plain values
//! back. What the parser returns is not restated: each result has a name, and
//! the rest of the crate reasons over those names.

use vstd::prelude::*;

verus! {

/// The six kinds of JSON value.
#[derive(Debug, Clone, Copy, PartialEq, Eq, Structural)]
pub enum JsonKind {
    Null,
    Bool,
    Number,
    String,
    Array,
    Object,
}

impl View for JsonKind {
    type V = JsonKind;

    open spec fn view(&self) -> JsonKind {
        *self
    }
}

impl DeepView for JsonKind {
    type V = JsonKind;

    open spec fn deep_view(&self) -> JsonKind {
        *self
    }
}

impl JsonKind {
    /// Arrays and objects are the kinds that are not primitive.
    pub open spec fn is_primitive(self) -> bool {
        !(self is Array) && !(self is Object)
    }

    /// Whether the kind is one of null, boolean, number and string.
    pub fn primitive(self) -> (r: bool)
        ensures
            r == self.is_primitive(),
    {
        match self {
            JsonKind::Array => false,
            JsonKind::Object => false,
            _ => true,
        }
    }
}

/// What escaping makes of one character of a JSON string: the quote and the
/// backslash get a backslash in front, the control characters below U+0020
/// their short form or `\u00` and two lower-case hex digits, and every other
/// character stands for itself.
pub open spec fn escaped_char(c: char) -> Seq<char> {
    if c == '"' {
        seq!['\\', '"']
    } else if c == '\\' {
        seq!['\\', '\\']
    } else if c == '\u{08}' {
        seq!['\\', 'b']
    } else if c == '\u{09}' {
        seq!['\\', 't']
    } else if c == '\u{0a}' {
        seq!['\\', 'n']
    } else if c == '\u{0c}' {
        seq!['\\', 'f']
    } else if c == '\u{0d}' {
        seq!['\\', 'r']
    } else if (c as u32) < 0x20 {
        seq!['\\', 'u', '0', '0', hex_digit((c as u32) / 16), hex_digit((c as u32) % 16)]
    } else {
        seq![c]
    }
}

/// The lower-case hex digit for a number below 16.
pub open spec fn hex_digit(n: u32) -> char {
    if n < 10 {
        (('0' as u32) + n) as char
    } else {
        (('a' as u32) + n - 10) as char
    }
}

/// The escaped form of every character of `s`, one after the other.
pub open spec fn escaped(s: Seq<char>) -> Seq<char>
    decreases s.len(),
{
    if s.len() == 0 {
        Seq::empty()
    } else {
        escaped(s.drop_last()) + escaped_char(s.last())
    }
}

/// The JSON string literal for `s`: its escaped form between double quotes.
pub open spec fn quoted(s: Seq<char>) -> Seq<char> {
    seq!['"'] + escaped(s) + seq!['"']
}

/// What decoding `text` as a JSON document gives: nothing where `text` is not
/// one document, else the kind of the value and its compact text.
pub uninterp spec fn json_document(text: Seq<char>) -> Option<(JsonKind, Seq<char>)>;

/// What decoding `text` as a JSON object gives: nothing where `text` is not
/// one object, else its members in the order the decoded object has them,
/// each as its name and the compact text of its value. The decoded object
/// has every name once: where `text` repeats a name, it keeps the last
/// member of that name.
pub uninterp spec fn json_object(text: Seq<char>) -> Option<Seq<(Seq<char>, Seq<char>)>>;

/// What decoding `text` as a JSON string gives: nothing where `text` is not
/// one string literal, else the characters that the literal stands for.
pub uninterp spec fn json_string(text: Seq<char>) -> Option<Seq<char>>;

/// What the JSON pointer `pointer` addresses in the document `text`: nothing
/// where `text` is no document or where the pointer addresses nothing in it,
/// else the kind of the addressed value and its compact text.
pub uninterp spec fn json_pointer(text: Seq<char>, pointer: Seq<char>) -> Option<(JsonKind, Seq<char>)>;

/// The text of an addressed value that can be indexed: only a string is.
pub open spec fn string_literal(found: Option<(JsonKind, Seq<char>)>) -> Option<Seq<char>> {
    match found {
        Some((kind, text)) => if kind is String {
            Some(text)
        } else {
            None
        },
        None => None,
    }
}

/// The string that the JSON pointer `pointer` addresses in the document
/// `text`: nothing where `text` is no document, where the pointer addresses
/// nothing in it, or where it addresses a value that is not a string.
pub open spec fn json_pointer_string(text: Seq<char>, pointer: Seq<char>) -> Option<Seq<char>> {
    match string_literal(json_pointer(text, pointer)) {
        Some(literal) => json_string(literal),
        None => None,
    }
}

/// Calls `serde_json::to_string` on a string slice. It writes a double quote,
/// then the characters of `s` with the quote, the backslash and the control
/// characters below U+0020 escaped as `escaped_char` says, then a double
/// quote. Writing into memory cannot fail, so the result is always there.
#[verifier::external_body]
pub(crate) fn quote(s: &str) -> (r: String)
    ensures
        r@ == quoted(s@),
{
    serde_json::to_string(s).unwrap_or_default()
}

/// Calls `serde_json::from_str` for a `serde_json::Value`. The value comes
/// out as plain values: its kind, told by its variant, and its compact text,
/// which `serde_json::to_string` renders. The contract only names the
/// outcome.
#[verifier::external_body]
pub(crate) fn decode_document(text: &str) -> (r: Option<(JsonKind, String)>)
    ensures
        match r {
            Some((kind, compact)) => json_document(text@) == Some((kind, compact@)),
            None => json_document(text@) is None,
        },
{
    let value = serde_json::from_str::<serde_json::Value>(text).ok()?;
    let kind = match &value {
        serde_json::Value::Null => JsonKind::Null,
        serde_json::Value::Bool(_) => JsonKind::Bool,
        serde_json::Value::Number(_) => JsonKind::Number,
        serde_json::Value::String(_) => JsonKind::String,
        serde_json::Value::Array(_) => JsonKind::Array,
        serde_json::Value::Object(_) => JsonKind::Object,
    };
    Some((kind, serde_json::to_string(&value).ok()?))
}

/// Calls `serde_json::from_str` for a `serde_json::Map`. The members come
/// out as plain values in the map's own order: each name, and the compact
/// text of each value, which `serde_json::to_string` renders. The contract
/// only names the outcome.
#[verifier::external_body]
pub(crate) fn decode_object(text: &str) -> (r: Option<Vec<(String, String)>>)
    ensures
        match r {
            Some(members) => json_object(text@) == Some(members.deep_view()),
            None => json_object(text@) is None,
        },
{
    let map = serde_json::from_str::<serde_json::Map<String, serde_json::Value>>(text).ok()?;
    map.into_iter().map(|(name, value)| Some((name, serde_json::to_string(&value).ok()?))).collect()
}

/// Calls `serde_json::from_str` for a `String`. The contract only names the
/// outcome.
#[verifier::external_body]
pub(crate) fn decode_string(text: &str) -> (r: Option<String>)
    ensures
        match r {
            Some(s) => json_string(text@) == Some(s@),
            None => json_string(text@) is None,
        },
{
    serde_json::from_str::<String>(text).ok()
}

/// Calls `Value::pointer` of `serde_json`. The document goes in as text,
/// which `serde_json::from_str` turns into a `Value`, and what the pointer
/// addresses comes out as plain values: its kind, told by its variant, and
/// its compact text, which `serde_json::to_string` renders. The contract only
/// names the outcome.
#[verifier::external_body]
pub(crate) fn pointer_value(text: &str, pointer: &str) -> (r: Option<(JsonKind, String)>)
    ensures
        match r {
            Some((kind, compact)) => json_pointer(text@, pointer@) == Some((kind, compact@)),
            None => json_pointer(text@, pointer@) is None,
        },
{
    let value = serde_json::from_str::<serde_json::Value>(text).ok()?;
    let found = value.pointer(pointer)?;
    let kind = match found {
        serde_json::Value::Null => JsonKind::Null,
        serde_json::Value::Bool(_) => JsonKind::Bool,
        serde_json::Value::Number(_) => JsonKind::Number,
        serde_json::Value::String(_) => JsonKind::String,
        serde_json::Value::Array(_) => JsonKind::Array,
        serde_json::Value::Object(_) => JsonKind::Object,
    };
    Some((kind, serde_json::to_string(found).ok()?))
}

/// Picks the text of an addressed value that can be indexed: only a string
/// is.
pub fn indexed_literal(found: Option<(JsonKind, String)>) -> (literal: Option<String>)
    ensures
        literal.deep_view() == string_literal(found.deep_view()),
{
    match found {
        Some((kind, text)) => match kind {
            JsonKind::String => Some(text),
            _ => None,
        },
        None => None,
    }
}

/// The string that the JSON pointer `pointer` addresses in the document
/// `text`, if it addresses a string.
pub fn pointer_string(text: &str, pointer: &str) -> (r: Option<String>)
    ensures
        r.deep_view() == json_pointer_string(text@, pointer@),
{
    match indexed_literal(pointer_value(text, pointer)) {
        Some(literal) => decode_string(literal.as_str()),
        None => None,
    }
}

/// What rendering an object with the given members compactly gives: nothing
/// where the text of a member is no JSON document, else the text of the
/// object. Each member is its name and the JSON text of its value.
pub uninterp spec fn json_export(members: Seq<(Seq<char>, Seq<char>)>) -> Option<Seq<char>>;

/// What rendering an object with the given members for readers gives, with
/// line breaks and indentation; nothing where the text of a member is no
/// JSON document.
pub uninterp spec fn json_export_pretty(members: Seq<(Seq<char>, Seq<char>)>) -> Option<Seq<char>>;

/// Calls `serde_json::to_string` on a `serde_json::Map`. The members go in
/// as plain values: each name, and the text of each value, which
/// `serde_json::from_str` turns into a `Value`. The contract only names the
/// outcome.
#[verifier::external_body]
pub(crate) fn encode_object(members: &Vec<(String, String)>) -> (r: Result<String, serde_json::Error>)
    ensures
        match r {
            Ok(text) => json_export(members.deep_view()) == Some(text@),
            Err(_) => json_export(members.deep_view()) is None,
        },
{
    let map = members.iter().map(|m| Ok((m.0.clone(), serde_json::from_str::<serde_json::Value>(&m.1)?)))
        .collect::<Result<serde_json::Map<String, serde_json::Value>, serde_json::Error>>()?;
    serde_json::to_string(&map)
}

/// Calls `serde_json::to_string_pretty` on a `serde_json::Map`. The members
/// go in as plain values: each name, and the text of each value, which
/// `serde_json::from_str` turns into a `Value`. The contract only names the
/// outcome.
#[verifier::external_body]
pub(crate) fn encode_object_pretty(members: &Vec<(String, String)>) -> (r: Result<String, serde_json::Error>)
    ensures
        match r {
            Ok(text) => json_export_pretty(members.deep_view()) == Some(text@),
            Err(_) => json_export_pretty(members.deep_view()) is None,
        },
{
    let map = members.iter().map(|m| Ok((m.0.clone(), serde_json::from_str::<serde_json::Value>(&m.1)?)))
        .collect::<Result<serde_json::Map<String, serde_json::Value>, serde_json::Error>>()?;
    serde_json::to_string_pretty(&map)
}

/// What rendering a list of strings as a JSON array gives: the string
/// literals between brackets, with commas between them.
pub open spec fn json_strings(items: Seq<Seq<char>>) -> Seq<char> {
    seq!['['] + joined(items) + seq![']']
}

/// The string literals of `items` with commas between them.
pub open spec fn joined(items: Seq<Seq<char>>) -> Seq<char>
    decreases items.len(),
{
    if items.len() == 0 {
        Seq::empty()
    } else if items.len() == 1 {
        quoted(items[0])
    } else {
        joined(items.drop_last()) + seq![','] + quoted(items.last())
    }
}

/// Calls `serde_json::to_string` on a list of strings. It writes an opening
/// bracket, the string literals of the items with a comma before every item
/// but the first, and a closing bracket. Writing into memory cannot fail, so
/// the result is always there.
#[verifier::external_body]
pub(crate) fn encode_strings(items: &Vec<String>) -> (r: String)
    ensures
        r@ == json_strings(items.deep_view()),
{
    serde_json::to_string(items).unwrap_or_default()
}

} // verus!
