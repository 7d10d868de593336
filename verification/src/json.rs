//! JSON documents as text, read through `serde_json`. A document is carried
//! as its compact serialisation ("canonical text"); these wrappers answer
//! the few questions the library's logic asks of one.
use vstd::prelude::*;

verus! {

/// The canonical text of the document that `text` parses to, if it parses.
pub uninterp spec fn json_canon(text: Seq<char>) -> Option<Seq<char>>;

/// `serde_json::from_str::<Value>` then `Value::to_string`: parse `text`
/// and give the compact serialisation of the value; `None` when `text` is
/// not JSON. Depends on `text` alone.
#[verifier::external_body]
pub fn canonical_json(text: &str) -> (r: Option<String>)
    ensures
        match r {
            Some(c) => json_canon(text@) == Some(c@),
            None => json_canon(text@) is None,
        },
{
    serde_json::from_str::<serde_json::Value>(text).ok().map(|v| v.to_string())
}

/// The lower-case hexadecimal digit of `n` (0 to 15).
pub open spec fn hex_lower(n: int) -> char {
    if n < 10 {
        ((48 + n) as u32) as char
    } else {
        ((87 + n) as u32) as char
    }
}

/// How a JSON string literal writes `c`: the quote and the backslash
/// behind a backslash, the five control characters with a short escape
/// by it, every other character below U+0020 as `\u00` and two lower-case
/// hex digits, anything else as itself.
pub open spec fn json_escape_char(c: char) -> Seq<char> {
    let n: int = c as int;
    if c == '"' {
        seq!['\\', '"']
    } else if c == '\\' {
        seq!['\\', '\\']
    } else if n == 8 {
        seq!['\\', 'b']
    } else if n == 9 {
        seq!['\\', 't']
    } else if n == 10 {
        seq!['\\', 'n']
    } else if n == 12 {
        seq!['\\', 'f']
    } else if n == 13 {
        seq!['\\', 'r']
    } else if n < 32 {
        seq!['\\', 'u', '0', '0', hex_lower(n / 16), hex_lower(n % 16)]
    } else {
        seq![c]
    }
}

/// The characters of `s`, each written as a JSON string literal writes it.
pub open spec fn json_escaped(s: Seq<char>) -> Seq<char>
    decreases s.len(),
{
    if s.len() == 0 {
        Seq::empty()
    } else {
        json_escaped(s.drop_last()) + json_escape_char(s.last())
    }
}

/// The JSON string literal that encodes `s`.
pub open spec fn json_quoted(s: Seq<char>) -> Seq<char> {
    seq!['"'] + json_escaped(s) + seq!['"']
}

/// `serde_json::to_string` of a string: `s` as a quoted, escaped JSON
/// string literal, as serde_json's compact formatter writes it.
#[verifier::external_body]
pub fn quote_json(s: &str) -> (r: String)
    ensures
        r@ == json_quoted(s@),
{
    serde_json::Value::String(s.to_string()).to_string()
}

/// The kind of value a JSON document holds.
#[derive(Debug, Clone, Copy, PartialEq, Eq, Structural)]
pub enum JsonKind {
    Null,
    Bool,
    Number,
    String,
    Array,
    Object,
    /// The text is not JSON.
    Invalid,
}

/// The kind of value `text` parses to.
pub uninterp spec fn json_kind_of(text: Seq<char>) -> JsonKind;

/// `serde_json::from_str::<Value>`, then which variant the value is.
/// Depends on `text` alone.
#[verifier::external_body]
pub fn json_kind(text: &str) -> (r: JsonKind)
    ensures
        r == json_kind_of(text@),
{
    match serde_json::from_str::<serde_json::Value>(text) {
        Ok(serde_json::Value::Null) => JsonKind::Null,
        Ok(serde_json::Value::Bool(_)) => JsonKind::Bool,
        Ok(serde_json::Value::Number(_)) => JsonKind::Number,
        Ok(serde_json::Value::String(_)) => JsonKind::String,
        Ok(serde_json::Value::Array(_)) => JsonKind::Array,
        Ok(serde_json::Value::Object(_)) => JsonKind::Object,
        Err(_) => JsonKind::Invalid,
    }
}

/// The canonical texts of the items of the array `text` parses to (empty
/// for anything else).
pub uninterp spec fn json_items_of(text: Seq<char>) -> Seq<Seq<char>>;

/// `serde_json::from_str::<Value>`, then `Value::as_array`: each item's
/// compact serialisation, in order. Depends on `text` alone.
#[verifier::external_body]
pub fn json_items(text: &str) -> (r: Vec<String>)
    ensures
        r@.map_values(|s: String| s@) == json_items_of(text@),
{
    match serde_json::from_str::<serde_json::Value>(text) {
        Ok(serde_json::Value::Array(items)) => items.iter().map(|v| v.to_string()).collect(),
        _ => Vec::new(),
    }
}

/// The canonical text of member `key` of the object `text` parses to.
pub uninterp spec fn json_member(text: Seq<char>, key: Seq<char>) -> Option<Seq<char>>;

/// `serde_json::from_str::<Value>`, then `Value::get(key)`: the member's
/// compact serialisation; `None` when `text` is not an object or has no
/// such member. Depends on the two texts alone.
#[verifier::external_body]
pub fn json_get(text: &str, key: &str) -> (r: Option<String>)
    ensures
        match r {
            Some(m) => json_member(text@, key@) == Some(m@),
            None => json_member(text@, key@) is None,
        },
{
    match serde_json::from_str::<serde_json::Value>(text) {
        Ok(v) => v.get(key).map(|m| m.to_string()),
        Err(_) => None,
    }
}

/// The members of the object `text` parses to, each as its key and the
/// canonical text of its value, in the map's order (empty for anything
/// else).
pub uninterp spec fn json_entries_of(text: Seq<char>) -> Seq<(Seq<char>, Seq<char>)>;

/// `serde_json::from_str::<Value>`, then `Value::as_object`: each member's
/// key and the compact serialisation of its value, in iteration order.
/// Depends on `text` alone.
#[verifier::external_body]
pub fn json_entries(text: &str) -> (r: Vec<(String, String)>)
    ensures
        r@.map_values(|p: (String, String)| (p.0@, p.1@)) == json_entries_of(text@),
{
    match serde_json::from_str::<serde_json::Value>(text) {
        Ok(serde_json::Value::Object(m)) => m.iter().map(|(k, v)| (k.clone(), v.to_string())).collect(),
        _ => Vec::new(),
    }
}

/// The contents of the JSON string `text` parses to.
pub uninterp spec fn json_string_of(text: Seq<char>) -> Option<Seq<char>>;

/// `serde_json::from_str::<Value>`, then `Value::as_str`: the unescaped
/// contents when `text` is a JSON string. Depends on `text` alone.
#[verifier::external_body]
pub fn json_as_str(text: &str) -> (r: Option<String>)
    ensures
        match r {
            Some(s) => json_string_of(text@) == Some(s@),
            None => json_string_of(text@) is None,
        },
{
    match serde_json::from_str::<serde_json::Value>(text) {
        Ok(serde_json::Value::String(s)) => Some(s),
        _ => None,
    }
}

} // verus!
