//! JSON documents, read with `serde_json`.
//!
//! The parser and the accessors of `serde_json::Value` are called as they are.
//! What they return is not proved here: each call stands in a small function
//! whose contract is taken on trust, stated over the model `Json` below.

use vstd::prelude::*;

verus! {

/// A JSON document, as far as this library looks into one.
pub enum Json {
    Null,
    Bool(bool),
    /// A number, with its value where the parser holds it as an integer and
    /// `None` where it holds it as a float.
    Number(Option<int>),
    Text(Seq<char>),
    Array(Seq<Json>),
    Object(Map<Seq<char>, Json>),
}

impl Json {
    /// The member `key` of an object; `Null` where there is none, and where this
    /// is no object.
    pub open spec fn member(self, key: Seq<char>) -> Json {
        match self {
            Json::Object(members) => if members.contains_key(key) {
                members[key]
            } else {
                Json::Null
            },
            _ => Json::Null,
        }
    }

    /// The element at `index` of an array; `Null` where there is none, and where
    /// this is no array.
    pub open spec fn element(self, index: int) -> Json {
        match self {
            Json::Array(elements) => if 0 <= index < elements.len() {
                elements[index]
            } else {
                Json::Null
            },
            _ => Json::Null,
        }
    }

    /// The value of an integer that fits in 64 bits unsigned.
    pub open spec fn unsigned(self) -> Option<u64> {
        match self {
            Json::Number(Some(n)) => if 0 <= n <= u64::MAX {
                Some(n as u64)
            } else {
                None
            },
            _ => None,
        }
    }

    /// The characters of a string.
    pub open spec fn text(self) -> Option<Seq<char>> {
        match self {
            Json::Text(characters) => Some(characters),
            _ => None,
        }
    }
}

/// `serde_json::Value`, carried through as it is: nothing inside it is seen here.
#[verifier::external_type_specification]
#[verifier::external_body]
pub struct ExValue(serde_json::Value);

/// `serde_json::Error`, carried through as it is.
#[verifier::external_type_specification]
#[verifier::external_body]
pub struct ExError(serde_json::Error);

/// The document that a `serde_json::Value` holds.
pub uninterp spec fn json_of(value: serde_json::Value) -> Json;

/// The text that a `serde_json::Error` displays.
pub uninterp spec fn error_text_of(error: serde_json::Error) -> Seq<char>;

/// What `serde_json::from_slice` makes of these bytes: the document that they
/// spell, or the text of the error that it reports.
pub uninterp spec fn json_parsed(bytes: Seq<u8>) -> Result<Json, Seq<char>>;

/// `serde_json::from_slice` for a `Value`. Taken on trust: the outcome depends on
/// the bytes alone, as `json_parsed` names it.
#[verifier::external_body]
pub(crate) fn parse(bytes: &[u8]) -> (parsed: Result<serde_json::Value, serde_json::Error>)
    ensures
        match parsed {
            Ok(value) => json_parsed(bytes@) == Ok::<Json, Seq<char>>(json_of(value)),
            Err(error) => json_parsed(bytes@) == Err::<Json, Seq<char>>(error_text_of(error)),
        },
{
    serde_json::from_slice(bytes)
}

/// `Display` of `serde_json::Error`. Taken on trust: the string holds the text
/// of the error.
#[verifier::external_body]
pub(crate) fn error_text(error: &serde_json::Error) -> (text: String)
    ensures
        text@ == error_text_of(*error),
{
    error.to_string()
}

/// `value[key]` for a string key. Taken on trust: it is the member of that name
/// where `value` is an object that has one, and `Null` otherwise.
#[verifier::external_body]
pub(crate) fn member<'a>(value: &'a serde_json::Value, key: &str) -> (found: &'a serde_json::Value)
    ensures
        json_of(*found) == json_of(*value).member(key@),
{
    &value[key]
}

/// `value[index]` for a position. Taken on trust: it is the element at that
/// position where `value` is an array that has one, and `Null` otherwise.
#[verifier::external_body]
pub(crate) fn element<'a>(value: &'a serde_json::Value, index: usize) -> (found: &'a serde_json::Value)
    ensures
        json_of(*found) == json_of(*value).element(index as int),
{
    &value[index]
}

/// `Value::as_u64`. Taken on trust: it gives the value of a number held as an
/// integer from 0 to `u64::MAX`, and `None` for anything else.
#[verifier::external_body]
pub(crate) fn as_u64(value: &serde_json::Value) -> (number: Option<u64>)
    ensures
        number == json_of(*value).unsigned(),
{
    value.as_u64()
}

/// `Value::as_str`. Taken on trust: it gives the characters of a string, and
/// `None` for anything else.
#[verifier::external_body]
pub(crate) fn as_str<'a>(value: &'a serde_json::Value) -> (text: Option<&'a str>)
    ensures
        match text {
            Some(characters) => json_of(*value).text() == Some(characters@),
            None => json_of(*value).text() is None,
        },
{
    value.as_str()
}

} // verus!
