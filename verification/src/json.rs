//! JSON values, built and read through `serde_json`.
//!
//! A `serde_json::Value` is opaque to the verifier. [`content`] names the JSON
//! data that one holds, and the functions here say what each `serde_json`
//! operation does to it.
use vstd::prelude::*;

verus! {

/// `serde_json::Value`, a JSON value.
#[verifier::external_type_specification]
#[verifier::external_body]
pub struct ExValue(serde_json::Value);

/// `serde_json::Error`, the reason a JSON operation failed.
#[verifier::external_type_specification]
#[verifier::external_body]
pub struct ExError(serde_json::Error);

/// A JSON number: an integer, or the text of any other number.
pub enum JsonNumber {
    Integer(int),
    Other(Seq<char>),
}

/// JSON data. An object maps each of its keys to one value and has no order.
#[verifier::ext_equal]
pub enum Json {
    Null,
    Bool(bool),
    Number(JsonNumber),
    Text(Seq<char>),
    Array(Seq<Json>),
    Object(Map<Seq<char>, Json>),
}

/// The JSON data that a `serde_json::Value` holds.
pub uninterp spec fn content(value: serde_json::Value) -> Json;

/// The bytes that `serde_json` writes for JSON data.
pub uninterp spec fn json_text(data: Json) -> Seq<u8>;

/// The JSON data that `serde_json` reads from bytes, if they are one JSON text.
pub uninterp spec fn json_parsed(bytes: Seq<u8>) -> Option<Json>;

impl Json {
    /// The entry of an object under `key`; null for any other value or key.
    pub open spec fn entry(self, key: Seq<char>) -> Json {
        match self {
            Json::Object(entries) => if entries.contains_key(key) {
                entries[key]
            } else {
                Json::Null
            },
            _ => Json::Null,
        }
    }

    /// The number this is, if it is one that a `u64` holds.
    pub open spec fn unsigned(self) -> Option<u64> {
        match self {
            Json::Number(JsonNumber::Integer(n)) if 0 <= n <= u64::MAX => Some(n as u64),
            _ => None,
        }
    }

    /// The text this is, if it is text.
    pub open spec fn text(self) -> Option<Seq<char>> {
        match self {
            Json::Text(text) => Some(text),
            _ => None,
        }
    }

    /// An unsigned number.
    pub open spec fn from_unsigned(n: u64) -> Json {
        Json::Number(JsonNumber::Integer(n as int))
    }

    /// A text, or null when there is none.
    pub open spec fn from_optional_text(text: Option<Seq<char>>) -> Json {
        match text {
            Some(text) => Json::Text(text),
            None => Json::Null,
        }
    }

    /// The object without entries.
    pub open spec fn empty_object() -> Json {
        Json::Object(Map::empty())
    }

    /// This object with `value` under `key`.
    pub open spec fn with(self, key: Seq<char>, value: Json) -> Json {
        match self {
            Json::Object(entries) => Json::Object(entries.insert(key, value)),
            _ => self,
        }
    }
}

/// The JSON data of each of a list of values.
pub open spec fn contents(values: Seq<serde_json::Value>) -> Seq<Json> {
    values.map_values(|value: serde_json::Value| content(value))
}

/// `serde_json::Value::Null` is JSON null.
#[verifier::external_body]
pub(crate) fn null() -> (value: serde_json::Value)
    ensures
        content(value) == Json::Null,
{
    serde_json::Value::Null
}

/// `serde_json::Value::from` makes a boolean a JSON boolean.
#[verifier::external_body]
pub(crate) fn boolean(b: bool) -> (value: serde_json::Value)
    ensures
        content(value) == Json::Bool(b),
{
    serde_json::Value::from(b)
}

/// `serde_json::Value::from` makes a `u64` the JSON number of the same value.
#[verifier::external_body]
pub(crate) fn unsigned(n: u64) -> (value: serde_json::Value)
    ensures
        content(value) == Json::from_unsigned(n),
{
    serde_json::Value::from(n)
}

/// `serde_json::Value::from` makes a string slice a JSON string of the same text.
#[verifier::external_body]
pub(crate) fn text(s: &str) -> (value: serde_json::Value)
    ensures
        content(value) == Json::Text(s@),
{
    serde_json::Value::from(s)
}

/// `serde_json::Value::from` makes a vector of values the JSON array of them, in order.
#[verifier::external_body]
pub(crate) fn array(items: Vec<serde_json::Value>) -> (value: serde_json::Value)
    ensures
        content(value) == Json::Array(contents(items@)),
{
    serde_json::Value::from(items)
}

/// `serde_json::Map::new` makes a map without entries, which
/// `serde_json::Value::Object` holds as a JSON object.
#[verifier::external_body]
pub(crate) fn object() -> (value: serde_json::Value)
    ensures
        content(value) == Json::empty_object(),
{
    serde_json::Value::Object(serde_json::Map::new())
}

/// Assigning through `serde_json::Value`'s `IndexMut` by a key sets that entry
/// of an object, replacing an earlier one. It panics on a value that is neither
/// an object nor null; only objects are admitted.
#[verifier::external_body]
pub(crate) fn set_entry(value: &mut serde_json::Value, key: &str, entry: serde_json::Value)
    requires
        content(*old(value)) is Object,
    ensures
        content(*final(value)) == content(*old(value)).with(key@, content(entry)),
{
    value[key] = entry;
}

/// `serde_json::Value`'s `Index` by a key gives that entry of an object, and null
/// for an absent key or a value that is no object.
#[verifier::external_body]
pub(crate) fn entry<'a>(value: &'a serde_json::Value, key: &str) -> (found: &'a serde_json::Value)
    ensures
        content(*found) == content(*value).entry(key@),
{
    &value[key]
}

/// `serde_json::Value::as_u64` gives the number of a value that is a non-negative
/// integer below 2^64.
#[verifier::external_body]
pub(crate) fn as_u64(value: &serde_json::Value) -> (n: Option<u64>)
    ensures
        n == content(*value).unsigned(),
{
    value.as_u64()
}

/// `serde_json::Value::as_str` gives the text of a value that is a string.
#[verifier::external_body]
pub(crate) fn as_str(value: &serde_json::Value) -> (text: Option<&str>)
    ensures
        content(*value).text() == (match text {
            Some(text) => Some(text@),
            None => None,
        }),
{
    value.as_str()
}

/// `serde_json::Value`'s `Clone` copies the JSON data.
#[verifier::external_body]
pub(crate) fn copy(value: &serde_json::Value) -> (copied: serde_json::Value)
    ensures
        content(copied) == content(*value),
{
    value.clone()
}

/// `serde_json::to_vec` writes a value on one line: the compact form holds no
/// line feed, because a string's line feeds are escaped. Writing a value into
/// memory does not fail.
#[verifier::external_body]
pub(crate) fn to_vec(value: &serde_json::Value) -> (written: Result<Vec<u8>, serde_json::Error>)
    ensures
        written is Ok,
        written->Ok_0@ == json_text(content(*value)),
        !written->Ok_0@.contains(10u8),
{
    serde_json::to_vec(value)
}

/// `serde_json::from_slice` reads one JSON value that takes up all the bytes.
#[verifier::external_body]
pub(crate) fn from_slice(bytes: &[u8]) -> (read: Result<serde_json::Value, serde_json::Error>)
    ensures
        json_parsed(bytes@) == (match read {
            Ok(value) => Some(content(value)),
            Err(_) => None,
        }),
{
    serde_json::from_slice(bytes)
}

/// An object with an entry set has that value under its key and is unchanged under
/// every other.
pub proof fn law_setting_an_entry_changes_one(
    object: Json,
    key: Seq<char>,
    value: Json,
    other: Seq<char>,
)
    requires
        object is Object,
    ensures
        object.with(key, value) is Object,
        object.with(key, value).entry(key) == value,
        other != key ==> object.with(key, value).entry(other) == object.entry(other),
        Json::empty_object().entry(other) == Json::Null,
{
}

} // verus!
