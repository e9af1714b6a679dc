//! JSON documents as the library reads them: configuration sections, model
//! replies and node metadata.
//!
//! `JsonValue` holds a document with the shape `serde_json` gives it; the
//! text is parsed by `serde_json` and the accessors below read the result
//! with exact contracts.  A floating-point number is kept as its text: no
//! reader of the library computes with one.

use vstd::prelude::*;
use crate::text::str_eq;

verus! {

#[verifier::external_type_specification]
#[verifier::external_body]
pub struct ExJsonValue(serde_json::Value);

/// A JSON number as `serde_json` keeps it.
#[derive(Debug)]
pub enum JsonNumber {
    /// A non-negative integer.
    PosInt(u64),
    /// A negative integer.
    NegInt(i64),
    /// A floating-point number, as the text `serde_json` writes for it.
    Float(String),
}

/// A JSON document.  An object keeps its members in order.
#[derive(Debug)]
pub enum JsonValue {
    Null,
    Bool(bool),
    Number(JsonNumber),
    Str(String),
    Array(Vec<JsonValue>),
    Object(Vec<(String, JsonValue)>),
}

// ---------------------------------------------------------------------------
// The model
// ---------------------------------------------------------------------------

/// The value of the first member named `key`.
pub open spec fn entry_value(entries: Seq<(String, JsonValue)>, key: Seq<char>) -> Option<JsonValue>
    decreases entries.len(),
{
    if entries.len() == 0 {
        None
    } else if entries[0].0@ == key {
        Some(entries[0].1)
    } else {
        entry_value(entries.drop_first(), key)
    }
}

/// `value[key]`: the member of an object, `None` for anything else.
pub open spec fn field_of(value: JsonValue, key: Seq<char>) -> Option<JsonValue> {
    match value {
        JsonValue::Object(entries) => entry_value(entries@, key),
        _ => None,
    }
}

/// `value[key]` of a value that may be missing.
pub open spec fn opt_field(value: Option<JsonValue>, key: Seq<char>) -> Option<JsonValue> {
    match value {
        Some(v) => field_of(v, key),
        None => None,
    }
}

/// The boolean a value is, if it is one.
pub open spec fn bool_of(value: JsonValue) -> Option<bool> {
    match value {
        JsonValue::Bool(b) => Some(b),
        _ => None,
    }
}

/// The unsigned integer a value is, if it is a non-negative integer.
pub open spec fn u64_of(value: JsonValue) -> Option<u64> {
    match value {
        JsonValue::Number(JsonNumber::PosInt(n)) => Some(n),
        _ => None,
    }
}

/// The signed integer a value is, if it is an integer that fits in an `i64`.
pub open spec fn i64_of(value: JsonValue) -> Option<i64> {
    match value {
        JsonValue::Number(JsonNumber::PosInt(n)) => if n <= i64::MAX {
            Some(n as i64)
        } else {
            None
        },
        JsonValue::Number(JsonNumber::NegInt(n)) => Some(n),
        _ => None,
    }
}

/// The text a value is, if it is a string.
pub open spec fn str_of(value: JsonValue) -> Option<Seq<char>> {
    match value {
        JsonValue::Str(s) => Some(s@),
        _ => None,
    }
}

/// The text at `value[key]`, if it is a string.
pub open spec fn str_field_of(value: JsonValue, key: Seq<char>) -> Option<Seq<char>> {
    match field_of(value, key) {
        Some(v) => str_of(v),
        None => None,
    }
}

/// The first item of a value, if it is a non-empty array.
pub open spec fn first_item_of(value: JsonValue) -> Option<JsonValue> {
    match value {
        JsonValue::Array(items) => if items@.len() > 0 {
            Some(items@[0])
        } else {
            None
        },
        _ => None,
    }
}

/// `config[section][key]`.
pub open spec fn config_entry_of(config: JsonValue, section: Seq<char>, key: Seq<char>) -> Option<
    JsonValue,
> {
    opt_field(field_of(config, section), key)
}

/// `config[section][key]` when it is a boolean.
pub open spec fn config_bool_of(config: JsonValue, section: Seq<char>, key: Seq<char>) -> Option<bool> {
    match config_entry_of(config, section, key) {
        Some(v) => bool_of(v),
        None => None,
    }
}

/// `config[section][key]` when it is a non-negative integer.
pub open spec fn config_u64_of(config: JsonValue, section: Seq<char>, key: Seq<char>) -> Option<u64> {
    match config_entry_of(config, section, key) {
        Some(v) => u64_of(v),
        None => None,
    }
}

// ---------------------------------------------------------------------------
// Parsing
// ---------------------------------------------------------------------------

/// The document `serde_json` parses from a text, `None` when the text is
/// not one JSON document.
pub uninterp spec fn parsed_json(text: Seq<char>) -> Option<JsonValue>;

/// `serde_json::from_str::<serde_json::Value>`, the parsed value taken over
/// variant for variant, with a parse error as `None`.
///
/// Claimed: the result depends on the text alone (it is `parsed_json` of
/// the text).  What `serde_json` accepts and builds is not stated.
#[verifier::external_body]
pub(crate) fn parse_json(text: &str) -> (r: Option<JsonValue>)
    ensures
        r == parsed_json(text@),
{
    match serde_json::from_str::<serde_json::Value>(text) {
        Ok(value) => Some(json_from_serde(value)),
        Err(_) => None,
    }
}

/// A `serde_json::Value` taken over variant for variant: numbers by
/// `Number::as_u64` and `Number::as_i64`, a float by its text, members in
/// the map's order.
///
/// Nothing is stated of the result: the argument is opaque.
#[verifier::external_body]
fn json_from_serde(value: serde_json::Value) -> JsonValue {
    match value {
        serde_json::Value::Null => JsonValue::Null,
        serde_json::Value::Bool(b) => JsonValue::Bool(b),
        serde_json::Value::Number(n) => JsonValue::Number(match (n.as_u64(), n.as_i64()) {
            (Some(u), _) => JsonNumber::PosInt(u),
            (None, Some(i)) => JsonNumber::NegInt(i),
            (None, None) => JsonNumber::Float(n.to_string()),
        }),
        serde_json::Value::String(s) => JsonValue::Str(s),
        serde_json::Value::Array(items) => JsonValue::Array(items.into_iter().map(json_from_serde).collect()),
        serde_json::Value::Object(map) => JsonValue::Object(map.into_iter().map(|(k, v)| (k, json_from_serde(v))).collect()),
    }
}

// ---------------------------------------------------------------------------
// Reading
// ---------------------------------------------------------------------------

/// `value[key]`: the first member named `key` of an object.
pub fn json_get<'a>(value: &'a JsonValue, key: &str) -> (r: Option<&'a JsonValue>)
    ensures
        match field_of(*value, key@) {
            Some(x) => r matches Some(y) && *y == x,
            None => r is None,
        },
{
    match value {
        JsonValue::Object(entries) => {
            let mut i: usize = 0;
            assert(entries@.skip(0) =~= entries@);
            while i < entries.len()
                invariant
                    0 <= i <= entries@.len(),
                    field_of(*value, key@) == entry_value(entries@, key@),
                    entry_value(entries@, key@) == entry_value(entries@.skip(i as int), key@),
                decreases entries.len() - i,
            {
                assert(entries@.skip(i as int)[0] == entries@[i as int]);
                assert(entries@.skip(i as int).drop_first() =~= entries@.skip(i + 1));
                if str_eq(entries[i].0.as_str(), key) {
                    assert(entries@.skip(i as int).len() > 0);
                    assert(entry_value(entries@.skip(i as int), key@) == Some(entries@[i as int].1));
                    return Some(&entries[i].1);
                }
                i = i + 1;
            }
            assert(entries@.skip(i as int).len() == 0);
            None
        },
        _ => None,
    }
}

/// `value[key]` taken out of the document.
pub fn json_take(value: JsonValue, key: &str) -> (r: Option<JsonValue>)
    ensures
        r == field_of(value, key@),
{
    match value {
        JsonValue::Object(entries) => {
            let ghost all = entries@;
            let mut entries = entries;
            let mut i: usize = 0;
            assert(all.skip(0) =~= all);
            while i < entries.len()
                invariant
                    entries@ == all,
                    field_of(value, key@) == entry_value(all, key@),
                    0 <= i <= all.len(),
                    entry_value(all, key@) == entry_value(all.skip(i as int), key@),
                decreases entries.len() - i,
            {
                assert(all.skip(i as int)[0] == all[i as int]);
                assert(all.skip(i as int).drop_first() =~= all.skip(i + 1));
                if str_eq(entries[i].0.as_str(), key) {
                    assert(all.skip(i as int).len() > 0);
                    assert(entry_value(all.skip(i as int), key@) == Some(all[i as int].1));
                    let (_, v) = entries.remove(i);
                    return Some(v);
                }
                i = i + 1;
            }
            assert(all.skip(i as int).len() == 0);
            None
        },
        _ => None,
    }
}

/// `Value::as_bool`.
pub fn json_as_bool(value: &JsonValue) -> (r: Option<bool>)
    ensures
        r == bool_of(*value),
{
    match value {
        JsonValue::Bool(b) => Some(*b),
        _ => None,
    }
}

/// `Value::as_u64`.
pub fn json_as_u64(value: &JsonValue) -> (r: Option<u64>)
    ensures
        r == u64_of(*value),
{
    match value {
        JsonValue::Number(JsonNumber::PosInt(n)) => Some(*n),
        _ => None,
    }
}

/// `Value::as_i64`.
pub fn json_as_i64(value: &JsonValue) -> (r: Option<i64>)
    ensures
        r == i64_of(*value),
{
    match value {
        JsonValue::Number(JsonNumber::PosInt(n)) => if *n <= 9223372036854775807u64 {
            Some(*n as i64)
        } else {
            None
        },
        JsonValue::Number(JsonNumber::NegInt(n)) => Some(*n),
        _ => None,
    }
}

/// `Value::as_str`.
pub fn json_as_str(value: &JsonValue) -> (r: Option<&str>)
    ensures
        match str_of(*value) {
            Some(s) => r matches Some(t) && t@ == s,
            None => r is None,
        },
{
    match value {
        JsonValue::Str(s) => Some(s.as_str()),
        _ => None,
    }
}

/// `Value::is_object`.
pub fn json_is_object(value: &JsonValue) -> (r: bool)
    ensures
        r == (*value is Object),
{
    match value {
        JsonValue::Object(_) => true,
        _ => false,
    }
}

/// The first item of `value` when it is a non-empty array.
pub fn json_first_item(value: &JsonValue) -> (r: Option<&JsonValue>)
    ensures
        match first_item_of(*value) {
            Some(x) => r matches Some(y) && *y == x,
            None => r is None,
        },
{
    match value {
        JsonValue::Array(items) => if items.len() > 0 {
            Some(&items[0])
        } else {
            None
        },
        _ => None,
    }
}

/// The string at `value[key]`, when there is one.
pub fn json_str_field<'a>(value: &'a JsonValue, key: &str) -> (r: Option<&'a str>)
    ensures
        match str_field_of(*value, key@) {
            Some(s) => r matches Some(t) && t@ == s,
            None => r is None,
        },
{
    match json_get(value, key) {
        Some(v) => json_as_str(v),
        None => None,
    }
}

/// The value at `config[section][key]`, when both members exist.
pub fn config_entry<'a>(config: &'a JsonValue, section: &str, key: &str) -> (r: Option<&'a JsonValue>)
    ensures
        match config_entry_of(*config, section@, key@) {
            Some(x) => r matches Some(y) && *y == x,
            None => r is None,
        },
{
    match json_get(config, section) {
        Some(inner) => json_get(inner, key),
        None => None,
    }
}

/// `config[section][key]` when it is a boolean.
pub fn config_bool(config: &JsonValue, section: &str, key: &str) -> (r: Option<bool>)
    ensures
        r == config_bool_of(*config, section@, key@),
{
    match config_entry(config, section, key) {
        Some(v) => json_as_bool(v),
        None => None,
    }
}

/// `config[section][key]` when it is a non-negative integer.
pub fn config_u64(config: &JsonValue, section: &str, key: &str) -> (r: Option<u64>)
    ensures
        r == config_u64_of(*config, section@, key@),
{
    match config_entry(config, section, key) {
        Some(v) => json_as_u64(v),
        None => None,
    }
}

/// The active character profile: `active_character` when present, else
/// `active_agent_profile`; either only when it is a string.
pub open spec fn active_profile_of(config: JsonValue) -> Option<Seq<char>> {
    match field_of(config, "active_character"@) {
        Some(v) => str_of(v),
        None => str_field_of(config, "active_agent_profile"@),
    }
}

/// The active character profile of a configuration.
pub fn active_profile(config: &JsonValue) -> (r: Option<&str>)
    ensures
        match active_profile_of(*config) {
            Some(s) => r matches Some(t) && t@ == s,
            None => r is None,
        },
{
    let entry = match json_get(config, "active_character") {
        Some(v) => Some(v),
        None => json_get(config, "active_agent_profile"),
    };
    match entry {
        Some(v) => json_as_str(v),
        None => None,
    }
}

} // verus!
