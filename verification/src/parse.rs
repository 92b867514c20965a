//! JSON text to documents, by way of `serde_json`.
//!
//! `serde_json` parses; what it hands back is read one level at a time
//! through the small functions below, and copied into a [`JsonValue`] by
//! [`from_value`].

use vstd::prelude::*;
use crate::json::{
    Json, JsonKind, JsonNumber, JsonValue, double_is_whole, items_view, member_keys, members_view,
};

verus! {

/// `serde_json::Value`, the tree that the parser builds. It is carried as
/// it is; what it holds is seen through the functions below only.
#[verifier::external_type_specification]
#[verifier::external_body]
pub struct ExValue(serde_json::Value);

/// `serde_json::Error`, what the parser says of a text that is no JSON. It
/// is carried as it is.
#[verifier::external_type_specification]
#[verifier::external_body]
pub struct ExError(serde_json::Error);

/// The document that a `serde_json::Value` holds: its variant, and below
/// it the boolean, the text, the items in order or the members in the
/// order in which the map hands them out. Of a number it holds whether
/// `as_f64` gives a whole number.
pub uninterp spec fn value_model(value: serde_json::Value) -> Json;

/// What `serde_json::from_str` makes of a text: the document that the
/// parsed `Value` holds, or nothing where it reports an error.
pub uninterp spec fn parsed_text(text: Seq<char>) -> Option<Json>;

/// `serde_json::from_str::<Value>`. The result is a function of the text
/// alone; the contract gives it its name and says no more of it.
#[verifier::external_body]
fn parse_value(text: &str) -> (parsed: Result<serde_json::Value, serde_json::Error>)
    ensures
        match parsed {
            Ok(value) => parsed_text(text@) == Some(value_model(value)),
            Err(_) => parsed_text(text@) is None,
        },
{
    serde_json::from_str::<serde_json::Value>(text)
}

/// The message of a `serde_json::Error`, as its `Display` writes it.
/// Nothing is claimed of the text.
#[verifier::external_body]
fn error_text(error: &serde_json::Error) -> String {
    error.to_string()
}

/// Tells the six variants of `serde_json::Value` apart.
#[verifier::external_body]
fn kind_of(value: &serde_json::Value) -> (kind: JsonKind)
    ensures
        kind == value_model(*value).kind(),
{
    match value {
        serde_json::Value::Null => JsonKind::Null,
        serde_json::Value::Bool(_) => JsonKind::Bool,
        serde_json::Value::Number(_) => JsonKind::Number,
        serde_json::Value::String(_) => JsonKind::String,
        serde_json::Value::Array(_) => JsonKind::Array,
        serde_json::Value::Object(_) => JsonKind::Object,
    }
}

/// `Value::as_bool`, which gives the boolean of a `Value::Bool`.
#[verifier::external_body]
fn bool_of(value: &serde_json::Value) -> (held: bool)
    requires
        value_model(*value) is Bool,
    ensures
        Json::Bool(held) == value_model(*value),
{
    value.as_bool().unwrap()
}

/// `Value::as_str`, which gives the text of a `Value::String`.
#[verifier::external_body]
fn string_of(value: &serde_json::Value) -> (held: String)
    requires
        value_model(*value) is String,
    ensures
        Json::String(held@) == value_model(*value),
{
    value.as_str().unwrap().to_owned()
}

/// `Value::as_f64`, which gives a `Value::Number` as a double: the double
/// itself where the number is held as one, else the integer converted to a
/// double. The result is the double's bit pattern.
#[verifier::external_body]
fn number_bits(value: &serde_json::Value) -> (bits: u64)
    requires
        value_model(*value) is Number,
    ensures
        Json::Number(JsonNumber { integral: double_is_whole(bits) }) == value_model(*value),
{
    value.as_f64().unwrap().to_bits()
}

/// `Value::as_array`, which gives the items of a `Value::Array`, in order.
#[verifier::external_body]
fn items_of(value: &serde_json::Value) -> (items: Vec<&serde_json::Value>)
    requires
        value_model(*value) is Array,
    ensures
        items@.len() == value_model(*value)->Array_0.len(),
        forall|k: int|
            0 <= k < items@.len() ==> value_model(*(#[trigger] items@[k])) == value_model(
                *value,
            )->Array_0[k],
{
    value.as_array().unwrap().iter().collect()
}

/// `Value::as_object` and `Map::iter`, which give the members of a
/// `Value::Object`, each key once, in the map's order.
#[verifier::external_body]
fn members_of(value: &serde_json::Value) -> (members: Vec<(&String, &serde_json::Value)>)
    requires
        value_model(*value) is Object,
    ensures
        members@.len() == value_model(*value)->Object_0.len(),
        forall|k: int|
            0 <= k < members@.len() ==> {
                &&& (#[trigger] members@[k]).0@ == value_model(*value)->Object_0[k].0
                &&& value_model(*members@[k].1) == value_model(*value)->Object_0[k].1
            },
        forall|a: int, b: int|
            0 <= a < b < members@.len() ==> (#[trigger] members@[a]).0@ != (
            #[trigger] members@[b]).0@,
{
    value.as_object().unwrap().iter().collect()
}

/// Why a text is no JSON document.
#[derive(Debug, PartialEq, Eq)]
pub struct ParseError {
    /// What the parser says of the text.
    pub message: String,
}

/// Copies a `serde_json::Value` into a document.
///
/// A number is kept by whether it is whole; the members of an object come
/// in the order in which the map hands them out, and no key comes twice.
pub fn from_value(value: &serde_json::Value) -> (document: JsonValue)
    ensures
        document@ == value_model(*value),
        document@.unique_keys(),
    decreases value_model(*value),
{
    let ghost model = value_model(*value);
    match kind_of(value) {
        JsonKind::Null => JsonValue::Null,
        JsonKind::Bool => JsonValue::Bool(bool_of(value)),
        JsonKind::Number => JsonValue::Number(JsonNumber::from_bits(number_bits(value))),
        JsonKind::String => JsonValue::String(string_of(value)),
        JsonKind::Array => {
            let items = items_of(value);
            let ghost held = model->Array_0;
            let mut copied: Vec<JsonValue> = Vec::new();
            let mut i: usize = 0;
            while i < items.len()
                invariant
                    i <= items.len(),
                    model == value_model(*value),
                    model == Json::Array(held),
                    items@.len() == held.len(),
                    forall|k: int|
                        0 <= k < items@.len() ==> value_model(*(#[trigger] items@[k])) == held[k],
                    copied@.len() == i,
                    forall|k: int|
                        0 <= k < i ==> (#[trigger] copied@[k])@ == held[k]
                            && copied@[k]@.unique_keys(),
                decreases items.len() - i,
            {
                proof {
                    assert(decreases_to!(model => model->Array_0));
                    assert(decreases_to!(held => held[i as int]));
                }
                let item = from_value(items[i]);
                copied.push(item);
                i += 1;
            }
            assert(items_view(copied@) =~= held);
            JsonValue::Array(copied)
        },
        JsonKind::Object => {
            let members = members_of(value);
            let ghost held = model->Object_0;
            let mut copied: Vec<(String, JsonValue)> = Vec::new();
            let mut i: usize = 0;
            while i < members.len()
                invariant
                    i <= members.len(),
                    model == value_model(*value),
                    model == Json::Object(held),
                    members@.len() == held.len(),
                    forall|k: int|
                        0 <= k < members@.len() ==> {
                            &&& (#[trigger] members@[k]).0@ == held[k].0
                            &&& value_model(*members@[k].1) == held[k].1
                        },
                    copied@.len() == i,
                    forall|k: int|
                        0 <= k < i ==> {
                            &&& (#[trigger] copied@[k]).0@ == held[k].0
                            &&& copied@[k].1@ == held[k].1
                            &&& copied@[k].1@.unique_keys()
                        },
                decreases members.len() - i,
            {
                proof {
                    assert(decreases_to!(model => model->Object_0));
                    assert(decreases_to!(held => held[i as int]));
                    assert(decreases_to!(held[i as int] => held[i as int].1));
                }
                let key = members[i].0.clone();
                let item = from_value(members[i].1);
                copied.push((key, item));
                i += 1;
            }
            assert(members_view(copied@) =~= held);
            assert(member_keys(held).no_duplicates()) by {
                assert forall|a: int, b: int|
                    0 <= a < held.len() && 0 <= b < held.len() && a != b implies member_keys(
                    held,
                )[a] != member_keys(held)[b] by {
                    if a < b {
                        assert(members@[a].0@ != members@[b].0@);
                    } else {
                        assert(members@[b].0@ != members@[a].0@);
                    }
                }
            }
            JsonValue::Object(copied)
        },
    }
}

/// Parses a text as a JSON document.
///
/// Gives the document that `serde_json` reads in the text, or its message
/// where it reads none.
pub fn parse_json(text: &str) -> (parsed: Result<JsonValue, ParseError>)
    ensures
        match parsed {
            Ok(document) => parsed_text(text@) == Some(document@) && document@.unique_keys(),
            Err(_) => parsed_text(text@) is None,
        },
{
    match parse_value(text) {
        Ok(value) => Ok(from_value(&value)),
        Err(error) => Err(ParseError { message: error_text(&error) }),
    }
}

} // verus!
