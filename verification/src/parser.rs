//! The bridge to `serde_json`: parsing, and reading the tree it builds.

use crate::value::{Json, JsonValue};
use vstd::prelude::*;

verus! {

/// `serde_json::Value`, the tree that the parser builds.
#[verifier::external_type_specification]
#[verifier::external_body]
pub struct SerdeValue(serde_json::Value);

/// `serde_json::Error`, the parser's report of a failure.
#[verifier::external_type_specification]
#[verifier::external_body]
pub struct SerdeError(serde_json::Error);

/// What a `serde_json::Value` holds: its variant, a number as the text that
/// `serde_json::Number` displays, an object's entries in the order in which
/// its map hands them out.
pub uninterp spec fn json_tree(node: serde_json::Value) -> Json;

/// The text that a `serde_json::Error` displays.
pub uninterp spec fn error_text(error: serde_json::Error) -> Seq<char>;

/// What `serde_json::from_str` makes of `input`: the tree of the document, or
/// the text of the parser's error.
pub uninterp spec fn parsed(input: Seq<char>) -> Result<Json, Seq<char>>;

/// `serde_json::from_str` at `serde_json::Value`. The contract only gives the
/// outcome its name: which inputs parse, and to what, is the parser's matter.
#[verifier::external_body]
pub(crate) fn parse(input: &str) -> (outcome: Result<serde_json::Value, serde_json::Error>)
    ensures
        match outcome {
            Ok(node) => parsed(input@) == Ok::<Json, Seq<char>>(json_tree(node)),
            Err(error) => parsed(input@) == Err::<Json, Seq<char>>(error_text(error)),
        },
{
    serde_json::from_str::<serde_json::Value>(input)
}

/// `to_string` on a `serde_json::Error`, which writes what the error
/// displays.
#[verifier::external_body]
pub(crate) fn error_message(error: &serde_json::Error) -> (message: String)
    ensures
        message@ == error_text(*error),
{
    error.to_string()
}

/// `serde_json::Value::as_bool` gives the boolean of a `Bool` and nothing for
/// any other variant.
pub assume_specification[ serde_json::Value::as_bool ](node: &serde_json::Value) -> (flag: Option<bool>)
    ensures
        flag == (match json_tree(*node) {
            Json::Bool(held) => Some(held),
            _ => None,
        }),
;

/// `serde_json::Value::as_str` gives the text of a `String` and nothing for
/// any other variant.
pub assume_specification[ serde_json::Value::as_str ](node: &serde_json::Value) -> (text: Option<&str>)
    ensures
        match json_tree(*node) {
            Json::String(held) => text matches Some(found) && found@ == held,
            _ => text is None,
        },
;

/// `serde_json::Value::as_array` gives the elements of an `Array`, in their
/// order, and nothing for any other variant.
pub assume_specification[ serde_json::Value::as_array ](node: &serde_json::Value) -> (items: Option<&Vec<serde_json::Value>>)
    ensures
        match json_tree(*node) {
            Json::Array(held) => items matches Some(found) && found@.len() == held.len()
                && forall|i: int| 0 <= i < held.len() ==> json_tree(#[trigger] found@[i]) == held[i],
            _ => items is None,
        },
;

/// `serde_json::Value::as_number` and `to_string` on the `Number` found: the
/// text of a `Number`, and nothing for any other variant.
#[verifier::external_body]
pub(crate) fn number_text(node: &serde_json::Value) -> (text: Option<String>)
    ensures
        match json_tree(*node) {
            Json::Number(held) => text matches Some(found) && found@ == held,
            _ => text is None,
        },
{
    node.as_number().map(|number| number.to_string())
}

/// `serde_json::Value::as_object` and `serde_json::Map::iter`: the entries of
/// an `Object`, in the order of the map's iterator, and nothing for any other
/// variant.
#[verifier::external_body]
pub(crate) fn object_entries(node: &serde_json::Value) -> (entries: Option<Vec<(&String, &serde_json::Value)>>)
    ensures
        match json_tree(*node) {
            Json::Object(held) => entries matches Some(found) && found@.len() == held.len()
                && forall|i: int|
                0 <= i < held.len() ==> (#[trigger] found@[i]).0@ == held[i].0 && json_tree(*found@[i].1)
                    == held[i].1,
            _ => entries is None,
        },
{
    node.as_object().map(|object| object.iter().collect())
}

/// Copies the tree that `serde_json` built into a [`JsonValue`].
pub fn from_json(node: &serde_json::Value) -> (value: JsonValue)
    ensures
        value@ == json_tree(*node),
    decreases json_tree(*node),
{
    if let Some(flag) = node.as_bool() {
        return JsonValue::Bool(flag);
    }
    if let Some(text) = number_text(node) {
        return JsonValue::Number(text);
    }
    if let Some(text) = node.as_str() {
        return JsonValue::String(text.to_owned());
    }
    if let Some(items) = node.as_array() {
        let mut copied: Vec<JsonValue> = Vec::new();
        let mut i: usize = 0;
        while i < items.len()
            invariant
                i <= items.len(),
                json_tree(*node) is Array,
                json_tree(*node)->Array_0.len() == items.len(),
                forall|k: int|
                    0 <= k < items.len() ==> json_tree(#[trigger] items@[k]) == json_tree(*node)->Array_0[k],
                copied.len() == i,
                forall|k: int| 0 <= k < i ==> (#[trigger] copied[k])@ == json_tree(*node)->Array_0[k],
            decreases items.len() - i,
        {
            let item = from_json(&items[i]);
            copied.push(item);
            i += 1;
        }
        let value = JsonValue::Array(copied);
        assert(value@->Array_0 =~= json_tree(*node)->Array_0);
        return value;
    }
    if let Some(entries) = object_entries(node) {
        let mut copied: Vec<(String, JsonValue)> = Vec::new();
        let mut i: usize = 0;
        while i < entries.len()
            invariant
                i <= entries.len(),
                json_tree(*node) is Object,
                json_tree(*node)->Object_0.len() == entries.len(),
                forall|k: int|
                    0 <= k < entries.len() ==> (#[trigger] entries@[k]).0@ == json_tree(*node)->Object_0[k].0
                        && json_tree(*entries@[k].1) == json_tree(*node)->Object_0[k].1,
                copied.len() == i,
                forall|k: int|
                    0 <= k < i ==> (#[trigger] copied[k]).0@ == json_tree(*node)->Object_0[k].0
                        && copied[k].1@ == json_tree(*node)->Object_0[k].1,
            decreases entries.len() - i,
        {
            let key = entries[i].0.clone();
            let field = from_json(entries[i].1);
            copied.push((key, field));
            i += 1;
        }
        let value = JsonValue::Object(copied);
        assert(value@->Object_0 =~= json_tree(*node)->Object_0);
        return value;
    }
    JsonValue::Null
}

} // verus!
