//! The JSON value tree and its mathematical model.

use vstd::prelude::*;

verus! {

/// A parsed JSON document. A number is held as its canonical decimal text, an
/// object as its fields in declaration order.
#[derive(Debug, PartialEq, Eq)]
pub enum JsonValue {
    Null,
    Bool(bool),
    Number(String),
    String(String),
    Array(Vec<JsonValue>),
    Object(Vec<(String, JsonValue)>),
}

/// What a [`JsonValue`] stands for: the same tree over sequences of characters.
pub enum Json {
    Null,
    Bool(bool),
    Number(Seq<char>),
    String(Seq<char>),
    Array(Seq<Json>),
    Object(Seq<(Seq<char>, Json)>),
}

impl Json {
    /// An object with exactly one field.
    pub open spec fn is_single(self) -> bool {
        self matches Json::Object(fields) && fields.len() == 1
    }
}

/// The tree that `value` stands for.
pub open spec fn tree_of(value: JsonValue) -> Json
    decreases value,
{
    match value {
        JsonValue::Null => Json::Null,
        JsonValue::Bool(flag) => Json::Bool(flag),
        JsonValue::Number(text) => Json::Number(text@),
        JsonValue::String(text) => Json::String(text@),
        JsonValue::Array(items) => Json::Array(
            Seq::new(
                items@.len(),
                |i: int|
                    if 0 <= i < items@.len() {
                        tree_of(items@[i])
                    } else {
                        Json::Null
                    },
            ),
        ),
        JsonValue::Object(fields) => Json::Object(
            Seq::new(
                fields@.len(),
                |i: int|
                    if 0 <= i < fields@.len() {
                        (fields@[i].0@, tree_of(fields@[i].1))
                    } else {
                        (Seq::empty(), Json::Null)
                    },
            ),
        ),
    }
}

impl View for JsonValue {
    type V = Json;

    open spec fn view(&self) -> Json {
        tree_of(*self)
    }
}

impl JsonValue {
    /// Whether this is an object with exactly one field.
    pub fn is_single(&self) -> (single: bool)
        ensures
            single == self@.is_single(),
    {
        match self {
            JsonValue::Object(fields) => fields.len() == 1,
            _ => false,
        }
    }
}

} // verus!
