//! Building JSON values.

use vstd::prelude::*;

verus! {

/// `serde_json::Value`.
#[verifier::external_type_specification]
#[verifier::external_body]
pub struct ExValue(serde_json::Value);

/// The JSON value that a [`serde_json::Value`] holds.
pub enum Json {
    Bool(bool),
    Int(int),
    Str(Seq<char>),
    Array(Seq<Json>),
    Object(Map<Seq<char>, Json>),
}

/// What a `serde_json::Value` holds.
pub uninterp spec fn json_of(v: serde_json::Value) -> Json;

/// What each of a sequence of values holds.
pub open spec fn jsons(vs: Seq<serde_json::Value>) -> Seq<Json> {
    vs.map_values(|v: serde_json::Value| json_of(v))
}

/// `Value::from(&str)` makes a JSON string of the text.
#[verifier::external_body]
pub(crate) fn json_string(s: &str) -> (v: serde_json::Value)
    ensures
        json_of(v) == Json::Str(s@),
{
    serde_json::Value::from(s)
}

/// `Value::from(bool)` makes a JSON boolean.
#[verifier::external_body]
pub(crate) fn json_bool(b: bool) -> (v: serde_json::Value)
    ensures
        json_of(v) == Json::Bool(b),
{
    serde_json::Value::from(b)
}

/// `Value::from(i64)` makes a JSON number.
#[verifier::external_body]
pub(crate) fn json_int(n: i64) -> (v: serde_json::Value)
    ensures
        json_of(v) == Json::Int(n as int),
{
    serde_json::Value::from(n)
}

/// `Value::from(Vec<Value>)` makes a JSON array of the items, in order.
#[verifier::external_body]
pub(crate) fn json_array(items: Vec<serde_json::Value>) -> (v: serde_json::Value)
    ensures
        json_of(v) == Json::Array(jsons(items@)),
{
    serde_json::Value::from(items)
}

/// The object with the given fields; of two with the same name the later one
/// counts.
pub open spec fn object_of(fields: Seq<(String, serde_json::Value)>) -> Map<Seq<char>, Json>
    decreases fields.len(),
{
    if fields.len() == 0 {
        Map::empty()
    } else {
        object_of(fields.drop_last()).insert(fields.last().0@, json_of(fields.last().1))
    }
}

/// `Value::from_iter` over pairs makes a JSON object of them: it inserts one
/// after the other, so of two pairs with the same name the later one counts.
#[verifier::external_body]
pub(crate) fn json_object(fields: Vec<(String, serde_json::Value)>) -> (v: serde_json::Value)
    ensures
        json_of(v) == Json::Object(object_of(fields@)),
{
    fields.into_iter().collect::<serde_json::Value>()
}

/// `Value::clone` makes a value that holds the same.
#[verifier::external_body]
pub(crate) fn json_copy(v: &serde_json::Value) -> (copy: serde_json::Value)
    ensures
        json_of(copy) == json_of(*v),
{
    v.clone()
}

} // verus!
