//! JSON values of `serde_json`, seen as trees.
use serde_json::{Map as JsonMap, Value};
use vstd::prelude::*;

verus! {

/// What a JSON value holds. Whole numbers and floating-point numbers are told
/// apart; a floating-point number is given by the key that orders its bit
/// pattern, so the two zeros are one.
pub enum JsonTree {
    Null,
    Bool(bool),
    Whole(int),
    Float(int),
    Text(Seq<char>),
    Array(Seq<JsonTree>),
    Object(Map<Seq<char>, JsonTree>),
}

#[verifier::external_type_specification]
#[verifier::external_body]
pub struct ExJsonValue(serde_json::Value);

#[verifier::external_type_specification]
#[verifier::external_body]
#[verifier::reject_recursive_types(K)]
#[verifier::reject_recursive_types(V)]
pub struct ExJsonMap<K, V>(serde_json::Map<K, V>);

/// What a `serde_json::Value` holds.
pub uninterp spec fn json_tree(value: serde_json::Value) -> JsonTree;

/// What a `serde_json::Map` holds, key by key.
pub uninterp spec fn json_entries(map: serde_json::Map<String, serde_json::Value>) -> Map<
    Seq<char>,
    JsonTree,
>;

/// What each of several values holds.
pub open spec fn json_trees(values: Seq<serde_json::Value>) -> Seq<JsonTree> {
    values.map_values(|v: serde_json::Value| json_tree(v))
}

/// The entries of an empty object.
pub open spec fn no_entries() -> Map<Seq<char>, JsonTree> {
    Map::empty()
}

/// The variant `Value::Null` is JSON's null.
#[verifier::external_body]
pub(crate) fn json_null() -> (out: Value)
    ensures
        json_tree(out) == JsonTree::Null,
{
    Value::Null
}

/// `Value::from(bool)` holds that boolean.
#[verifier::external_body]
pub(crate) fn json_bool(b: bool) -> (out: Value)
    ensures
        json_tree(out) == JsonTree::Bool(b),
{
    Value::from(b)
}

/// `Value::from(u64)` holds that whole number.
#[verifier::external_body]
pub(crate) fn json_u64(n: u64) -> (out: Value)
    ensures
        json_tree(out) == JsonTree::Whole(n as int),
{
    Value::from(n)
}

/// `Value::from(i64)` holds that whole number.
#[verifier::external_body]
pub(crate) fn json_i64(n: i64) -> (out: Value)
    ensures
        json_tree(out) == JsonTree::Whole(n as int),
{
    Value::from(n)
}

/// The variant `Value::String` holds the text it is made of.
#[verifier::external_body]
pub(crate) fn json_string(text: String) -> (out: Value)
    ensures
        json_tree(out) == JsonTree::Text(text@),
{
    Value::String(text)
}

/// The variant `Value::Array` holds the values it is made of, in order.
#[verifier::external_body]
pub(crate) fn json_array(items: Vec<Value>) -> (out: Value)
    ensures
        json_tree(out) == JsonTree::Array(json_trees(items@)),
{
    Value::Array(items)
}

/// The variant `Value::Object` holds the entries of the map it is made of.
#[verifier::external_body]
pub(crate) fn json_object(map: JsonMap<String, Value>) -> (out: Value)
    ensures
        json_tree(out) == JsonTree::Object(json_entries(map)),
{
    Value::Object(map)
}

/// Takes a value apart: the map of a `Value::Object`, or nothing for any other
/// variant.
#[verifier::external_body]
pub(crate) fn json_into_object(value: Value) -> (out: Option<JsonMap<String, Value>>)
    ensures
        match json_tree(value) {
            JsonTree::Object(entries) => out is Some && json_entries(out->0) == entries,
            _ => out is None,
        },
{
    match value {
        Value::Object(map) => Some(map),
        _ => None,
    }
}

/// `Value::as_object` borrows the map of a `Value::Object`, and gives nothing
/// for any other variant.
#[verifier::external_body]
pub(crate) fn json_as_object(value: &Value) -> (out: Option<&JsonMap<String, Value>>)
    ensures
        match json_tree(*value) {
            JsonTree::Object(entries) => out is Some && json_entries(*out->0) == entries,
            _ => out is None,
        },
{
    value.as_object()
}

/// `Value::as_bool` gives the boolean of a `Value::Bool`, and nothing for any
/// other variant.
#[verifier::external_body]
pub(crate) fn json_as_bool(value: &Value) -> (out: Option<bool>)
    ensures
        out == match json_tree(*value) {
            JsonTree::Bool(b) => Some(b),
            _ => None,
        },
{
    value.as_bool()
}

/// `Value::as_i64` gives a whole number that an `i64` can hold, and nothing
/// for any other value.
#[verifier::external_body]
pub(crate) fn json_as_i64(value: &Value) -> (out: Option<i64>)
    ensures
        out == match json_tree(*value) {
            JsonTree::Whole(n) => if i64::MIN <= n <= i64::MAX {
                Some(n as i64)
            } else {
                None
            },
            _ => None,
        },
{
    value.as_i64()
}

/// `Value::as_u64` gives a whole number that is not negative, and nothing for
/// any other value.
#[verifier::external_body]
pub(crate) fn json_as_u64(value: &Value) -> (out: Option<u64>)
    ensures
        out == match json_tree(*value) {
            JsonTree::Whole(n) => if 0 <= n <= u64::MAX {
                Some(n as u64)
            } else {
                None
            },
            _ => None,
        },
{
    value.as_u64()
}

/// `Value::clone` holds what the value holds.
pub assume_specification[ <serde_json::Value as std::clone::Clone>::clone ](
    value: &serde_json::Value,
) -> (out: serde_json::Value)
    ensures
        json_tree(out) == json_tree(*value),
;

/// `==` on values compares what they hold; floating-point numbers by value,
/// and never equal to a whole number.
#[verifier::external_body]
pub(crate) fn json_same(a: &Value, b: &Value) -> (out: bool)
    ensures
        out == (json_tree(*a) == json_tree(*b)),
{
    a == b
}

/// `Map::new` is empty.
#[verifier::external_body]
pub(crate) fn json_map_new() -> (out: JsonMap<String, Value>)
    ensures
        json_entries(out) == no_entries(),
{
    JsonMap::new()
}

/// `Map::insert` sets the entry of the key, whether or not there was one.
#[verifier::external_body]
pub(crate) fn json_map_insert(map: &mut JsonMap<String, Value>, key: String, value: Value)
    ensures
        json_entries(*final(map)) == json_entries(*old(map)).insert(key@, json_tree(value)),
{
    map.insert(key, value);
}

/// `Map::get` borrows the value of a key, where there is one.
#[verifier::external_body]
pub(crate) fn json_map_get<'a>(map: &'a JsonMap<String, Value>, key: &str) -> (out: Option<&'a Value>)
    ensures
        match out {
            Some(value) => json_entries(*map).dom().contains(key@) && json_tree(*value)
                == json_entries(*map)[key@],
            None => !json_entries(*map).dom().contains(key@),
        },
{
    map.get(key)
}

} // verus!
