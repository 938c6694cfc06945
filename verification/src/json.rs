//! JSON values, as `serde_json` holds and prints them.
use serde_json::Value;
use vstd::prelude::*;

verus! {

/// `serde_json::Value`, an opaque JSON value.
#[verifier::external_type_specification]
#[verifier::external_body]
pub struct ExValue(Value);

/// `serde_json::Map`, the opaque fields of a JSON object.
#[verifier::external_type_specification]
#[verifier::external_body]
#[verifier::reject_recursive_types(K)]
#[verifier::reject_recursive_types(V)]
pub struct ExMap<K, V>(serde_json::Map<K, V>);

/// The mathematical value of a JSON value. Numbers are natural numbers.
pub enum JsonModel {
    Null,
    Bool(bool),
    Number(nat),
    Text(Seq<char>),
    List(Seq<JsonModel>),
    Object(Map<Seq<char>, JsonModel>),
}

/// What a JSON value holds.
pub uninterp spec fn json_model(value: Value) -> JsonModel;

/// What the fields of a JSON object hold, by their names.
pub uninterp spec fn field_models(fields: serde_json::Map<String, Value>) -> Map<
    Seq<char>,
    JsonModel,
>;

/// The text that `serde_json::to_string_pretty` prints for a value. It depends
/// on what the value holds and on nothing else: the fields of an object are
/// printed in the order of their names.
pub uninterp spec fn pretty_text(model: JsonModel) -> Seq<char>;

/// An object without fields.
pub open spec fn without_fields() -> Map<Seq<char>, JsonModel> {
    Map::empty()
}

pub open spec fn json_models(values: Seq<Value>) -> Seq<JsonModel> {
    values.map_values(|v: Value| json_model(v))
}

/// Returns `serde_json::Value::Null`.
#[verifier::external_body]
pub(crate) fn json_null() -> (value: Value)
    ensures
        json_model(value) == JsonModel::Null,
{
    Value::Null
}

/// Returns the `serde_json::Value::Bool` that holds `yes`.
#[verifier::external_body]
pub(crate) fn json_bool(yes: bool) -> (value: Value)
    ensures
        json_model(value) == JsonModel::Bool(yes),
{
    Value::Bool(yes)
}

/// Calls `serde_json::Value::from` for a `usize`, which returns the
/// `serde_json::Value::Number` that holds `n`.
#[verifier::external_body]
pub(crate) fn json_number(n: usize) -> (value: Value)
    ensures
        json_model(value) == JsonModel::Number(n as nat),
{
    Value::from(n)
}

/// Calls `serde_json::Value::from` for a `&str`, which returns the
/// `serde_json::Value::String` that holds a copy of the text.
#[verifier::external_body]
pub(crate) fn json_text(text: &str) -> (value: Value)
    ensures
        json_model(value) == JsonModel::Text(text@),
{
    Value::from(text)
}

/// Returns the `serde_json::Value::Array` that holds the values in order.
#[verifier::external_body]
pub(crate) fn json_list(values: Vec<Value>) -> (value: Value)
    ensures
        json_model(value) == JsonModel::List(json_models(values@)),
{
    Value::Array(values)
}

/// Returns the `serde_json::Value::Object` that holds the fields.
#[verifier::external_body]
pub(crate) fn json_object(fields: serde_json::Map<String, Value>) -> (value: Value)
    ensures
        json_model(value) == JsonModel::Object(field_models(fields)),
{
    Value::Object(fields)
}

/// Calls `serde_json::Map::new`, which makes an empty map.
#[verifier::external_body]
pub(crate) fn no_fields() -> (fields: serde_json::Map<String, Value>)
    ensures
        field_models(fields) == without_fields(),
{
    serde_json::Map::new()
}

/// Calls `serde_json::Map::insert`, which sets the value of the field with the
/// given name, whether or not the map had that field before, and leaves the
/// others as they are.
#[verifier::external_body]
pub(crate) fn set_field(fields: &mut serde_json::Map<String, Value>, name: &str, value: Value)
    ensures
        field_models(*final(fields)) == field_models(*old(fields)).insert(name@, json_model(value)),
{
    fields.insert(name.to_owned(), value);
}

/// Calls `serde_json::to_string_pretty`. It fails only for maps with keys that
/// are no strings and for types whose own serialisation fails, and a
/// `serde_json::Value` is neither, so there always is a text.
#[verifier::external_body]
pub(crate) fn to_pretty_string(value: &Value) -> (text: String)
    ensures
        text@ == pretty_text(json_model(*value)),
{
    serde_json::to_string_pretty(value).unwrap()
}

} // verus!
