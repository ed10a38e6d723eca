//! JSON values, as `serde_json` holds them, and what they mean.

use serde_json::Value;
use vstd::prelude::*;

verus! {

/// What a JSON value means: the tree it denotes. Object members are keyed by
/// name, in no order.
pub enum Json {
    Null,
    Bool(bool),
    /// A non-negative integer.
    Unsigned(u64),
    /// A negative integer.
    Negative(i64),
    /// Any other number, by its decimal text.
    Fraction(Seq<char>),
    Text(Seq<char>),
    List(Seq<Json>),
    Object(Map<Seq<char>, Json>),
}

/// `serde_json::Value`, held opaquely: what a value means is `json_of`.
#[verifier::external_type_specification]
#[verifier::external_body]
pub struct ExValue(serde_json::Value);

/// The tree that a `serde_json::Value` holds.
pub uninterp spec fn json_of(value: serde_json::Value) -> Json;

/// The compact text that `serde_json` writes for a tree.
pub uninterp spec fn compact_text(tree: Json) -> Seq<char>;

/// The tree that `serde_json` reads from a text; `None` where it refuses the text.
pub uninterp spec fn parsed_json(text: Seq<char>) -> Option<Json>;

/// How many lists and objects may stand one in another for `serde_json` to read
/// their text.
pub const MAX_NESTING: u8 = 127;

/// Whether every number of a tree is an integer, and its lists and objects stand
/// at most `levels` deep one in another.
pub open spec fn integral_within(tree: Json, levels: nat) -> bool
    decreases levels,
{
    match tree {
        Json::Fraction(_) => false,
        Json::List(items) => levels > 0 && forall|i: int|
            0 <= i < items.len() ==> integral_within(#[trigger] items[i], (levels - 1) as nat),
        Json::Object(members) => levels > 0 && forall|key: Seq<char>| #[trigger]
            members.dom().contains(key) ==> integral_within(members[key], (levels - 1) as nat),
        _ => true,
    }
}

/// The trees that a list of values holds, in order.
pub open spec fn json_list(values: Seq<serde_json::Value>) -> Seq<Json> {
    values.map_values(|value: serde_json::Value| json_of(value))
}

/// `Value::from(&str)`: the result is a JSON string with the characters of `text`.
#[verifier::external_body]
pub(crate) fn text_value(text: &str) -> (value: Value)
    ensures
        json_of(value) == Json::Text(text@),
{
    Value::from(text)
}

/// `Value::from(u64)`: the result is the JSON number `number`.
#[verifier::external_body]
pub(crate) fn number_value(number: u64) -> (value: Value)
    ensures
        json_of(value) == Json::Unsigned(number),
{
    Value::from(number)
}

/// `Value::from(bool)`: the result is the JSON literal for `flag`.
#[verifier::external_body]
pub(crate) fn bool_value(flag: bool) -> (value: Value)
    ensures
        json_of(value) == Json::Bool(flag),
{
    Value::from(flag)
}

/// `Value::from(())`: the result is the JSON `null`.
#[verifier::external_body]
pub(crate) fn null_value() -> (value: Value)
    ensures
        json_of(value) == Json::Null,
{
    Value::from(())
}

/// `Value::Array`: the result is the JSON array of the given values, in order.
#[verifier::external_body]
pub(crate) fn list_value(items: Vec<Value>) -> (value: Value)
    ensures
        json_of(value) == Json::List(json_list(items@)),
{
    Value::Array(items)
}

/// `serde_json::Map::new`: as a value, the result is the JSON object without
/// members.
#[verifier::external_body]
pub(crate) fn empty_object() -> (value: Value)
    ensures
        json_of(value) == Json::Object(Map::<Seq<char>, Json>::empty()),
{
    Value::Object(serde_json::Map::new())
}

/// `Value::index_mut` with a `str` key, then assignment: on an object, the
/// member `key` becomes `member`, whether or not it was there, and every other
/// member stays. On anything but an object or `null` the call panics.
#[verifier::external_body]
pub(crate) fn set_member(object: &mut Value, key: &str, member: Value)
    requires
        json_of(*old(object)) is Object,
    ensures
        json_of(*final(object)) == Json::Object(
            json_of(*old(object))->Object_0.insert(key@, json_of(member)),
        ),
{
    object[key] = member;
}

/// `Value::as_str`: the characters of a JSON string; `None` for any other kind
/// of value.
#[verifier::external_body]
pub(crate) fn value_text(value: &Value) -> (text: Option<&str>)
    ensures
        text is Some <==> json_of(*value) is Text,
        text matches Some(t) ==> json_of(*value) == Json::Text(t@),
{
    value.as_str()
}

/// `Value::to_string`: the compact text of the value. The text is a function of
/// the tree: numbers are written from their value, and an object's members are
/// kept, and so written, in the order of their keys. Reading the text gives the
/// tree back, where its numbers are integers and it is nested no deeper than
/// `serde_json` reads; whether other trees come back is left unsaid.
#[verifier::external_body]
pub(crate) fn value_compact(value: &Value) -> (text: String)
    ensures
        text@ == compact_text(json_of(*value)),
        integral_within(json_of(*value), MAX_NESTING as nat) ==> parsed_json(text@) == Some(
            json_of(*value),
        ),
{
    value.to_string()
}

/// `serde_json::from_str` for a `Value`: a function of the text alone, which
/// refuses what is no JSON text.
#[verifier::external_body]
pub(crate) fn parse_value(text: &str) -> (value: Option<Value>)
    ensures
        match value {
            Some(value) => parsed_json(text@) == Some(json_of(value)),
            None => parsed_json(text@) is None,
        },
{
    serde_json::from_str(text).ok()
}

/// `Value::clone`: the copy holds the same tree.
#[verifier::external_body]
pub(crate) fn copy_value(value: &Value) -> (copy: Value)
    ensures
        json_of(copy) == json_of(*value),
{
    value.clone()
}

} // verus!
