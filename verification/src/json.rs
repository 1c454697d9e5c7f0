//! JSON documents, as `serde_json` reads them.

use crate::number::decimal;
use serde_json::Value;
use vstd::prelude::*;

verus! {

/// What a JSON document says.
pub enum Json {
    Null,
    Bool(bool),
    /// A number that was written as an integer and that 64 bits hold.
    Integer(int),
    /// Any other number, as it is written out again.
    Decimal(Seq<char>),
    Text(Seq<char>),
    List(Seq<Json>),
    Object(Map<Seq<char>, Json>),
}

/// `serde_json::Value`, a JSON document.
#[verifier::external_type_specification]
#[verifier::external_body]
pub struct ExValue(Value);

/// What a `serde_json::Value` holds.
pub uninterp spec fn json_of(value: Value) -> Json;

/// The document that `serde_json::from_str` reads from a text, or `None` where
/// it reports an error.
pub uninterp spec fn json_in(text: Seq<char>) -> Option<Json>;

/// `serde_json::from_str` for a `Value`: whether there is one, and what it
/// holds, is a function of the text alone, which is named and not spelled out.
#[verifier::external_body]
pub(crate) fn parse_json(text: &str) -> (res: Option<Value>)
    ensures
        match res {
            Some(value) => json_in(text@) == Some(json_of(value)),
            None => json_in(text@) is None,
        },
{
    serde_json::from_str(text).ok()
}

/// `Value::get` with a string: the member of that name, if the value is an
/// object that has one.
#[verifier::external_body]
fn get_member<'a>(value: &'a Value, name: &str) -> (res: Option<&'a Value>)
    ensures
        match json_of(*value) {
            Json::Object(members) => if members.contains_key(name@) {
                res is Some && json_of(*res->0) == members[name@]
            } else {
                res is None
            },
            _ => res is None,
        },
{
    value.get(name)
}

/// `Value::as_array`: the items, if the value is an array.
#[verifier::external_body]
fn get_items(value: &Value) -> (res: Option<&Vec<Value>>)
    ensures
        match json_of(*value) {
            Json::List(items) => res is Some && items == jsons(res->0@),
            _ => res is None,
        },
{
    value.as_array()
}

/// `Value::as_str`: the text, if the value is a string.
#[verifier::external_body]
fn get_text(value: &Value) -> (res: Option<&str>)
    ensures
        match json_of(*value) {
            Json::Text(text) => res is Some && res->0@ == text,
            _ => res is None,
        },
{
    value.as_str()
}

/// `Value::as_i64`: the integer, if the value is one that `i64` holds.
#[verifier::external_body]
fn get_integer(value: &Value) -> (res: Option<i64>)
    ensures
        match json_of(*value) {
            Json::Integer(n) => if i64::MIN <= n <= i64::MAX {
                res is Some && res->0 == n
            } else {
                res is None
            },
            _ => res is None,
        },
{
    value.as_i64()
}

/// `Value::as_number` and the `Display` of the number it gives: the number
/// written out, if the value is one; an integer comes in base ten.
#[verifier::external_body]
fn get_number(value: &Value) -> (res: Option<String>)
    ensures
        match json_of(*value) {
            Json::Integer(n) => res is Some && res->0@ == decimal(n),
            Json::Decimal(text) => res is Some && res->0@ == text,
            _ => res is None,
        },
{
    match value.as_number() {
        Some(number) => Some(number.to_string()),
        None => None,
    }
}

/// What a list of values holds.
pub open spec fn jsons(values: Seq<Value>) -> Seq<Json> {
    Seq::new(values.len(), |i: int| json_of(values[i]))
}

/// What stands where a value may be missing.
pub open spec fn seen(value: Option<&Value>) -> Json {
    match value {
        Some(value) => json_of(*value),
        None => Json::Null,
    }
}

/// The member of a name, or null.
pub open spec fn member(json: Json, name: Seq<char>) -> Json {
    match json {
        Json::Object(members) if members.contains_key(name) => members[name],
        _ => Json::Null,
    }
}

/// The text, or none where there is no string.
pub open spec fn text_or_empty(json: Json) -> Seq<char> {
    match json {
        Json::Text(text) => text,
        _ => Seq::empty(),
    }
}

pub open spec fn text_if_any(json: Json) -> Option<Seq<char>> {
    match json {
        Json::Text(text) => Some(text),
        _ => None,
    }
}

pub open spec fn items_if_any(json: Json) -> Option<Seq<Json>> {
    match json {
        Json::List(items) => Some(items),
        _ => None,
    }
}

pub open spec fn integer_if_any(json: Json) -> Option<i64> {
    match json {
        Json::Integer(n) if i64::MIN <= n <= i64::MAX => Some(n as i64),
        _ => None,
    }
}

/// A number as it is written out.
pub open spec fn number_if_any(json: Json) -> Option<Seq<char>> {
    match json {
        Json::Integer(n) => Some(decimal(n)),
        Json::Decimal(text) => Some(text),
        _ => None,
    }
}

pub fn member_of<'a>(value: Option<&'a Value>, name: &str) -> (res: Option<&'a Value>)
    ensures
        seen(res) == member(seen(value), name@),
{
    match value {
        Some(value) => get_member(value, name),
        None => None,
    }
}

pub fn items_of<'a>(value: Option<&'a Value>) -> (res: Option<&'a Vec<Value>>)
    ensures
        match res {
            Some(items) => items_if_any(seen(value)) == Some(jsons(items@)),
            None => items_if_any(seen(value)) is None,
        },
{
    match value {
        Some(value) => get_items(value),
        None => None,
    }
}

pub fn text_of(value: Option<&Value>) -> (res: Option<String>)
    ensures
        crate::lyrics::text_view(res) == text_if_any(seen(value)),
{
    match value {
        Some(value) => match get_text(value) {
            Some(text) => Some(text.to_owned()),
            None => None,
        },
        None => None,
    }
}

pub fn text_or_none(value: Option<&Value>) -> (res: String)
    ensures
        res@ == text_or_empty(seen(value)),
{
    match text_of(value) {
        Some(text) => text,
        None => String::new(),
    }
}

pub fn integer_of(value: Option<&Value>) -> (res: Option<i64>)
    ensures
        res == integer_if_any(seen(value)),
{
    match value {
        Some(value) => get_integer(value),
        None => None,
    }
}

pub fn number_of(value: Option<&Value>) -> (res: Option<String>)
    ensures
        crate::lyrics::text_view(res) == number_if_any(seen(value)),
{
    match value {
        Some(value) => get_number(value),
        None => None,
    }
}

} // verus!
