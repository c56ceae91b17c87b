//! JSON documents, read by serde_json and held as plain library values.
use vstd::prelude::*;
use crate::text::opt_view;

verus! {

#[verifier::external_type_specification]
#[verifier::external_body]
pub struct ExValue(serde_json::Value);

/// A JSON value. A number is held as its JSON text; an object's members
/// keep the order in which serde_json hands them out, one per key.
#[derive(Debug)]
pub enum Json {
    Null,
    Bool(bool),
    Number(String),
    Text(String),
    Array(Vec<Json>),
    Object(Vec<(String, Json)>),
}

/// The value that serde_json reads out of the text `text`, or `None` where
/// `text` is no JSON document.
pub uninterp spec fn json_of(text: Seq<char>) -> Option<Json>;

/// Relies on `serde_json::from_str`, which reads a JSON document, and on
/// `json_from_value` for the conversion. The result depends on `text` alone.
#[verifier::external_body]
pub fn parse_json(text: &str) -> (r: Option<Json>)
    ensures
        r == json_of(text@),
{
    serde_json::from_str::<serde_json::Value>(text).ok().map(json_from_value)
}

/// Relies on the variants of `serde_json::Value`, taken over one for one;
/// a number keeps the text that `Display for Number` writes.
#[verifier::external_body]
fn json_from_value(v: serde_json::Value) -> Json {
    match v {
        serde_json::Value::Null => Json::Null,
        serde_json::Value::Bool(b) => Json::Bool(b),
        serde_json::Value::Number(n) => Json::Number(n.to_string()),
        serde_json::Value::String(s) => Json::Text(s),
        serde_json::Value::Array(a) => Json::Array(a.into_iter().map(json_from_value).collect()),
        serde_json::Value::Object(m) => Json::Object(
            m.into_iter().map(|(k, x)| (k, json_from_value(x))).collect(),
        ),
    }
}

/// The value of the first member named `key` from index `i` on.
pub open spec fn member(fs: Seq<(String, Json)>, key: Seq<char>, i: int) -> Option<Json>
    decreases fs.len() - i,
{
    if i < 0 || i >= fs.len() {
        None
    } else if fs[i].0@ == key {
        Some(fs[i].1)
    } else {
        member(fs, key, i + 1)
    }
}

/// The member `key` of an object; `None` for anything else.
pub open spec fn field_of(j: Json, key: Seq<char>) -> Option<Json> {
    match j {
        Json::Object(fs) => member(fs@, key, 0),
        _ => None,
    }
}

/// The text of a string value.
pub open spec fn text_of(j: Option<Json>) -> Option<Seq<char>> {
    match j {
        Some(Json::Text(s)) => Some(s@),
        _ => None,
    }
}

/// The JSON text of a number value.
pub open spec fn number_of(j: Option<Json>) -> Option<Seq<char>> {
    match j {
        Some(Json::Number(t)) => Some(t@),
        _ => None,
    }
}

/// Finds the first member of an object named `key`.
pub fn find_member(fs: &Vec<(String, Json)>, key: &String) -> (r: Option<usize>)
    ensures
        match r {
            Some(i) => i < fs@.len() && member(fs@, key@, 0) == Some(fs@[i as int].1),
            None => member(fs@, key@, 0) is None,
        },
{
    let mut i: usize = 0;
    while i < fs.len()
        invariant
            i <= fs@.len(),
            member(fs@, key@, 0) == member(fs@, key@, i as int),
        decreases fs@.len() - i,
    {
        if fs[i].0 == *key {
            return Some(i);
        }
        i = i + 1;
    }
    None
}

/// The member `key` of an object, as a string.
pub fn text_field(j: &Json, key: &String) -> (r: Option<String>)
    ensures
        opt_view(r) == text_of(field_of(*j, key@)),
{
    match j {
        Json::Object(fs) => match find_member(fs, key) {
            Some(i) => match &fs[i].1 {
                Json::Text(s) => Some(s.clone()),
                _ => None,
            },
            None => None,
        },
        _ => None,
    }
}

/// The member `key` of an object, as the JSON text of a number.
pub fn number_field(j: &Json, key: &String) -> (r: Option<String>)
    ensures
        opt_view(r) == number_of(field_of(*j, key@)),
{
    match j {
        Json::Object(fs) => match find_member(fs, key) {
            Some(i) => match &fs[i].1 {
                Json::Number(s) => Some(s.clone()),
                _ => None,
            },
            None => None,
        },
        _ => None,
    }
}

} // verus!
