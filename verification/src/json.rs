//! The JSON document model that the `package.json` parser reads, and the
//! call into `serde_json` that produces it.
use vstd::prelude::*;
use crate::text::str_eq;

verus! {

/// A JSON value as `serde_json::Value` holds it. Numbers are kept as the
/// text they display as; an object keeps its members in the order in which
/// `serde_json::Map` iterates them.
#[derive(Debug)]
pub enum Json {
    Null,
    Bool(bool),
    Number(String),
    Str(String),
    Array(Vec<Json>),
    Object(Vec<(String, Json)>),
}

/// `Map::get`: the value of the member named `key`.
pub open spec fn member(o: Seq<(String, Json)>, key: Seq<char>) -> Option<Json>
    decreases o.len(),
{
    if o.len() == 0 {
        None
    } else if o[0].0@ == key {
        Some(o[0].1)
    } else {
        member(o.drop_first(), key)
    }
}

/// `Value::as_str`.
pub open spec fn json_str(v: Json) -> Option<Seq<char>> {
    match v {
        Json::Str(s) => Some(s@),
        _ => None,
    }
}

/// `Map::get`.
pub fn member_of<'a>(o: &'a Vec<(String, Json)>, key: &str) -> (r: Option<&'a Json>)
    ensures
        match r {
            Some(v) => member(o@, key@) == Some(*v),
            None => member(o@, key@) is None,
        },
{
    let mut i: usize = 0;
    assert(o@.skip(0) == o@);
    while i < o.len()
        invariant
            i <= o@.len(),
            member(o@, key@) == member(o@.skip(i as int), key@),
        decreases o@.len() - i,
    {
        assert(o@.skip(i as int)[0] == o@[i as int]);
        assert(o@.skip(i as int).drop_first() == o@.skip(i + 1));
        if str_eq(o[i].0.as_str(), key) {
            return Some(&o[i].1);
        }
        i += 1;
    }
    None
}

#[verifier::external_type_specification]
#[verifier::external_body]
pub struct ExJsonError(serde_json::Error);

#[verifier::external_type_specification]
#[verifier::external_body]
pub struct ExJsonValue(serde_json::Value);

/// The document that `serde_json::from_str::<serde_json::Value>` reads from
/// `text`, in this library's form, or `None` where it reports an error.
pub uninterp spec fn json_document(text: Seq<char>) -> Option<Json>;

/// Parses JSON text with `serde_json::from_str` into a `serde_json::Value`
/// and copies it into a `Json`. The result is named by `json_document`; the
/// JSON grammar itself is not written out here.
#[verifier::external_body]
pub(crate) fn load_json(text: &str) -> (r: Result<Json, serde_json::Error>)
    ensures
        match r {
            Ok(v) => json_document(text@) == Some(v),
            Err(_) => json_document(text@) is None,
        },
{
    serde_json::from_str::<serde_json::Value>(text).map(|v| json_of_value(&v))
}

/// Copies a `serde_json::Value` into a `Json`, variant for variant; a number
/// becomes its `Display` text.
#[verifier::external_body]
fn json_of_value(v: &serde_json::Value) -> Json {
    match v {
        serde_json::Value::Null => Json::Null,
        serde_json::Value::Bool(b) => Json::Bool(*b),
        serde_json::Value::Number(n) => Json::Number(n.to_string()),
        serde_json::Value::String(s) => Json::Str(s.clone()),
        serde_json::Value::Array(xs) => Json::Array(xs.iter().map(json_of_value).collect()),
        serde_json::Value::Object(o) => Json::Object(
            o.iter().map(|(k, x)| (k.clone(), json_of_value(x))).collect(),
        ),
    }
}

} // verus!
