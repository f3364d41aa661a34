//! The YAML document model that the `.gitlab-ci.yml` parser reads, and the
//! call into `serde_yaml_ng` that produces it.
use vstd::prelude::*;
use crate::text::str_eq;

verus! {

/// A YAML value as `serde_yaml_ng::Value` holds it. Numbers are kept as the
/// text they display as; a mapping keeps its entries in document order.
#[derive(Debug)]
pub enum Yaml {
    Null,
    Bool(bool),
    Number(String),
    Str(String),
    Sequence(Vec<Yaml>),
    Mapping(Vec<(Yaml, Yaml)>),
    Tagged(String, Box<Yaml>),
}

/// The value under any number of tags.
pub open spec fn untag(v: Yaml) -> Yaml
    decreases v,
{
    match v {
        Yaml::Tagged(_, b) => untag(*b),
        _ => v,
    }
}

/// `Value::as_str`: the string under any tags, if it is one.
pub open spec fn yaml_str(v: Yaml) -> Option<Seq<char>> {
    match untag(v) {
        Yaml::Str(s) => Some(s@),
        _ => None,
    }
}

/// Whether a mapping key is the (untagged) string `key`, as
/// `Value::String(key)` compares equal to it.
pub open spec fn is_str_key(k: Yaml, key: Seq<char>) -> bool {
    k matches Yaml::Str(s) && s@ == key
}

/// `Mapping::get(Value::String(key))`: the value of the entry whose key is
/// the string `key`.
pub open spec fn lookup(m: Seq<(Yaml, Yaml)>, key: Seq<char>) -> Option<Yaml>
    decreases m.len(),
{
    if m.len() == 0 {
        None
    } else if is_str_key(m[0].0, key) {
        Some(m[0].1)
    } else {
        lookup(m.drop_first(), key)
    }
}

pub open spec fn opt_str_view(o: Option<String>) -> Option<Seq<char>> {
    match o {
        Some(s) => Some(s@),
        None => None,
    }
}

/// `Value::as_str`, copied out.
pub fn as_str_of(v: &Yaml) -> (r: Option<String>)
    ensures
        opt_str_view(r) == yaml_str(*v),
    decreases v,
{
    match v {
        Yaml::Str(s) => Some(s.clone()),
        Yaml::Tagged(_, b) => as_str_of(b),
        _ => None,
    }
}

/// `Mapping::get` with a string key.
pub fn lookup_in<'a>(m: &'a Vec<(Yaml, Yaml)>, key: &str) -> (r: Option<&'a Yaml>)
    ensures
        match r {
            Some(y) => lookup(m@, key@) == Some(*y),
            None => lookup(m@, key@) is None,
        },
{
    let mut i: usize = 0;
    assert(m@.skip(0) == m@);
    while i < m.len()
        invariant
            i <= m@.len(),
            lookup(m@, key@) == lookup(m@.skip(i as int), key@),
        decreases m@.len() - i,
    {
        assert(m@.skip(i as int)[0] == m@[i as int]);
        assert(m@.skip(i as int).drop_first() == m@.skip(i + 1));
        if let Yaml::Str(s) = &m[i].0 {
            if str_eq(s.as_str(), key) {
                return Some(&m[i].1);
            }
        }
        i += 1;
    }
    None
}


#[verifier::external_type_specification]
#[verifier::external_body]
pub struct ExYamlError(serde_yaml_ng::Error);

#[verifier::external_type_specification]
#[verifier::external_body]
pub struct ExYamlValue(serde_yaml_ng::Value);

/// The document that `serde_yaml_ng::from_str::<serde_yaml_ng::Value>` reads
/// from `text`, in this library's form, or `None` where it reports an error
/// (malformed YAML, a repeated mapping key, ...).
pub uninterp spec fn yaml_document(text: Seq<char>) -> Option<Yaml>;

/// Parses YAML text with `serde_yaml_ng::from_str` into a
/// `serde_yaml_ng::Value` and copies it into a `Yaml`. The result is named
/// by `yaml_document`; the YAML grammar itself is not written out here.
#[verifier::external_body]
pub(crate) fn load_yaml(text: &str) -> (r: Result<Yaml, serde_yaml_ng::Error>)
    ensures
        match r {
            Ok(y) => yaml_document(text@) == Some(y),
            Err(_) => yaml_document(text@) is None,
        },
{
    serde_yaml_ng::from_str::<serde_yaml_ng::Value>(text).map(|v| yaml_of_value(&v))
}

/// Copies a `serde_yaml_ng::Value` into a `Yaml`, variant for variant; a
/// number becomes its `Display` text and a tag its `Display` text.
#[verifier::external_body]
fn yaml_of_value(v: &serde_yaml_ng::Value) -> Yaml {
    match v {
        serde_yaml_ng::Value::Null => Yaml::Null,
        serde_yaml_ng::Value::Bool(b) => Yaml::Bool(*b),
        serde_yaml_ng::Value::Number(n) => Yaml::Number(n.to_string()),
        serde_yaml_ng::Value::String(s) => Yaml::Str(s.clone()),
        serde_yaml_ng::Value::Sequence(xs) => Yaml::Sequence(xs.iter().map(yaml_of_value).collect()),
        serde_yaml_ng::Value::Mapping(m) => Yaml::Mapping(
            m.iter().map(|(k, x)| (yaml_of_value(k), yaml_of_value(x))).collect(),
        ),
        serde_yaml_ng::Value::Tagged(t) => Yaml::Tagged(
            t.tag.to_string(),
            Box::new(yaml_of_value(&t.value)),
        ),
    }
}

} // verus!
