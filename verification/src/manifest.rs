//! Manifest documents as plain values. The outside parsers turn JSON,
//! TOML and YAML text into their own value trees; each is converted,
//! one variant for one variant, into `DocVal`, which everything
//! verified works on. What a given text parses to is named, never
//! spelled out: the grammars belong to the parser crates.

use vstd::prelude::*;

use crate::strutil::str_eq;

verus! {

/// A parsed manifest document reduced to plain values: null, a bool,
/// a number's text, a string, an array, or an object in document
/// order (key order for the formats whose maps sort by key).
#[derive(Debug)]
pub enum DocVal {
    Null,
    Bool(bool),
    Num(String),
    Str(String),
    Arr(Vec<DocVal>),
    Obj(Vec<(String, DocVal)>),
}

#[verifier::external_type_specification]
#[verifier::external_body]
pub struct ExJsonValue(serde_json::Value);

#[verifier::external_type_specification]
#[verifier::external_body]
pub struct ExTomlValue(toml::Value);

#[verifier::external_type_specification]
#[verifier::external_body]
pub struct ExYamlValue(serde_yaml::Value);

/// What JSON text parses to, if it parses: a function of the text
/// alone.
pub uninterp spec fn json_doc(s: Seq<char>) -> Option<DocVal>;

/// What TOML text parses to, if it parses: a function of the text
/// alone.
pub uninterp spec fn toml_doc(s: Seq<char>) -> Option<DocVal>;

/// What YAML text parses to, if it parses: a function of the text
/// alone.
pub uninterp spec fn yaml_doc(s: Seq<char>) -> Option<DocVal>;

/// Relies on the serde_json::Value variants: each is carried over,
/// one arm for one variant; numbers keep their text form.
#[verifier::external_body]
fn from_json_value(v: serde_json::Value) -> DocVal {
    match v {
        serde_json::Value::Null => DocVal::Null,
        serde_json::Value::Bool(b) => DocVal::Bool(b),
        serde_json::Value::Number(n) => DocVal::Num(n.to_string()),
        serde_json::Value::String(s) => DocVal::Str(s),
        serde_json::Value::Array(a) => DocVal::Arr(a.into_iter().map(from_json_value).collect()),
        serde_json::Value::Object(m) => DocVal::Obj(
            m.into_iter().map(|(k, x)| (k, from_json_value(x))).collect(),
        ),
    }
}

/// Relies on serde_json::from_str: whether and what JSON text parses
/// to depends on the text alone; the object order is the map's own
/// (sorted by key).
#[verifier::external_body]
pub fn parse_json(content: &str) -> (r: Option<DocVal>)
    ensures
        r == json_doc(content@),
{
    serde_json::from_str::<serde_json::Value>(content).ok().map(from_json_value)
}

/// Relies on the toml::Value variants: each is carried over, one arm
/// for one variant; integers and datetimes keep their text form, and
/// floats, which this crate cannot hold, are dropped to null.
#[verifier::external_body]
fn from_toml_value(v: toml::Value) -> DocVal {
    match v {
        toml::Value::String(s) => DocVal::Str(s),
        toml::Value::Integer(n) => DocVal::Num(n.to_string()),
        toml::Value::Float(_) => DocVal::Null,
        toml::Value::Boolean(b) => DocVal::Bool(b),
        toml::Value::Datetime(d) => DocVal::Str(d.to_string()),
        toml::Value::Array(a) => DocVal::Arr(a.into_iter().map(from_toml_value).collect()),
        toml::Value::Table(t) => DocVal::Obj(
            t.into_iter().map(|(k, x)| (k, from_toml_value(x))).collect(),
        ),
    }
}

/// Relies on toml::from_str: whether and what TOML text parses to
/// depends on the text alone; tables come sorted by key.
#[verifier::external_body]
pub fn parse_toml(content: &str) -> (r: Option<DocVal>)
    ensures
        r == toml_doc(content@),
{
    toml::from_str::<toml::Value>(content).ok().map(from_toml_value)
}

/// Relies on the serde_yaml::Value variants: each is carried over, one
/// arm for one variant; a tagged value is its inner value, and mapping
/// entries under a non-string key are dropped.
#[verifier::external_body]
fn from_yaml_value(v: serde_yaml::Value) -> DocVal {
    match v {
        serde_yaml::Value::Null => DocVal::Null,
        serde_yaml::Value::Bool(b) => DocVal::Bool(b),
        serde_yaml::Value::Number(n) => DocVal::Num(n.to_string()),
        serde_yaml::Value::String(s) => DocVal::Str(s),
        serde_yaml::Value::Sequence(a) => DocVal::Arr(a.into_iter().map(from_yaml_value).collect()),
        serde_yaml::Value::Mapping(m) => DocVal::Obj(
            m.into_iter().filter_map(|(k, x)| match k {
                serde_yaml::Value::String(ks) => Some((ks, from_yaml_value(x))),
                _ => None,
            }).collect(),
        ),
        serde_yaml::Value::Tagged(t) => from_yaml_value(t.value),
    }
}

/// Relies on serde_yaml::from_str: whether and what YAML text parses
/// to depends on the text alone; mappings keep document order.
#[verifier::external_body]
pub fn parse_yaml(content: &str) -> (r: Option<DocVal>)
    ensures
        r == yaml_doc(content@),
{
    serde_yaml::from_str::<serde_yaml::Value>(content).ok().map(from_yaml_value)
}

/// The value under `key` in an object's entries: the first entry with
/// that key.
pub open spec fn obj_find(es: Seq<(String, DocVal)>, key: Seq<char>) -> Option<DocVal>
    decreases es.len(),
{
    if es.len() == 0 {
        None
    } else if es[0].0@ == key {
        Some(es[0].1)
    } else {
        obj_find(es.skip(1), key)
    }
}

/// The value under `key`, when `v` is an object holding it.
pub open spec fn spec_get(v: DocVal, key: Seq<char>) -> Option<DocVal> {
    match v {
        DocVal::Obj(es) => obj_find(es@, key),
        _ => None,
    }
}

/// Look a key up in a document; anything but an object holds nothing.
pub fn doc_get<'a>(v: &'a DocVal, key: &str) -> (r: Option<&'a DocVal>)
    ensures
        match r {
            Some(x) => spec_get(*v, key@) == Some(*x),
            None => spec_get(*v, key@) is None,
        },
{
    match v {
        DocVal::Obj(es) => {
            let n = es.len();
            let mut i: usize = 0;
            while i < n
                invariant
                    *v matches DocVal::Obj(e) && e == *es,
                    n == es@.len(),
                    0 <= i <= n,
                    forall|k: int| 0 <= k < i ==> (#[trigger] es@[k]).0@ != key@,
                decreases n - i,
            {
                if str_eq(es[i].0.as_str(), key) {
                    proof {
                        lemma_obj_find_hit(es@, key@, i as int);
                    }
                    return Some(&es[i].1);
                }
                i += 1;
            }
            proof {
                lemma_obj_find_miss(es@, key@);
            }
            None
        },
        _ => None,
    }
}

/// A hit at the first matching key is what `obj_find` returns.
proof fn lemma_obj_find_hit(es: Seq<(String, DocVal)>, key: Seq<char>, i: int)
    requires
        0 <= i < es.len(),
        es[i].0@ == key,
        forall|k: int| 0 <= k < i ==> (#[trigger] es[k]).0@ != key,
    ensures
        obj_find(es, key) == Some(es[i].1),
    decreases i,
{
    if i > 0 {
        assert(es.skip(1)[i - 1] == es[i]);
        assert forall|k: int| 0 <= k < i - 1 implies (#[trigger] es.skip(1)[k]).0@ != key by {
            assert(es.skip(1)[k] == es[k + 1]);
        }
        lemma_obj_find_hit(es.skip(1), key, i - 1);
    }
}

/// Without any matching key `obj_find` returns nothing.
proof fn lemma_obj_find_miss(es: Seq<(String, DocVal)>, key: Seq<char>)
    requires
        forall|k: int| 0 <= k < es.len() ==> (#[trigger] es[k]).0@ != key,
    ensures
        obj_find(es, key) is None,
    decreases es.len(),
{
    if es.len() > 0 {
        assert forall|k: int| 0 <= k < es.skip(1).len() implies (#[trigger] es.skip(1)[k]).0@
            != key by {
            assert(es.skip(1)[k] == es[k + 1]);
        }
        lemma_obj_find_miss(es.skip(1), key);
    }
}

} // verus!
