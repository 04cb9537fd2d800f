//! Structured manifest documents (TOML and JSON) as the library reads
//! them: strings, tables of key/value entries in the order the parser
//! yields them, arrays, and every other scalar collapsed to `Other`.
//! Parsing itself is done by the `toml` and `serde_json` crates.

use vstd::prelude::*;
use crate::text::str_eq;

verus! {

#[verifier::external_type_specification]
#[verifier::external_body]
pub struct ExTomlValue(toml::Value);

#[verifier::external_type_specification]
#[verifier::external_body]
pub struct ExJsonValue(serde_json::Value);

/// A parsed manifest value, as far as manifest reading looks into it.
#[derive(Debug)]
pub enum DocValue {
    Str(String),
    Table(Vec<(String, DocValue)>),
    Array(Vec<DocValue>),
    /// A number, boolean, date or null.
    Other,
}

/// What `toml::from_str::<toml::Value>` yields for a text, as a
/// `DocValue` (`None` when the text is not valid TOML).
pub uninterp spec fn toml_document(text: Seq<char>) -> Option<DocValue>;

/// What `serde_json::from_str::<serde_json::Value>` yields for a text, as
/// a `DocValue` (`None` when the text is not valid JSON).
pub uninterp spec fn json_document(text: Seq<char>) -> Option<DocValue>;

/// A `toml::Value` as a `DocValue`, variant by variant.
#[verifier::external_body]
fn doc_from_toml(v: toml::Value) -> DocValue {
    match v {
        toml::Value::String(s) => DocValue::Str(s),
        toml::Value::Table(t) => DocValue::Table(t.into_iter().map(|(k, x)| (k, doc_from_toml(x))).collect()),
        toml::Value::Array(a) => DocValue::Array(a.into_iter().map(doc_from_toml).collect()),
        toml::Value::Integer(_) => DocValue::Other,
        toml::Value::Float(_) => DocValue::Other,
        toml::Value::Boolean(_) => DocValue::Other,
        toml::Value::Datetime(_) => DocValue::Other,
    }
}

/// A `serde_json::Value` as a `DocValue`, variant by variant.
#[verifier::external_body]
fn doc_from_json(v: serde_json::Value) -> DocValue {
    match v {
        serde_json::Value::String(s) => DocValue::Str(s),
        serde_json::Value::Object(m) => DocValue::Table(m.into_iter().map(|(k, x)| (k, doc_from_json(x))).collect()),
        serde_json::Value::Array(a) => DocValue::Array(a.into_iter().map(doc_from_json).collect()),
        serde_json::Value::Number(_) => DocValue::Other,
        serde_json::Value::Bool(_) => DocValue::Other,
        serde_json::Value::Null => DocValue::Other,
    }
}

/// `toml::from_str::<toml::Value>`: the parsed document, or `None` when
/// the text is not valid TOML. The result depends on the text alone.
#[verifier::external_body]
pub(crate) fn parse_toml(text: &str) -> (r: Option<DocValue>)
    ensures
        r == toml_document(text@),
{
    toml::from_str::<toml::Value>(text).ok().map(doc_from_toml)
}

/// `serde_json::from_str::<serde_json::Value>`: the parsed document, or
/// `None` when the text is not valid JSON. The result depends on the
/// text alone.
#[verifier::external_body]
pub(crate) fn parse_json(text: &str) -> (r: Option<DocValue>)
    ensures
        r == json_document(text@),
{
    serde_json::from_str::<serde_json::Value>(text).ok().map(doc_from_json)
}

/// `serde_json::from_str::<serde_json::Value>`, kept as the crate's value:
/// it parses exactly when `parse_json` does.
#[verifier::external_body]
pub(crate) fn parse_json_value(text: &str) -> (r: Option<serde_json::Value>)
    ensures
        r is Some <==> json_document(text@) is Some,
{
    serde_json::from_str::<serde_json::Value>(text).ok()
}

/// The value under `key` in a list of entries (the first such entry).
pub open spec fn entries_get(es: Seq<(String, DocValue)>, key: Seq<char>) -> Option<DocValue>
    decreases es.len(),
{
    if es.len() == 0 {
        None
    } else if es[0].0@ == key {
        Some(es[0].1)
    } else {
        entries_get(es.drop_first(), key)
    }
}

/// `Value::get(key)`: the value under `key` in a table, `None` for any
/// other value.
pub open spec fn doc_get(v: DocValue, key: Seq<char>) -> Option<DocValue> {
    match v {
        DocValue::Table(es) => entries_get(es@, key),
        _ => None,
    }
}

/// `Value::get(key)` on an optional value.
pub open spec fn opt_get(v: Option<DocValue>, key: Seq<char>) -> Option<DocValue> {
    match v {
        Some(x) => doc_get(x, key),
        None => None,
    }
}

/// `Value::as_str`.
pub open spec fn doc_str(v: DocValue) -> Option<Seq<char>> {
    match v {
        DocValue::Str(s) => Some(s@),
        _ => None,
    }
}

pub open spec fn opt_str(v: Option<DocValue>) -> Option<Seq<char>> {
    match v {
        Some(x) => doc_str(x),
        None => None,
    }
}

/// The string under `key` of an optional table.
pub open spec fn get_str(v: Option<DocValue>, key: Seq<char>) -> Option<Seq<char>> {
    opt_str(opt_get(v, key))
}

/// The entries of a table value.
pub open spec fn doc_table(v: Option<DocValue>) -> Option<Seq<(String, DocValue)>> {
    match v {
        Some(DocValue::Table(es)) => Some(es@),
        _ => None,
    }
}

/// The value under `key` in a list of entries.
pub fn entry<'a>(es: &'a Vec<(String, DocValue)>, key: &str) -> (r: Option<&'a DocValue>)
    ensures
        match r {
            Some(x) => entries_get(es@, key@) == Some(*x),
            None => entries_get(es@, key@) is None,
        },
{
    let mut k: usize = 0;
    assert(es@.skip(0) =~= es@);
    while k < es.len()
        invariant
            k <= es@.len(),
            entries_get(es@, key@) == entries_get(es@.skip(k as int), key@),
        decreases es@.len() - k,
    {
        assert(es@.skip(k as int)[0] == es@[k as int]);
        assert(es@.skip(k as int).drop_first() =~= es@.skip(k + 1));
        if str_eq(es[k].0.as_str(), key) {
            return Some(&es[k].1);
        }
        k = k + 1;
    }
    None
}

/// `Value::get(key)`.
pub fn get<'a>(v: &'a DocValue, key: &str) -> (r: Option<&'a DocValue>)
    ensures
        match r {
            Some(x) => doc_get(*v, key@) == Some(*x),
            None => doc_get(*v, key@) is None,
        },
{
    match v {
        DocValue::Table(es) => entry(es, key),
        _ => None,
    }
}

/// `Value::get(key)` on an optional value.
pub fn get_opt<'a>(v: Option<&'a DocValue>, key: &str) -> (r: Option<&'a DocValue>)
    ensures
        match r {
            Some(x) => opt_get(match v { Some(y) => Some(*y), None => None }, key@) == Some(*x),
            None => opt_get(match v { Some(y) => Some(*y), None => None }, key@) is None,
        },
{
    match v {
        Some(x) => get(x, key),
        None => None,
    }
}

/// `Value::as_str`, copied out.
pub fn str_value(v: Option<&DocValue>) -> (r: Option<String>)
    ensures
        match r {
            Some(s) => opt_str(match v { Some(y) => Some(*y), None => None }) == Some(s@),
            None => opt_str(match v { Some(y) => Some(*y), None => None }) is None,
        },
{
    match v {
        Some(DocValue::Str(s)) => Some(s.clone()),
        _ => None,
    }
}

} // verus!
