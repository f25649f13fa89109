//! Structured documents as the library reads them: a JSON value or a TOML
//! document, parsed by serde_json and toml and held as plain values. Which
//! field the library reads and what it requires of it is decided over these
//! values, never inside the parse.

use vstd::prelude::*;

use crate::text::str_eq;
use serde_json::Value;

verus! {

/// One value of a document's top level, as much as the library reads of
/// it: a string, an integer as TOML writes it, a JSON number with its value
/// when it is an unsigned integer, or anything else.
#[derive(Debug, Clone, PartialEq, Eq)]
pub enum Scalar {
    Text(String),
    Integer(i64),
    Number(Option<u64>),
    Other,
}

/// A JSON value: an object with its members, or any other value as a
/// scalar.
#[derive(Debug, Clone, PartialEq, Eq)]
pub enum JsonValue {
    Object(Vec<(String, Scalar)>),
    Plain(Scalar),
}

/// A scalar with its text as characters.
pub enum ScalarView {
    Text(Seq<char>),
    Integer(i64),
    Number(Option<u64>),
    Other,
}

/// A JSON value with its texts as characters.
pub enum JsonView {
    Object(Seq<(Seq<char>, ScalarView)>),
    Plain(ScalarView),
}

pub open spec fn scalar_view(s: Scalar) -> ScalarView {
    match s {
        Scalar::Text(t) => ScalarView::Text(t@),
        Scalar::Integer(i) => ScalarView::Integer(i),
        Scalar::Number(n) => ScalarView::Number(n),
        Scalar::Other => ScalarView::Other,
    }
}

pub open spec fn field_view(f: (String, Scalar)) -> (Seq<char>, ScalarView) {
    (f.0@, scalar_view(f.1))
}

pub open spec fn fields_view(fs: Seq<(String, Scalar)>) -> Seq<(Seq<char>, ScalarView)> {
    fs.map_values(|f: (String, Scalar)| field_view(f))
}

pub open spec fn json_view(v: JsonValue) -> JsonView {
    match v {
        JsonValue::Object(fs) => JsonView::Object(fields_view(fs@)),
        JsonValue::Plain(v) => JsonView::Plain(scalar_view(v)),
    }
}

pub open spec fn json_result_view(r: Result<JsonValue, String>) -> Result<JsonView, Seq<char>> {
    match r {
        Ok(v) => Ok(json_view(v)),
        Err(e) => Err(e@),
    }
}

pub open spec fn toml_result_view(r: Result<Vec<(String, Scalar)>, String>) -> Result<
    Seq<(Seq<char>, ScalarView)>,
    Seq<char>,
> {
    match r {
        Ok(fs) => Ok(fields_view(fs@)),
        Err(e) => Err(e@),
    }
}

/// serde_json's reading of a JSON text: the value it parses to, or the
/// display of the error it refuses the text with.
pub uninterp spec fn json_reading(raw: Seq<char>) -> Result<JsonView, Seq<char>>;

/// toml's reading of a TOML document: its top-level table, or the display
/// of the error it refuses the text with.
pub uninterp spec fn toml_reading(raw: Seq<char>) -> Result<Seq<(Seq<char>, ScalarView)>, Seq<char>>;

/// `serde_json::from_str::<serde_json::Value>`: an object kept with its
/// members as `(name, Scalar)` pairs, any other value converted to a
/// `Scalar`, each variant by an arm of its own (a number to its `as_u64`).
/// Claimed: the outcome is `json_reading` of the text, which depends on the
/// text alone; nothing is claimed of which texts parse, of the members'
/// order or of the error's words.
#[verifier::external_body]
pub(crate) fn read_json(raw: &str) -> (r: Result<JsonValue, String>)
    ensures
        json_result_view(r) == json_reading(raw@),
{
    let scalar = |v: Value| match v {
        Value::String(s) => Scalar::Text(s),
        Value::Number(n) => Scalar::Number(n.as_u64()),
        Value::Null => Scalar::Other,
        Value::Bool(_) => Scalar::Other,
        Value::Array(_) => Scalar::Other,
        Value::Object(_) => Scalar::Other,
    };
    match serde_json::from_str::<Value>(raw) {
        Ok(Value::Object(m)) => Ok(JsonValue::Object(m.into_iter().map(|(k, v)| (k, scalar(v))).collect())),
        Ok(v) => Ok(JsonValue::Plain(scalar(v))),
        Err(e) => Err(e.to_string()),
    }
}

/// `toml::from_str::<toml::Table>`, each top-level value converted to the
/// library's `Scalar`. Claimed: the outcome is `toml_reading` of the text,
/// which depends on the text alone; nothing is claimed of which texts
/// parse or of the error's words.
#[verifier::external_body]
pub(crate) fn read_toml(raw: &str) -> (r: Result<Vec<(String, Scalar)>, String>)
    ensures
        toml_result_view(r) == toml_reading(raw@),
{
    let scalar = |v: toml::Value| match v {
        toml::Value::String(s) => Scalar::Text(s),
        toml::Value::Integer(i) => Scalar::Integer(i),
        toml::Value::Float(_) => Scalar::Other,
        toml::Value::Boolean(_) => Scalar::Other,
        toml::Value::Datetime(_) => Scalar::Other,
        toml::Value::Array(_) => Scalar::Other,
        toml::Value::Table(_) => Scalar::Other,
    };
    match toml::from_str::<toml::Table>(raw) {
        Ok(t) => Ok(t.into_iter().map(|(k, v)| (k, scalar(v))).collect()),
        Err(e) => Err(e.to_string()),
    }
}

/// The value of the first field named `key`.
pub open spec fn field_of(fs: Seq<(Seq<char>, ScalarView)>, key: Seq<char>) -> Option<ScalarView>
    decreases fs.len(),
{
    if fs.len() == 0 {
        None
    } else if fs[0].0 == key {
        Some(fs[0].1)
    } else {
        field_of(fs.drop_first(), key)
    }
}

/// The text of the first field named `key`, when it is a string.
pub open spec fn text_field(fs: Seq<(Seq<char>, ScalarView)>, key: Seq<char>) -> Option<Seq<char>> {
    match field_of(fs, key) {
        Some(ScalarView::Text(t)) => Some(t),
        _ => None,
    }
}

/// The first field named `key`.
pub fn find_field<'a>(fs: &'a Vec<(String, Scalar)>, key: &str) -> (r: Option<&'a Scalar>)
    ensures
        match (r, field_of(fields_view(fs@), key@)) {
            (Some(s), Some(v)) => scalar_view(*s) == v,
            (None, None) => true,
            _ => false,
        },
{
    let ghost all = fields_view(fs@);
    let mut i: usize = 0;
    proof {
        assert(all.skip(0) =~= all);
    }
    while i < fs.len()
        invariant
            i <= fs.len(),
            all == fields_view(fs@),
            field_of(all, key@) == field_of(all.skip(i as int), key@),
        decreases fs.len() - i,
    {
        proof {
            assert(all.skip(i as int)[0] == field_view(fs@[i as int]));
            assert(all.skip(i as int).drop_first() =~= all.skip(i + 1));
        }
        if str_eq(fs[i].0.as_str(), key) {
            return Some(&fs[i].1);
        }
        i = i + 1;
    }
    proof {
        assert(all.skip(fs.len() as int).len() == 0);
    }
    None
}

} // verus!
