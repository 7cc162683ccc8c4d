//! The boundary to the JSON parser. A parsed JSON document is held as a
//! `serde_json::Value`; what such a value holds is named by `value_model`,
//! and the few accessors the command parser and schema engine need are
//! wrapped with contracts over that name.
use vstd::prelude::*;

verus! {

#[verifier::external_type_specification]
#[verifier::external_body]
pub struct ExValue(serde_json::Value);

/// The mathematical shape of a JSON document: the values the catalog's rules
/// read. Numeric payloads are outside those rules, so a number's shape is
/// just `Num`.
pub enum JsonModel {
    Null,
    Bool(bool),
    Num,
    Str(Seq<char>),
    Arr(Seq<JsonModel>),
    Obj(Map<Seq<char>, JsonModel>),
}

/// What a parsed JSON value holds.
pub uninterp spec fn value_model(v: serde_json::Value) -> JsonModel;

/// What parsing a text yields: the shape of the document, or nothing where
/// the text is not acceptable JSON.
pub uninterp spec fn json_text_model(s: Seq<char>) -> Option<JsonModel>;

/// The six shapes a JSON value can take.
#[derive(Clone, Copy, PartialEq, Eq, Structural, Debug)]
pub enum JsonKind {
    Null,
    Bool,
    Num,
    Str,
    Arr,
    Obj,
}

pub open spec fn kind_of(m: JsonModel) -> JsonKind {
    match m {
        JsonModel::Null => JsonKind::Null,
        JsonModel::Bool(_) => JsonKind::Bool,
        JsonModel::Num => JsonKind::Num,
        JsonModel::Str(_) => JsonKind::Str,
        JsonModel::Arr(_) => JsonKind::Arr,
        JsonModel::Obj(_) => JsonKind::Obj,
    }
}

/// The entries of an object shape; an empty map for any other shape.
pub open spec fn obj_of(m: JsonModel) -> Map<Seq<char>, JsonModel> {
    match m {
        JsonModel::Obj(f) => f,
        _ => Map::empty(),
    }
}

/// The characters of a string shape; empty for any other shape.
pub open spec fn str_of(m: JsonModel) -> Seq<char> {
    match m {
        JsonModel::Str(s) => s,
        _ => Seq::empty(),
    }
}

/// The elements of an array shape; empty for any other shape.
pub open spec fn arr_of(m: JsonModel) -> Seq<JsonModel> {
    match m {
        JsonModel::Arr(a) => a,
        _ => Seq::empty(),
    }
}

/// The value of a boolean shape; false for any other shape.
pub open spec fn bool_of(m: JsonModel) -> bool {
    match m {
        JsonModel::Bool(b) => b,
        _ => false,
    }
}

/// Relies on serde_json::from_str::<serde_json::Value>: whether a text
/// parses, and to what document, depends on the text alone.
#[verifier::external_body]
pub(crate) fn parse_json_text(s: &str) -> (r: Option<serde_json::Value>)
    ensures
        match r {
            Some(v) => json_text_model(s@) == Some(value_model(v)),
            None => json_text_model(s@) is None,
        },
{
    serde_json::from_str::<serde_json::Value>(s).ok()
}

/// Relies on serde_json::Value being an enum of exactly these six shapes;
/// one arm for each.
#[verifier::external_body]
pub(crate) fn json_kind(v: &serde_json::Value) -> (r: JsonKind)
    ensures
        r == kind_of(value_model(*v)),
{
    match v {
        serde_json::Value::Null => JsonKind::Null,
        serde_json::Value::Bool(_) => JsonKind::Bool,
        serde_json::Value::Number(_) => JsonKind::Num,
        serde_json::Value::String(_) => JsonKind::Str,
        serde_json::Value::Array(_) => JsonKind::Arr,
        serde_json::Value::Object(_) => JsonKind::Obj,
    }
}

/// Relies on serde_json::Value::as_str: the string behind a string value,
/// nothing for any other shape.
#[verifier::external_body]
pub(crate) fn json_str<'a>(v: &'a serde_json::Value) -> (r: Option<&'a str>)
    ensures
        match r {
            Some(s) => value_model(*v) == JsonModel::Str(s@),
            None => !(value_model(*v) is Str),
        },
{
    v.as_str()
}

/// Relies on serde_json::Value::as_bool: the boolean behind a boolean value,
/// nothing for any other shape.
#[verifier::external_body]
pub(crate) fn json_bool(v: &serde_json::Value) -> (r: Option<bool>)
    ensures
        match r {
            Some(b) => value_model(*v) == JsonModel::Bool(b),
            None => !(value_model(*v) is Bool),
        },
{
    v.as_bool()
}

/// Relies on serde_json::Value::as_array: the elements behind an array value,
/// nothing for any other shape.
#[verifier::external_body]
pub(crate) fn json_arr<'a>(v: &'a serde_json::Value) -> (r: Option<&'a Vec<serde_json::Value>>)
    ensures
        match r {
            Some(items) => value_model(*v) matches JsonModel::Arr(ms) && ms.len() == items@.len()
                && forall|i: int|
                0 <= i < items@.len() ==> #[trigger] value_model(items@[i]) == ms[i],
            None => !(value_model(*v) is Arr),
        },
{
    v.as_array()
}

/// Relies on serde_json::Value::get with a string index: the entry under the
/// key when the value is an object that has it, nothing otherwise.
#[verifier::external_body]
pub(crate) fn json_get<'a>(v: &'a serde_json::Value, key: &str) -> (r: Option<
    &'a serde_json::Value,
>)
    ensures
        match r {
            Some(e) => value_model(*v) matches JsonModel::Obj(m) && m.dom().contains(key@)
                && value_model(*e) == m[key@],
            None => (value_model(*v) matches JsonModel::Obj(m) ==> !m.dom().contains(key@)),
        },
{
    v.get(key)
}

} // verus!
