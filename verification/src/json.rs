//! Trusted boundary to the JSON codec (serde_json), which this design treats
//! as an external collaborator: a response body is parsed into a
//! `serde_json::Value` and probed field by field. A `Value` is opaque here,
//! so its content is named: `doc_of` maps a parsed value to a spec-level
//! document, and `json_of` maps a text to the document it parses to, if any.
//! Every wrapper states what its call answers in terms of those names, and
//! the verified probes above this module carry exact contracts over them.

use vstd::prelude::*;

verus! {

#[verifier::external_type_specification]
#[verifier::external_body]
pub struct ExValue(serde_json::Value);

#[verifier::external_type_specification]
#[verifier::external_body]
pub struct ExJsonError(serde_json::Error);

/// Spec-level shape of a JSON number: the decimal text its formatter prints,
/// and its reading as an unsigned integer, when it has one.
pub struct NumberView {
    pub text: Seq<char>,
    pub int_val: Option<u64>,
}

/// Spec-level JSON document.
pub enum JsonView {
    Null,
    Bool(bool),
    Num(NumberView),
    Str(Seq<char>),
    Arr(Seq<JsonView>),
    Obj(Map<Seq<char>, JsonView>),
}

/// The document a parsed `serde_json::Value` carries.
pub uninterp spec fn doc_of(v: serde_json::Value) -> JsonView;

/// The document a text parses to, when it is valid JSON. Parsing is a
/// function of the text alone.
pub uninterp spec fn json_of(s: Seq<char>) -> Option<JsonView>;

/// Relies on `serde_json::from_str::<Value>`: parses a JSON document into a
/// tree of values — deterministically, so the answer names `json_of` — or
/// reports a parse error exactly when the text is not a JSON document.
#[verifier::external_body]
pub(crate) fn json_parse(s: &str) -> (r: Result<serde_json::Value, serde_json::Error>)
    ensures
        match r {
            Ok(v) => json_of(s@) == Some(doc_of(v)),
            Err(_) => json_of(s@) is None,
        },
{
    serde_json::from_str::<serde_json::Value>(s)
}

/// Relies on the `Display` of `serde_json::Error`: the parse diagnostic as
/// text. Nothing is claimed of the wording.
#[verifier::external_body]
pub(crate) fn json_error_text(e: &serde_json::Error) -> (r: String) {
    e.to_string()
}

/// Relies on `Value::get` with a string index: the member under that key,
/// exactly when the value is an object carrying it.
#[verifier::external_body]
pub(crate) fn json_get<'a>(v: &'a serde_json::Value, key: &str) -> (r: Option<
    &'a serde_json::Value,
>)
    ensures
        match r {
            Some(m) => doc_of(*v) is Obj && doc_of(*v)->Obj_0.contains_key(key@) && doc_of(*m)
                == doc_of(*v)->Obj_0[key@],
            None => !(doc_of(*v) is Obj) || !doc_of(*v)->Obj_0.contains_key(key@),
        },
{
    v.get(key)
}

/// Relies on `Value::as_u64`: the value's reading as an unsigned integer,
/// when it is a number representable as one; that reading is what the
/// model's `int_val` names.
#[verifier::external_body]
pub(crate) fn json_as_u64(v: &serde_json::Value) -> (r: Option<u64>)
    ensures
        r == (match doc_of(*v) {
            JsonView::Num(n) => n.int_val,
            _ => None::<u64>,
        }),
{
    v.as_u64()
}

/// Relies on `Value::as_str`: the value's text, exactly when it is a string.
#[verifier::external_body]
pub(crate) fn json_as_str<'a>(v: &'a serde_json::Value) -> (r: Option<&'a str>)
    ensures
        match r {
            Some(s) => doc_of(*v) == JsonView::Str(s@),
            None => !(doc_of(*v) is Str),
        },
{
    v.as_str()
}

/// Relies on `Value::as_array`: the value's elements, exactly when it is an
/// array; the elements carry the model's documents in order.
#[verifier::external_body]
pub(crate) fn json_as_array<'a>(v: &'a serde_json::Value) -> (r: Option<
    &'a Vec<serde_json::Value>,
>)
    ensures
        match r {
            Some(a) => doc_of(*v) is Arr && doc_of(*v)->Arr_0.len() == a@.len() && (forall|i: int|
                0 <= i < a@.len() ==> doc_of(*v)->Arr_0[i] == doc_of(#[trigger] a@[i])),
            None => !(doc_of(*v) is Arr),
        },
{
    v.as_array()
}

/// Relies on the `Display` of `serde_json::Number`: a number's decimal text
/// (an integer as its digits with an optional sign, a float as the shortest
/// decimal or exponent form that reads back as it; a parsed number is always
/// finite); never empty, a function of the number alone, and what the
/// model's `text` names. Answers exactly when the value is a number.
#[verifier::external_body]
pub(crate) fn json_number_text(v: &serde_json::Value) -> (r: Option<String>)
    ensures
        match r {
            Some(t) => doc_of(*v) is Num && t@ == doc_of(*v)->Num_0.text && t@.len() >= 1,
            None => !(doc_of(*v) is Num),
        },
{
    match v {
        serde_json::Value::Number(n) => Some(n.to_string()),
        _ => None,
    }
}

} // verus!
