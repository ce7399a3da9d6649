//! Decoding of raw bytes into a document tree. The decoding itself is
//! done by an outside library; everything downstream of it is verified
//! against the name given to its result here.
use crate::json::wf_json;
use crate::json::Json;
use crate::json::JsonModel;
use vstd::prelude::*;

verus! {

#[verifier::external_type_specification]
#[verifier::external_body]
pub struct ExSerdeValue(serde_json::Value);

/// The document that the byte sequence decodes to, or `None` when the
/// bytes are not a well-formed document; a function of the bytes alone.
pub uninterp spec fn spec_parse(bytes: Seq<u8>) -> Option<JsonModel>;

/// Relies on serde_json::from_slice: whether the bytes decode, and to
/// which tree, depends on the bytes alone; a decoded map never holds the
/// same key twice.
#[verifier::external_body]
pub(crate) fn parse_json(bytes: &[u8]) -> (r: Option<Json>)
    ensures
        (match r {
            Some(j) => spec_parse(bytes@) == Some(j@) && wf_json(j@),
            None => spec_parse(bytes@) is None,
        }),
{
    match serde_json::from_slice::<serde_json::Value>(bytes) {
        Ok(v) => Some(value_to_json(&v)),
        Err(_) => None,
    }
}

/// Relies on the variant accessors of serde_json::Value: converts the
/// decoded tree into the library's document type, one node for one node;
/// a number keeps its decimal rendering.
#[verifier::external_body]
fn value_to_json(v: &serde_json::Value) -> Json {
    match v {
        serde_json::Value::Null => Json::Null,
        serde_json::Value::Bool(b) => Json::Bool(*b),
        serde_json::Value::Number(n) => Json::Num(format!("{}", n)),
        serde_json::Value::String(s) => Json::Str(s.clone()),
        serde_json::Value::Array(a) => Json::Arr(a.iter().map(value_to_json).collect()),
        serde_json::Value::Object(m) => Json::Obj(
            m.iter().map(|(k, x)| (k.clone(), value_to_json(x))).collect(),
        ),
    }
}

} // verus!
