use vstd::prelude::*;

use crate::error::InSightError;
use crate::json::{Json, JsonNumber};
use crate::report::{report_decodes, report_of, InSight};

verus! {

#[verifier::external_type_specification]
#[verifier::external_body]
pub struct ExValue(serde_json::Value);

/// What serde_json reads from JSON text, as a `Json` tree; `None` where the
/// text is not JSON. It depends on the text alone.
pub uninterp spec fn json_of(text: Seq<char>) -> Option<Json>;

/// Relies on serde_json's `Value`: moves each variant into the matching
/// `Json` variant, a number as `Number::as_i64` and its `Display` text.
#[verifier::external_body]
fn tree_of_value(v: serde_json::Value) -> Json {
    match v {
        serde_json::Value::Null => Json::Null,
        serde_json::Value::Bool(b) => Json::Bool(b),
        serde_json::Value::Number(n) => Json::Number(JsonNumber { int: n.as_i64(), text: n.to_string() }),
        serde_json::Value::String(s) => Json::Str(s),
        serde_json::Value::Array(xs) => Json::Array(xs.into_iter().map(tree_of_value).collect()),
        serde_json::Value::Object(m) => Json::Object(m.into_iter().map(|(k, x)| (k, tree_of_value(x))).collect()),
    }
}

/// Relies on `serde_json::from_str::<serde_json::Value>` to read JSON text.
#[verifier::external_body]
fn parse_tree(text: &str) -> (r: Option<Json>)
    ensures
        r == json_of(text@),
{
    serde_json::from_str::<serde_json::Value>(text).ok().map(tree_of_value)
}

/// Reads JSON text into a `Json` tree; `None` where it is not JSON.
pub fn parse_json(text: &str) -> (r: Option<Json>)
    ensures
        r == json_of(text@),
{
    parse_tree(text)
}

impl InSight {
    /// Reads a report from JSON text. Text that is not JSON, and a document
    /// that `from_json` refuses, give `MalformedReport`.
    pub fn parse(text: &str) -> (r: Result<InSight, InSightError>)
        ensures
            match json_of(text@) {
                None => r == Err::<InSight, InSightError>(InSightError::MalformedReport),
                Some(j) => match r {
                    Ok(ins) => report_of(j, ins),
                    Err(e) => !report_decodes(j) && e == InSightError::MalformedReport,
                },
            },
    {
        match parse_tree(text) {
            Some(doc) => InSight::from_json(doc),
            None => Err(InSightError::MalformedReport),
        }
    }
}

} // verus!
