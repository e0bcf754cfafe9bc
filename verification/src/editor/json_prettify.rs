//! Pretty JSON.
use serde::Serialize as _;
use vstd::prelude::*;

verus! {

/// What `serde_json` makes of `json`: parsed into a `Value` and written with one tab of
/// indent per level; or the message of the error where `json` is no JSON.
pub uninterp spec fn json_pretty(json: Seq<char>) -> Result<Seq<char>, Seq<char>>;

/// `serde_json::from_str` into a `Value`, then its `Serialize` into a `Serializer` with a
/// `PrettyFormatter` of a tab's indent.
#[verifier::external_body]
fn pretty_json(json: &str) -> (r: Result<String, String>)
    ensures
        match (r, json_pretty(json@)) {
            (Ok(s), Ok(t)) => s@ == t,
            (Err(s), Err(t)) => s@ == t,
            _ => false,
        },
{
    let value: serde_json::Value = serde_json::from_str(json).map_err(|e| e.to_string())?;
    let formatter = serde_json::ser::PrettyFormatter::with_indent(b"\t");
    let mut serializer = serde_json::Serializer::with_formatter(Vec::new(), formatter);
    value.serialize(&mut serializer).map_err(|e| e.to_string())?;
    String::from_utf8(serializer.into_inner()).map_err(|e| e.to_string())
}

/// JSON that `serde_json` refuses, with its message.
#[derive(Debug)]
pub struct JsonError {
    pub message: String,
}

/// The JSON written with one tab of indent per level; `Err` where it is no JSON.
pub fn prettify(json: &str) -> (r: Result<String, JsonError>)
    ensures
        match (r, json_pretty(json@)) {
            (Ok(s), Ok(t)) => s@ == t,
            (Err(e), Err(t)) => e.message@ == t,
            _ => false,
        },
{
    match pretty_json(json) {
        Ok(s) => Ok(s),
        Err(message) => Err(JsonError { message }),
    }
}

} // verus!
