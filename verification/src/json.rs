//! JSON bodies: building the `{"logs": ...}` and `{"error": ...}` objects
//! the server sends, and extracting the `logs` field the client reads.

use vstd::prelude::*;
use vstd::string::StringExecFns;

verus! {

/// The JSON string literal for `s`: surrounding quotes and escapes as
/// serde_json writes them. A function of `s` alone.
pub uninterp spec fn json_quoted(s: Seq<char>) -> Seq<char>;

/// Relies on `serde_json::to_string` applied to a string slice: the result
/// is the JSON string literal for `s` (quoted, with escapes), determined by
/// `s` alone; serializing a string value does not fail.
#[verifier::external_body]
fn json_quote(s: &str) -> (r: String)
    ensures
        r@ == json_quoted(s@),
{
    serde_json::to_string(s).expect("serializing a string value does not fail")
}

/// The body of a successful read: `{"logs": <quoted contents>}`.
pub open spec fn logs_body_of(content: Seq<char>) -> Seq<char> {
    "{\"logs\": "@ + json_quoted(content) + "}"@
}

/// The body sent when the log cannot be read.
pub open spec fn no_logs_body() -> Seq<char> {
    "{\"error\": \"No logs found\"}"@
}

/// The body sent for an unknown target.
pub open spec fn invalid_url_body() -> Seq<char> {
    "{\"error\": \"Invalid URL\"}"@
}

/// Builds the JSON body carrying the full log contents.
pub fn logs_body(content: &str) -> (r: String)
    ensures
        r@ == logs_body_of(content@),
{
    let mut s = String::from_str("{\"logs\": ");
    s.append(json_quote(content).as_str());
    s.append("}");
    proof {
        assert(s@ =~= logs_body_of(content@));
    }
    s
}

/// The JSON value of the `logs` field of `s`, if `s` parses as a JSON
/// object whose `logs` field holds a string. A function of `s` alone.
pub uninterp spec fn logs_field_of(s: Seq<char>) -> Option<Seq<char>>;

/// Relies on `serde_json::from_str` and `serde_json::Value::{get, as_str}`:
/// parses `s` and extracts the string under the `logs` key, `None` when `s`
/// is not valid JSON, not an object, or holds no string there; the outcome
/// is determined by `s` alone.
#[verifier::external_body]
pub(crate) fn extract_logs_field(s: &str) -> (r: Option<String>)
    ensures
        r.deep_view() == logs_field_of(s@),
{
    match serde_json::from_str::<serde_json::Value>(s) {
        Ok(v) => match v.get("logs") {
            Some(f) => f.as_str().map(|t| t.to_owned()),
            None => None,
        },
        Err(_) => None,
    }
}

} // verus!
