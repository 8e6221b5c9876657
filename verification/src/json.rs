//! JSON text, as `serde_json` writes it.

use vstd::prelude::*;

verus! {

/// The JSON string literal that `serde_json` writes for a text.
pub uninterp spec fn json_quoted(s: Seq<char>) -> Seq<char>;

/// The compact JSON text that `serde_json` writes for the value that it
/// reads from a text, if it can read one.
pub uninterp spec fn json_compacted(s: Seq<char>) -> Option<Seq<char>>;

/// Calls `to_string` of a `serde_json::Value::String`: gives the text as a
/// JSON string literal, in quotes and with its escapes.
#[verifier::external_body]
pub(crate) fn json_quote(s: &str) -> (r: String)
    ensures
        r@ == json_quoted(s@),
{
    serde_json::Value::String(s.to_owned()).to_string()
}

/// Calls `serde_json::from_str` for a `serde_json::Value` and `to_string`
/// of the value read: gives the value's compact JSON text, or `None` where
/// the text is not JSON.
#[verifier::external_body]
pub(crate) fn json_compact(s: &str) -> (r: Option<String>)
    ensures
        match r {
            Some(t) => json_compacted(s@) == Some(t@),
            None => json_compacted(s@) is None,
        },
{
    match serde_json::from_str::<serde_json::Value>(s) {
        Ok(v) => Some(v.to_string()),
        Err(_) => None,
    }
}

/// The indented JSON text that `serde_json` writes for the value that it
/// reads from a text, if it can read one.
pub uninterp spec fn json_prettied(s: Seq<char>) -> Option<Seq<char>>;

/// Calls `serde_json::from_str` for a `serde_json::Value` and
/// `serde_json::to_string_pretty` on the value read: gives the value's
/// indented JSON text, or `None` where the text is not JSON.
#[verifier::external_body]
pub(crate) fn json_pretty(s: &str) -> (r: Option<String>)
    ensures
        match r {
            Some(t) => json_prettied(s@) == Some(t@),
            None => json_prettied(s@) is None,
        },
{
    match serde_json::from_str::<serde_json::Value>(s) {
        Ok(v) => serde_json::to_string_pretty(&v).ok(),
        Err(_) => None,
    }
}

} // verus!
