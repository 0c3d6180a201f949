//! What the plugin reads of a JSON document: whether it parses, and the
//! shape of one top-level member. Parsing is serde_json's; the library sees
//! its outcome through the two names below.
use vstd::prelude::*;
use serde_json::Value;

verus! {

/// A top-level member of a JSON document, as the plugin reads it.
#[derive(Debug)]
pub enum Member {
    /// The document is not an object, or has no member of that name.
    Absent,
    /// The member is `null`.
    Null,
    /// The member is a string.
    Text(String),
    /// The member is an array; each element is its string, or `None` when it
    /// is not a string.
    List(Vec<Option<String>>),
    /// The member is a boolean, a number or an object.
    Other,
}

/// The name of what `serde_json::from_slice::<Value>` reports about
/// `document`: `None` when it is one JSON value, else the `Display` text of
/// its error.
pub uninterp spec fn json_error(document: Seq<u8>) -> Option<Seq<char>>;

/// The name of the member `key` of `document` as `Value::get` finds it,
/// where `document` parses.
pub uninterp spec fn json_member_of(document: Seq<u8>, key: Seq<char>) -> Member;

/// `serde_json::from_slice::<Value>`, then `Value::get(key)`, the member told
/// apart by its variant (and an array's elements by `Value::as_str`). The
/// contract claims only that the outcome is a function of the document and
/// the key: the error's text, named `json_error`, where the document does
/// not parse, else the member, named `json_member_of`. What JSON parses, and
/// to what, is left to serde_json.
#[verifier::external_body]
pub(crate) fn json_member(document: &[u8], key: &str) -> (res: Result<Member, String>)
    ensures
        match json_error(document@) {
            Some(message) => res matches Err(e) && e@ == message,
            None => res == Ok::<Member, String>(json_member_of(document@, key@)),
        },
{
    let value: Value = serde_json::from_slice(document).map_err(|error| error.to_string())?;
    Ok(match value.get(key) {
        None => Member::Absent,
        Some(Value::Null) => Member::Null,
        Some(Value::String(text)) => Member::Text(text.clone()),
        Some(Value::Array(items)) => Member::List(items.iter().map(|item| item.as_str().map(String::from)).collect()),
        Some(_) => Member::Other,
    })
}

/// `serde_json::from_slice::<Value>`, for whether the document parses. The
/// contract is that of `json_member` without the member.
#[verifier::external_body]
pub(crate) fn json_check(document: &[u8]) -> (res: Result<(), String>)
    ensures
        match json_error(document@) {
            Some(message) => res matches Err(e) && e@ == message,
            None => res is Ok,
        },
{
    serde_json::from_slice::<Value>(document).map(|_| ()).map_err(|error| error.to_string())
}

} // verus!
