//! Reading top-level members of JSON documents.

use vstd::prelude::*;

verus! {

/// A top-level member of a JSON document.
#[derive(Debug)]
pub enum JsonField {
    /// No such member (or the document is not an object).
    Absent,
    /// A string member.
    Text(String),
    /// A member of another kind.
    Other,
}

/// What `serde_json` makes of `body` and its top-level member `key`: the
/// parser's message when the body is not JSON.
pub uninterp spec fn json_member(body: Seq<u8>, key: Seq<char>) -> Result<JsonField, String>;

/// Parses `body` with `serde_json::from_slice` into a `serde_json::Value` and
/// reads its member `key` with `Value::get`, telling strings from the rest;
/// a parse error comes back as its message.
#[verifier::external_body]
pub(crate) fn json_member_of(body: &[u8], key: &str) -> (r: Result<JsonField, String>)
    ensures
        r == json_member(body@, key@),
{
    match serde_json::from_slice::<serde_json::Value>(body) {
        Err(e) => Err(e.to_string()),
        Ok(v) => Ok(match v.get(key) {
            None => JsonField::Absent,
            Some(serde_json::Value::String(s)) => JsonField::Text(s.clone()),
            Some(_) => JsonField::Other,
        }),
    }
}

/// The text of a string member, else `default`.
pub open spec fn text_or(f: JsonField, default: Seq<char>) -> Seq<char> {
    match f {
        JsonField::Text(s) => s@,
        _ => default,
    }
}

/// The text of a string member, else `default`.
pub fn text_or_default(f: &JsonField, default: &str) -> (r: String)
    ensures
        r@ == text_or(*f, default@),
{
    match f {
        JsonField::Text(s) => crate::text::string_of(&crate::text::chars_of(s.as_str())),
        _ => crate::text::string_of(&crate::text::chars_of(default)),
    }
}

} // verus!
