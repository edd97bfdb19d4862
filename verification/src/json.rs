//! Reading a member of a JSON document, through `serde_json`.
use vstd::prelude::*;

verus! {

/// What `serde_json` finds in the JSON text `text` under the top-level object
/// member `key`, when that member is a string: the string's characters. It is
/// none when the text is not JSON, the document is not an object, the member
/// is missing or its value is not a string.
pub uninterp spec fn json_member_string(text: Seq<char>, key: Seq<char>) -> Option<Seq<char>>;

/// Parses `text` with `serde_json::from_str` into a `serde_json::Value`, looks
/// up `key` with `Value::get` and reads it with `Value::as_str`. Claimed: the
/// result is `json_member_string(text, key)`, a function of the two texts
/// alone (parsing neither panics nor depends on anything else); nothing is
/// claimed of what that function is on given texts.
#[verifier::external_body]
fn top_level_string_member(text: &str, key: &str) -> (r: Option<String>)
    ensures
        match r {
            Some(v) => json_member_string(text@, key@) == Some(v@),
            None => json_member_string(text@, key@) is None,
        },
{
    let value: serde_json::Value = serde_json::from_str(text).ok()?;
    value.get(key)?.as_str().map(String::from)
}

/// The `version` string of a `package.json` text.
pub fn package_version(manifest: &str) -> (r: Option<String>)
    ensures
        match r {
            Some(v) => json_member_string(manifest@, "version"@) == Some(v@),
            None => json_member_string(manifest@, "version"@) is None,
        },
{
    top_level_string_member(manifest, "version")
}

} // verus!
