//! The body of a server-side apply.

use vstd::prelude::*;

verus! {

#[verifier::external_type_specification]
#[verifier::external_body]
pub struct ExValue(serde_json::Value);

/// The members of a JSON object by name; nothing for a value that is no object.
pub uninterp spec fn members(v: serde_json::Value) -> Option<Map<Seq<char>, serde_json::Value>>;

/// The text that a JSON value is; nothing for one that is no string.
pub uninterp spec fn text_in(v: serde_json::Value) -> Option<Seq<char>>;

/// `serde_json::Map::insert` of a string into the object that a value is.
/// Claims that the member `key` is then that string, that all other members stay
/// as they are, and that a value that is no object stays as it is.
#[verifier::external_body]
fn set_text(v: &mut serde_json::Value, key: &str, s: &str)
    ensures
        match members(*old(v)) {
            None => *final(v) == *old(v),
            Some(m) => {
                &&& members(*final(v)) matches Some(a)
                &&& a.contains_key(key@)
                &&& text_in(a[key@]) == Some(s@)
                &&& a.remove(key@) == m.remove(key@)
            },
        },
{
    if let serde_json::Value::Object(m) = v {
        m.insert(key.to_string(), serde_json::Value::String(s.to_string()));
    }
}

/// Whether `after` is the object `before` with this API version and kind.
pub open spec fn is_typed(
    before: serde_json::Value,
    after: serde_json::Value,
    api_version: Seq<char>,
    kind: Seq<char>,
) -> bool {
    match members(before) {
        None => after == before,
        Some(m) => {
            &&& members(after) matches Some(a)
            &&& a.contains_key("apiVersion"@)
            &&& text_in(a["apiVersion"@]) == Some(api_version)
            &&& a.contains_key("kind"@)
            &&& text_in(a["kind"@]) == Some(kind)
            &&& a.remove("apiVersion"@).remove("kind"@) == m.remove("apiVersion"@).remove("kind"@)
        },
    }
}

/// The body that applies an object: the object as it serialises, with its API
/// version and kind, which the serialised form omits.
pub fn apply_body(value: serde_json::Value, api_version: &str, kind: &str) -> (r: serde_json::Value)
    ensures
        is_typed(value, r, api_version@, kind@),
{
    let mut v = value;
    set_text(&mut v, "apiVersion", api_version);
    let ghost between = members(v);
    set_text(&mut v, "kind", kind);
    proof {
        if let Some(m) = members(value) {
            let b = between->0;
            let a = members(v)->0;
            reveal_strlit("apiVersion");
            reveal_strlit("kind");
            assert("apiVersion"@.len() != "kind"@.len());
            assert(a.remove("kind"@).contains_key("apiVersion"@));
            assert(a.remove("kind"@)["apiVersion"@] == a["apiVersion"@]);
            assert(a.remove("apiVersion"@).remove("kind"@) =~= a.remove("kind"@).remove(
                "apiVersion"@,
            ));
            assert(b.remove("kind"@).remove("apiVersion"@) =~= b.remove("apiVersion"@).remove(
                "kind"@,
            ));
        }
    }
    v
}

} // verus!
