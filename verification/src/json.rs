//! An owned JSON document tree, and the trusted boundary to `serde_json`,
//! which does the actual parsing.
//!
//! Everything downstream of `parse_json` — field lookup, payload extraction,
//! validation of required fields — is verified against the tree, for every
//! value the parser could hand back.

use crate::strutil::str_eq;
use vstd::prelude::*;

verus! {

/// A parsed JSON document.  Object fields appear in the order the parser
/// hands them out; numbers are carried as the decimal rendering the parser
/// gives them, which is how a pull-request number becomes its display id.
pub enum JsonValue {
    Null,
    Bool(bool),
    Number(String),
    Text(String),
    Array(Vec<JsonValue>),
    Object(Vec<(String, JsonValue)>),
}

/// `serde_json`'s value type, declared so that the conversion below can
/// take it.  It stays opaque: nothing in the library reads it directly.
#[verifier::external_type_specification]
#[verifier::external_body]
pub struct ExValue(serde_json::Value);

/// The document that parsing `s` yields, or `None` when `s` is not valid
/// JSON.  The result is a function of the input characters alone:
/// `serde_json::from_str` is deterministic, and so is the conversion into
/// `JsonValue` (object fields come from a `BTreeMap`, so their order depends
/// only on the keys).
pub uninterp spec fn spec_parse_json(s: Seq<char>) -> Option<JsonValue>;

/// Relies on the shape of the `serde_json::Value` enum and on
/// `serde_json::Number`'s `Display` (an `itoa`/shortest-float rendering of
/// the parsed number): converts a parsed value into the library's own tree,
/// one variant to one variant, moving fields.
#[verifier::external_body]
fn convert_value(v: serde_json::Value) -> JsonValue {
    match v {
        serde_json::Value::Null => JsonValue::Null,
        serde_json::Value::Bool(b) => JsonValue::Bool(b),
        serde_json::Value::Number(n) => JsonValue::Number(n.to_string()),
        serde_json::Value::String(s) => JsonValue::Text(s),
        serde_json::Value::Array(a) => JsonValue::Array(
            a.into_iter().map(convert_value).collect(),
        ),
        serde_json::Value::Object(m) => JsonValue::Object(
            m.into_iter().map(|(k, x)| (k, convert_value(x))).collect(),
        ),
    }
}

/// Relies on `serde_json::from_str::<serde_json::Value>`: parses a response
/// body, yielding `None` exactly when the body is not valid JSON.  The
/// document itself is only named — `spec_parse_json` — because what the
/// parser accepts takes pages to state; every caller is verified for every
/// tree this could return.
#[verifier::external_body]
pub fn parse_json(body: &str) -> (r: Option<JsonValue>)
    ensures
        r == spec_parse_json(body@),
{
    match serde_json::from_str::<serde_json::Value>(body) {
        Ok(v) => Some(convert_value(v)),
        Err(_) => None,
    }
}

/// The value of the first field named `key`, if any.
pub open spec fn spec_obj_lookup(fields: Seq<(String, JsonValue)>, key: Seq<char>) -> Option<
    JsonValue,
>
    decreases fields.len(),
{
    if fields.len() == 0 {
        None
    } else if fields[0].0@ == key {
        Some(fields[0].1)
    } else {
        spec_obj_lookup(fields.drop_first(), key)
    }
}

/// Looks a field up in an object's field list by name.
pub fn obj_lookup<'a>(fields: &'a Vec<(String, JsonValue)>, key: &str) -> (r: Option<
    &'a JsonValue,
>)
    ensures
        r is Some <==> spec_obj_lookup(fields@, key@) is Some,
        r is Some ==> *r.unwrap() == spec_obj_lookup(fields@, key@).unwrap(),
{
    let mut i: usize = 0;
    proof {
        assert(fields@.skip(0) =~= fields@);
    }
    while i < fields.len()
        invariant
            i <= fields@.len(),
            spec_obj_lookup(fields@, key@) == spec_obj_lookup(fields@.skip(i as int), key@),
        decreases fields@.len() - i,
    {
        proof {
            assert(fields@.skip(i as int)[0] == fields@[i as int]);
        }
        if str_eq(fields[i].0.as_str(), key) {
            return Some(&fields[i].1);
        }
        proof {
            assert(fields@.skip(i as int).drop_first() =~= fields@.skip(i + 1));
        }
        i = i + 1;
    }
    None
}

} // verus!
