//! Conversions to JSON.

use std::collections::HashMap;
use vstd::prelude::*;

verus! {

/// A JSON value of `serde_json`, carried as it is.
#[verifier::external_type_specification]
#[verifier::external_body]
pub struct ExJsonValue(serde_json::Value);

/// The members of a JSON object whose values are strings: each such
/// value under its key.
pub uninterp spec fn json_strings(value: serde_json::Value) -> Map<Seq<char>, Seq<char>>;

/// The JSON object that has one member for each entry of `hashmap`: the
/// value as a JSON string under the key. Trusted: the body is
/// `serde_json::to_value`, which serialises a map with string keys into
/// an object and each string into a JSON string, and which does not fail
/// on such a map.
#[verifier::external_body]
pub fn hashmap_to_json_value(hashmap: HashMap<String, String>) -> (r: serde_json::Value)
    ensures
        json_strings(r) == hashmap.deep_view(),
{
    serde_json::to_value(hashmap).unwrap_or(serde_json::Value::Object(serde_json::Map::new()))
}

} // verus!
