//! Reading values out of JSON text. serde_json parses; each reader here
//! parses the text it is given and follows object keys from the top.
use vstd::prelude::*;

verus! {

/// The keys of a path, as text.
pub open spec fn key_path(path: Seq<&str>) -> Seq<Seq<char>> {
    path.map_values(|k: &str| k@)
}

/// Whether serde_json accepts the text as JSON.
pub uninterp spec fn json_parses(text: Seq<char>) -> bool;

/// Whether following the keys from the top of the parsed text reaches a value.
pub uninterp spec fn json_has(text: Seq<char>, path: Seq<Seq<char>>) -> bool;

/// The string reached by following the keys, if the text parses and a string is there.
pub uninterp spec fn json_string_at(text: Seq<char>, path: Seq<Seq<char>>) -> Option<Seq<char>>;

/// The length of the array reached by following the keys.
pub uninterp spec fn json_array_len(text: Seq<char>, path: Seq<Seq<char>>) -> Option<nat>;

/// The string under `key` in item `index` of the array reached by following the keys.
pub uninterp spec fn json_item_string(text: Seq<char>, path: Seq<Seq<char>>, index: nat, key: Seq<char>) -> Option<Seq<char>>;

/// The view of an optional string.
pub open spec fn opt_view(o: Option<String>) -> Option<Seq<char>> {
    match o {
        Some(s) => Some(s@),
        None => None,
    }
}

/// Relies on `serde_json::from_str::<Value>`: whether the text is JSON.
#[verifier::external_body]
pub fn parses(text: &str) -> (r: bool)
    ensures
        r == json_parses(text@),
{
    serde_json::from_str::<serde_json::Value>(text).is_ok()
}

/// Relies on `serde_json::from_str::<Value>` and `Value::get`: whether the keys lead to a value.
#[verifier::external_body]
pub fn has(text: &str, path: &[&str]) -> (r: bool)
    ensures
        r == json_has(text@, key_path(path@)),
{
    let v: serde_json::Value = match serde_json::from_str(text) {
        Ok(v) => v,
        Err(_) => return false,
    };
    let mut cur = &v;
    for k in path {
        match cur.get(*k) {
            Some(n) => cur = n,
            None => return false,
        }
    }
    true
}

/// Relies on `serde_json::from_str::<Value>`, `Value::get` and `Value::as_str`:
/// the string the keys lead to.
#[verifier::external_body]
pub fn string_at(text: &str, path: &[&str]) -> (r: Option<String>)
    ensures
        opt_view(r) == json_string_at(text@, key_path(path@)),
{
    let v: serde_json::Value = serde_json::from_str(text).ok()?;
    let mut cur = &v;
    for k in path {
        cur = cur.get(*k)?;
    }
    cur.as_str().map(|s| s.to_string())
}

/// Relies on `serde_json::from_str::<Value>`, `Value::get` and `Value::as_array`:
/// the length of the array the keys lead to.
#[verifier::external_body]
pub fn array_len(text: &str, path: &[&str]) -> (r: Option<usize>)
    ensures
        match r {
            Some(n) => json_array_len(text@, key_path(path@)) == Some(n as nat),
            None => json_array_len(text@, key_path(path@)).is_none(),
        },
{
    let v: serde_json::Value = serde_json::from_str(text).ok()?;
    let mut cur = &v;
    for k in path {
        cur = cur.get(*k)?;
    }
    cur.as_array().map(|a| a.len())
}

/// Relies on `serde_json::from_str::<Value>`, `Value::get`, `Value::as_array`
/// and `Value::as_str`: the string under `key` in one item of an array.
#[verifier::external_body]
pub fn item_string(text: &str, path: &[&str], index: usize, key: &str) -> (r: Option<String>)
    ensures
        opt_view(r) == json_item_string(text@, key_path(path@), index as nat, key@),
{
    let v: serde_json::Value = serde_json::from_str(text).ok()?;
    let mut cur = &v;
    for k in path {
        cur = cur.get(*k)?;
    }
    cur.as_array()?.get(index)?.get(key)?.as_str().map(|s| s.to_string())
}

} // verus!
