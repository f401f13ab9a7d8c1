//! Reading values out of JSON text (`serde_json`).
//!
//! Each reader parses a whole document and hands back plain values; what
//! they return is named by a specification function of the text, since
//! parsing JSON takes far more than a few lines to state.

use vstd::prelude::*;
use crate::keyed::unique_keys;

verus! {

/// The string-to-string object that `text` holds, entries in key order, or
/// `None` when `text` is not such an object.
pub uninterp spec fn json_string_map(text: Seq<char>) -> Option<Seq<(Seq<char>, Seq<char>)>>;

/// The string member `field` of the object that `text` holds, if `text`
/// parses and that member exists and is a string.
pub uninterp spec fn json_str_member(text: Seq<char>, field: Seq<char>) -> Option<Seq<char>>;

/// The boolean member `field` of the object that `text` holds, if `text`
/// parses and that member exists and is a boolean.
pub uninterp spec fn json_bool_member(text: Seq<char>, field: Seq<char>) -> Option<bool>;

/// For the array member `field` of the object that `text` holds, each
/// element as an unsigned 64-bit integer where it is one; `None` when `text`
/// does not parse or has no such array.
pub uninterp spec fn json_u64_items(text: Seq<char>, field: Seq<char>) -> Option<Seq<Option<u64>>>;

/// The JSON document that `text` holds, written back in compact form, or
/// `None` when `text` is not JSON.
pub uninterp spec fn json_value_text(text: Seq<char>) -> Option<Seq<char>>;

/// The views of a list of string pairs.
pub open spec fn pair_views(v: Seq<(String, String)>) -> Seq<(Seq<char>, Seq<char>)> {
    v.map_values(|e: (String, String)| (e.0@, e.1@))
}

/// Parses `text` as a JSON object of strings (`serde_json::from_str` into a
/// `BTreeMap<String, String>`). The result is named by `json_string_map`;
/// the keys of a map are distinct.
#[verifier::external_body]
pub(crate) fn parse_string_map(text: &str) -> (r: Option<Vec<(String, String)>>)
    ensures
        match r {
            Some(v) => json_string_map(text@) == Some(pair_views(v@)) && unique_keys(v@),
            None => json_string_map(text@) is None,
        },
{
    serde_json::from_str::<std::collections::BTreeMap<String, String>>(text).ok().map(|m| m.into_iter().collect())
}

/// `serde_json::from_str` into a `Value`, then `get(field)` and `as_str`.
#[verifier::external_body]
pub(crate) fn str_member(text: &str, field: &str) -> (r: Option<String>)
    ensures
        match r {
            Some(s) => json_str_member(text@, field@) == Some(s@),
            None => json_str_member(text@, field@) is None,
        },
{
    let value = serde_json::from_str::<serde_json::Value>(text).ok()?;
    value.get(field)?.as_str().map(|s| s.to_string())
}

/// `serde_json::from_str` into a `Value`, then `get(field)` and `as_bool`.
#[verifier::external_body]
pub(crate) fn bool_member(text: &str, field: &str) -> (r: Option<bool>)
    ensures
        r == json_bool_member(text@, field@),
{
    let value = serde_json::from_str::<serde_json::Value>(text).ok()?;
    value.get(field)?.as_bool()
}

/// `serde_json::from_str` into a `Value`, then `get(field)`, `as_array`, and
/// `as_u64` of each element.
#[verifier::external_body]
pub(crate) fn u64_items(text: &str, field: &str) -> (r: Option<Vec<Option<u64>>>)
    ensures
        match r {
            Some(v) => json_u64_items(text@, field@) == Some(v@),
            None => json_u64_items(text@, field@) is None,
        },
{
    let value = serde_json::from_str::<serde_json::Value>(text).ok()?;
    let items = value.get(field)?.as_array()?;
    Some(items.iter().map(serde_json::Value::as_u64).collect())
}

/// `serde_json::from_str` into a `Value`, then `to_string`. The result is
/// named by `json_value_text`.
#[verifier::external_body]
pub(crate) fn json_value(text: &str) -> (r: Option<String>)
    ensures
        match r {
            Some(s) => json_value_text(text@) == Some(s@),
            None => json_value_text(text@) is None,
        },
{
    serde_json::from_str::<serde_json::Value>(text).ok().map(|v| v.to_string())
}

} // verus!
