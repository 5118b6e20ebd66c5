//! Thin trusted shims over `serde_json`, one per question the crate
//! asks of a stored document's text.
//!
//! Every answer serde_json gives depends on the text alone, so each
//! shim's result carries a name (an uninterpreted function of the
//! text) and the loading contracts are stated over those names: what
//! a verified reader returns is tied, key by key, to what the
//! document holds. Each shim parses the text afresh and extracts one
//! value; the documents involved are small configuration files.

use vstd::prelude::*;

verus! {

/// Whether a text parses as a JSON document: the outcome of
/// `serde_json::from_str::<Value>`, which depends on the text alone.
pub uninterp spec fn json_parses(s: Seq<char>) -> bool;

/// Relies on `serde_json::from_str::<Value>`: success depends on the
/// text alone; the error carries serde_json's own message.
#[verifier::external_body]
pub(crate) fn json_check(s: &str) -> (r: Result<(), String>)
    ensures
        (r is Ok) == json_parses(s@),
{
    serde_json::from_str::<serde_json::Value>(s).map(|_| ()).map_err(|e| e.to_string())
}

/// Whether the document's top-level object has this key: the outcome
/// of `from_str` followed by `Value::get` (false for a text that does
/// not parse or does not parse to an object).
pub uninterp spec fn doc_has_key(s: Seq<char>, key: Seq<char>) -> bool;

/// Relies on `serde_json::from_str` and `Value::get`.
#[verifier::external_body]
pub(crate) fn doc_key_present(s: &str, key: &str) -> (r: bool)
    ensures
        r == doc_has_key(s@, key@),
{
    serde_json::from_str::<serde_json::Value>(s)
        .ok()
        .and_then(|v| v.get(key).map(|_| ()))
        .is_some()
}

/// The string under a top-level key, when the document parses, the
/// key is there, and its value is a JSON string: the outcome of
/// `from_str`, `Value::get` and `Value::as_str`.
pub uninterp spec fn doc_string_of(s: Seq<char>, key: Seq<char>) -> Option<Seq<char>>;

/// Relies on `serde_json::from_str`, `Value::get` and `Value::as_str`.
#[verifier::external_body]
pub(crate) fn doc_get_string(s: &str, key: &str) -> (r: Option<String>)
    ensures
        crate::models::opt_string_view(r) == doc_string_of(s@, key@),
{
    serde_json::from_str::<serde_json::Value>(s)
        .ok()
        .and_then(|v| v.get(key).and_then(|x| x.as_str().map(|t| t.to_owned())))
}

/// The boolean under a top-level key, under the same conditions: the
/// outcome of `from_str`, `Value::get` and `Value::as_bool`.
pub uninterp spec fn doc_bool_of(s: Seq<char>, key: Seq<char>) -> Option<bool>;

/// Relies on `serde_json::from_str`, `Value::get` and `Value::as_bool`.
#[verifier::external_body]
pub(crate) fn doc_get_bool(s: &str, key: &str) -> (r: Option<bool>)
    ensures
        r == doc_bool_of(s@, key@),
{
    serde_json::from_str::<serde_json::Value>(s)
        .ok()
        .and_then(|v| v.get(key).and_then(|x| x.as_bool()))
}

/// The textual form of the JSON number under a top-level key: the
/// outcome of `from_str`, `Value::get` and `serde_json::Number`'s
/// `Display`; `None` for any non-number.
pub uninterp spec fn doc_number_text_of(s: Seq<char>, key: Seq<char>) -> Option<Seq<char>>;

/// Relies on `serde_json::from_str`, `Value::get` and
/// `serde_json::Number`'s `Display`.
#[verifier::external_body]
pub(crate) fn doc_get_number_text(s: &str, key: &str) -> (r: Option<String>)
    ensures
        crate::models::opt_string_view(r) == doc_number_text_of(s@, key@),
{
    serde_json::from_str::<serde_json::Value>(s).ok().and_then(
        |v| match v.get(key) {
            Some(serde_json::Value::Number(n)) => Some(n.to_string()),
            _ => None,
        },
    )
}

/// The length of the JSON array under a top-level key; `None` for
/// anything but an array: the outcome of `from_str`, `Value::get`
/// and `Value::as_array`.
pub uninterp spec fn doc_array_len_of(s: Seq<char>, key: Seq<char>) -> Option<usize>;

/// Relies on `serde_json::from_str`, `Value::get` and
/// `Value::as_array`.
#[verifier::external_body]
pub(crate) fn doc_get_array_len(s: &str, key: &str) -> (r: Option<usize>)
    ensures
        r == doc_array_len_of(s@, key@),
{
    serde_json::from_str::<serde_json::Value>(s)
        .ok()
        .and_then(|v| v.get(key).and_then(|x| x.as_array().map(|a| a.len())))
}

/// Element `i` of the array under a top-level key, when it is a JSON
/// string: the outcome of `from_str`, `Value::get`, `Value::as_array`,
/// slice indexing and `Value::as_str`.
pub uninterp spec fn doc_array_string_of(s: Seq<char>, key: Seq<char>, i: int) -> Option<
    Seq<char>,
>;

/// Relies on `serde_json::from_str`, `Value::get`, `Value::as_array`
/// and `Value::as_str`.
#[verifier::external_body]
pub(crate) fn doc_get_array_string(s: &str, key: &str, i: usize) -> (r: Option<String>)
    ensures
        crate::models::opt_string_view(r) == doc_array_string_of(s@, key@, i as int),
{
    serde_json::from_str::<serde_json::Value>(s).ok().and_then(
        |v| {
            v.get(key).and_then(
                |x| x.as_array().and_then(
                    |a| a.get(i).and_then(|e| e.as_str().map(|t| t.to_owned())),
                ),
            )
        },
    )
}

/// Whether the object under a top-level key has this sub-key: the
/// outcome of `from_str` and two `Value::get`s.
pub uninterp spec fn doc_nested_present(s: Seq<char>, key: Seq<char>, sub: Seq<char>) -> bool;

/// Relies on `serde_json::from_str` and `Value::get`.
#[verifier::external_body]
pub(crate) fn doc_nested_key_present(s: &str, key: &str, sub: &str) -> (r: bool)
    ensures
        r == doc_nested_present(s@, key@, sub@),
{
    serde_json::from_str::<serde_json::Value>(s)
        .ok()
        .and_then(|v| v.get(key).and_then(|x| x.get(sub).map(|_| ())))
        .is_some()
}

/// Whether the value under a key's sub-key is JSON `null`: the
/// outcome of `from_str`, two `Value::get`s and `Value::is_null`.
pub uninterp spec fn doc_nested_null(s: Seq<char>, key: Seq<char>, sub: Seq<char>) -> bool;

/// Relies on `serde_json::from_str`, `Value::get` and
/// `Value::is_null`.
#[verifier::external_body]
pub(crate) fn doc_nested_is_null(s: &str, key: &str, sub: &str) -> (r: bool)
    ensures
        r == doc_nested_null(s@, key@, sub@),
{
    serde_json::from_str::<serde_json::Value>(s)
        .ok()
        .and_then(|v| v.get(key).and_then(|x| x.get(sub).map(|e| e.is_null())))
        .unwrap_or(false)
}

/// The non-negative integer under a key's sub-key, when it fits
/// `u64`: the outcome of `from_str`, two `Value::get`s and
/// `Value::as_u64`.
pub uninterp spec fn doc_nested_u64_of(s: Seq<char>, key: Seq<char>, sub: Seq<char>) -> Option<
    u64,
>;

/// Relies on `serde_json::from_str`, `Value::get` and
/// `Value::as_u64`.
#[verifier::external_body]
pub(crate) fn doc_get_nested_u64(s: &str, key: &str, sub: &str) -> (r: Option<u64>)
    ensures
        r == doc_nested_u64_of(s@, key@, sub@),
{
    serde_json::from_str::<serde_json::Value>(s)
        .ok()
        .and_then(|v| v.get(key).and_then(|x| x.get(sub).and_then(|e| e.as_u64())))
}

/// The signed integer under a key's sub-key, when it fits `i64`: the
/// outcome of `from_str`, two `Value::get`s and `Value::as_i64`.
pub uninterp spec fn doc_nested_i64_of(s: Seq<char>, key: Seq<char>, sub: Seq<char>) -> Option<
    i64,
>;

/// Relies on `serde_json::from_str`, `Value::get` and
/// `Value::as_i64`.
#[verifier::external_body]
pub(crate) fn doc_get_nested_i64(s: &str, key: &str, sub: &str) -> (r: Option<i64>)
    ensures
        r == doc_nested_i64_of(s@, key@, sub@),
{
    serde_json::from_str::<serde_json::Value>(s)
        .ok()
        .and_then(|v| v.get(key).and_then(|x| x.get(sub).and_then(|e| e.as_i64())))
}

/// The top-level object's keys, in the order serde_json's map hands
/// them out (its map is ordered by key); `None` when the text does
/// not parse to an object: the outcome of `from_str`,
/// `Value::as_object` and `Map::keys`.
pub uninterp spec fn doc_keys_of(s: Seq<char>) -> Option<Seq<Seq<char>>>;

/// Relies on `serde_json::from_str`, `Value::as_object` and
/// `serde_json::Map::keys`.
#[verifier::external_body]
pub(crate) fn doc_object_keys(s: &str) -> (r: Option<Vec<String>>)
    ensures
        r matches Some(keys) ==> doc_keys_of(s@) == Some(
            keys@.map_values(|x: String| x@),
        ),
        r is None ==> doc_keys_of(s@) is None,
{
    serde_json::from_str::<serde_json::Value>(s)
        .ok()
        .and_then(|v| v.as_object().map(|m| m.keys().cloned().collect()))
}

} // verus!
