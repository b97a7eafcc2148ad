//! Members of JSON documents. Nothing in this file is proved: each function
//! states what the `serde_json` crate reads from a document.

use vstd::prelude::*;

verus! {

/// The text of the member `key` of the JSON object written in `doc`, read by
/// `serde_json`. There is none when `doc` is no JSON document, the document
/// is no object, it has no member `key`, or that member is no string.
pub uninterp spec fn json_text_at(doc: Seq<u8>, key: Seq<char>) -> Option<Seq<char>>;

/// The number of the member `key` of the JSON object written in `doc`, read
/// by `serde_json`. There is none when `doc` is no JSON document, the
/// document is no object, it has no member `key`, or that member is no
/// integer between zero and the greatest 64-bit number.
pub uninterp spec fn json_number_at(doc: Seq<u8>, key: Seq<char>) -> Option<u64>;

/// The texts of the member `key` of the JSON object written in `doc`, read by
/// `serde_json`. There are none when `doc` is no JSON document, the document
/// is no object, it has no member `key`, or that member is no array of
/// strings.
pub uninterp spec fn json_texts_at(doc: Seq<u8>, key: Seq<char>) -> Option<Seq<Seq<char>>>;

/// The values of a list of strings.
pub open spec fn texts_of(list: Seq<String>) -> Seq<Seq<char>> {
    list.map_values(|s: String| s@)
}

/// `serde_json::from_slice` to a `Value`, then `Value::get` and
/// `Value::as_str`: the string member `key` of the document.
#[verifier::external_body]
pub(crate) fn json_text_field(doc: &[u8], key: &str) -> (r: Option<String>)
    ensures
        r matches Some(text) ==> json_text_at(doc@, key@) == Some(text@),
        r is None ==> json_text_at(doc@, key@) is None,
{
    let value: serde_json::Value = serde_json::from_slice(doc).ok()?;
    match value.get(key)?.as_str() {
        Some(text) => Some(text.to_string()),
        None => None,
    }
}

/// `serde_json::from_slice` to a `Value`, then `Value::get` and
/// `Value::as_u64`: the unsigned integer member `key` of the document.
#[verifier::external_body]
pub(crate) fn json_number_field(doc: &[u8], key: &str) -> (r: Option<u64>)
    ensures
        r == json_number_at(doc@, key@),
{
    let value: serde_json::Value = serde_json::from_slice(doc).ok()?;
    value.get(key)?.as_u64()
}

/// `serde_json::from_slice` to a `Value`, then `Value::get`,
/// `Value::as_array` and `Value::as_str` on each element: the member `key` of
/// the document as a list of strings.
#[verifier::external_body]
pub(crate) fn json_texts_field(doc: &[u8], key: &str) -> (r: Option<Vec<String>>)
    ensures
        r matches Some(texts) ==> json_texts_at(doc@, key@) == Some(texts_of(texts@)),
        r is None ==> json_texts_at(doc@, key@) is None,
{
    let value: serde_json::Value = serde_json::from_slice(doc).ok()?;
    let mut texts: Vec<String> = Vec::new();
    for item in value.get(key)?.as_array()? {
        texts.push(item.as_str()?.to_string());
    }
    Some(texts)
}

} // verus!
