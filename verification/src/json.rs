//! JSON documents as text: what stands where.
//!
//! A place in a document is named by a JSON pointer such as `/params/name`.

use vstd::prelude::*;

use crate::text::{opt_text, texts};

verus! {

/// Whether `serde_json::from_str` reads a text as a document.
pub uninterp spec fn json_valid(doc: Seq<char>) -> bool;

/// The string that stands at a place in a document.
pub uninterp spec fn json_text(doc: Seq<char>, pointer: Seq<char>) -> Option<Seq<char>>;

/// The whole number from zero up that stands at a place in a document.
pub uninterp spec fn json_number(doc: Seq<char>, pointer: Seq<char>) -> Option<u64>;

/// What stands at a place in a document, as a document of its own.
pub uninterp spec fn json_part(doc: Seq<char>, pointer: Seq<char>) -> Option<Seq<char>>;

/// The items of the array that stands at a place in a document.
pub uninterp spec fn json_items(doc: Seq<char>, pointer: Seq<char>) -> Option<Seq<Seq<char>>>;

/// The entries of the object that stands at a place in a document: each key
/// with its value where that is a string.
pub uninterp spec fn json_entries(doc: Seq<char>, pointer: Seq<char>) -> Option<
    Seq<(Seq<char>, Option<Seq<char>>)>,
>;

/// The views of entries.
pub open spec fn entries_view(v: Option<Vec<(String, Option<String>)>>) -> Option<
    Seq<(Seq<char>, Option<Seq<char>>)>,
> {
    match v {
        Some(e) => Some(e@.map_values(|p: (String, Option<String>)| (p.0@, opt_text(p.1)))),
        None => None,
    }
}

/// The views of optional items.
pub open spec fn items_view(v: Option<Vec<String>>) -> Option<Seq<Seq<char>>> {
    match v {
        Some(i) => Some(texts(i@)),
        None => None,
    }
}

/// Calls `serde_json::from_str` and says whether there is a document. Which
/// texts are documents is left to the crate.
#[verifier::external_body]
pub(crate) fn is_document(doc: &str) -> (r: bool)
    ensures
        r == json_valid(doc@),
{
    serde_json::from_str::<serde_json::Value>(doc).is_ok()
}

/// Calls `serde_json::from_str`, `Value::pointer` and `Value::as_str`: the
/// string at a place in a document, where there is a document, a value at that
/// place, and it is a string.
#[verifier::external_body]
pub(crate) fn text_at(doc: &str, pointer: &str) -> (r: Option<String>)
    ensures
        opt_text(r) == json_text(doc@, pointer@),
        r is Some ==> json_valid(doc@),
{
    let value = serde_json::from_str::<serde_json::Value>(doc).ok()?;
    Some(value.pointer(pointer)?.as_str()?.to_string())
}

/// Calls `serde_json::from_str`, `Value::pointer` and `Value::as_u64`: the
/// number at a place in a document, where there is one and it is a whole number
/// from zero up.
#[verifier::external_body]
pub(crate) fn number_at(doc: &str, pointer: &str) -> (r: Option<u64>)
    ensures
        r == json_number(doc@, pointer@),
        r is Some ==> json_valid(doc@),
{
    let value = serde_json::from_str::<serde_json::Value>(doc).ok()?;
    value.pointer(pointer)?.as_u64()
}

/// Calls `serde_json::from_str`, `Value::pointer` and the `Display` of `Value`:
/// what stands at a place in a document, written out as a document again.
#[verifier::external_body]
pub(crate) fn part_at(doc: &str, pointer: &str) -> (r: Option<String>)
    ensures
        opt_text(r) == json_part(doc@, pointer@),
        r is Some ==> json_valid(doc@),
{
    let value = serde_json::from_str::<serde_json::Value>(doc).ok()?;
    Some(value.pointer(pointer)?.to_string())
}

/// Calls `serde_json::from_str`, `Value::pointer` and `Value::as_array`: the
/// items of the array at a place in a document, each written out as a document
/// of its own, in their order.
#[verifier::external_body]
pub(crate) fn items_at(doc: &str, pointer: &str) -> (r: Option<Vec<String>>)
    ensures
        items_view(r) == json_items(doc@, pointer@),
        r is Some ==> json_valid(doc@),
{
    let value = serde_json::from_str::<serde_json::Value>(doc).ok()?;
    let items = value.pointer(pointer)?.as_array()?;
    Some(items.iter().map(|v| v.to_string()).collect())
}

/// Calls `serde_json::from_str`, `Value::pointer` and `Value::as_object`: the
/// entries of the object at a place in a document, in the order in which the
/// crate walks them, each value where it is a string.
#[verifier::external_body]
pub(crate) fn entries_at(doc: &str, pointer: &str) -> (r: Option<Vec<(String, Option<String>)>>)
    ensures
        entries_view(r) == json_entries(doc@, pointer@),
        r is Some ==> json_valid(doc@),
{
    let value = serde_json::from_str::<serde_json::Value>(doc).ok()?;
    let object = value.pointer(pointer)?.as_object()?;
    Some(object.iter().map(|(k, v)| (k.clone(), v.as_str().map(String::from))).collect())
}

} // verus!
