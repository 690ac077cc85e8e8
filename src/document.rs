use vstd::prelude::*;
use std::collections::BTreeMap;
use crate::ledger::pairs;

verus! {

/// The JSON document that `serde_json::to_string` writes for a map holding these entries.
pub uninterp spec fn ledger_json(entries: Seq<(Seq<char>, u32)>) -> Seq<char>;

/// The entries that `serde_json::from_str` reads from a document as a map
/// from glyph to count, ordered by glyph, or `None` where it is no such map.
pub uninterp spec fn ledger_from_json(text: Seq<char>) -> Option<Seq<(Seq<char>, u32)>>;

/// The entries of a parsed ledger document.
pub open spec fn parsed_view(r: Option<Vec<(String, u32)>>) -> Option<Seq<(Seq<char>, u32)>> {
    match r {
        Some(v) => Some(pairs(v@)),
        None => None,
    }
}

/// Relies on `serde_json::to_string` on a `BTreeMap<&str, u32>`: the document
/// depends on the entries alone; serialization fails only for maps whose keys
/// are not strings, and an empty map is written as `{}`.
#[verifier::external_body]
pub(crate) fn write_ledger_json(entries: &Vec<(String, u32)>) -> (r: String)
    ensures
        r@ == ledger_json(pairs(entries@)),
        r@ == "{}"@ || entries@.len() > 0,
{
    let map: BTreeMap<&str, u32> = entries.iter().map(|e| (e.0.as_str(), e.1)).collect();
    serde_json::to_string(&map).unwrap_or_default()
}

/// Relies on `serde_json::from_str` into a `BTreeMap<String, u32>`: the result
/// depends on the text alone.
#[verifier::external_body]
pub(crate) fn read_ledger_json(text: &str) -> (r: Option<Vec<(String, u32)>>)
    ensures
        parsed_view(r) == ledger_from_json(text@),
{
    serde_json::from_str::<BTreeMap<String, u32>>(text).ok().map(|m| m.into_iter().collect())
}

} // verus!
