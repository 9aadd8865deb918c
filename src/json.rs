//! What the library takes from serde_json: whether a text is JSON, and the
//! JSON encoding of strings.

use vstd::prelude::*;

verus! {

/// Whether serde_json accepts the characters as one complete JSON value.
pub uninterp spec fn is_json_text(s: Seq<char>) -> bool;

/// Whether serde_json accepts the characters as one JSON array.
pub uninterp spec fn is_json_array_text(s: Seq<char>) -> bool;

/// The JSON string literal that serde_json writes for the characters.
pub uninterp spec fn json_of_string(s: Seq<char>) -> Seq<char>;

/// The texts joined by commas.
pub open spec fn comma_joined(items: Seq<Seq<char>>) -> Seq<char>
    decreases items.len(),
{
    if items.len() == 0 {
        Seq::empty()
    } else if items.len() == 1 {
        items[0]
    } else {
        comma_joined(items.drop_last()) + ","@ + items.last()
    }
}

/// The compact JSON array of string literals that serde_json writes for a
/// list of strings: `[`, the literals joined by commas, `]`.
pub open spec fn json_of_strings(items: Seq<Seq<char>>) -> Seq<char> {
    "["@ + comma_joined(items.map_values(|s: Seq<char>| json_of_string(s))) + "]"@
}

pub open spec fn views_of(items: Seq<String>) -> Seq<Seq<char>> {
    items.map_values(|s: String| s@)
}

/// Relies on `serde_json::from_str::<serde_json::Value>`: it succeeds exactly
/// on the texts that hold one JSON value.
#[verifier::external_body]
pub(crate) fn parses_as_json(s: &str) -> (r: bool)
    ensures
        r == is_json_text(s@),
{
    serde_json::from_str::<serde_json::Value>(s).is_ok()
}

/// Relies on `serde_json::from_str::<Vec<serde_json::Value>>`: it succeeds
/// exactly on the texts that hold one JSON array.
#[verifier::external_body]
pub(crate) fn parses_as_json_array(s: &str) -> (r: bool)
    ensures
        r == is_json_array_text(s@),
{
    serde_json::from_str::<Vec<serde_json::Value>>(s).is_ok()
}

/// Relies on `serde_json::to_string` on a `str`: the quoted and escaped JSON
/// string literal.
#[verifier::external_body]
pub(crate) fn encode_string(s: &str) -> (r: String)
    ensures
        r@ == json_of_string(s@),
{
    serde_json::to_string(s).unwrap_or_default()
}

/// Relies on `serde_json::to_string` on a `Vec<String>`: the compact JSON
/// array of the quoted strings (a sequence is written as `[`, its elements
/// separated by `,`, then `]`).
#[verifier::external_body]
pub(crate) fn encode_strings(items: &Vec<String>) -> (r: String)
    ensures
        r@ == json_of_strings(views_of(items@)),
{
    serde_json::to_string(items).unwrap_or_default()
}

} // verus!
