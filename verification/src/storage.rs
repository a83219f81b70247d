//! What the store is told when slots move to the past.
use vstd::prelude::*;
use crate::text::{decimal, join};

verus! {

/// An error of `serde_json`.
#[verifier::external_type_specification]
#[verifier::external_body]
pub struct ExJsonError(serde_json::Error);

/// Ids in decimal.
pub open spec fn decimals(ids: Seq<i64>) -> Seq<Seq<char>> {
    Seq::new(ids.len(), |i: int| decimal(ids[i] as int))
}

/// Ids as a JSON array.
pub open spec fn json_array(ids: Seq<i64>) -> Seq<char> {
    "["@ + join(decimals(ids), ","@) + "]"@
}

/// `serde_json::to_string` writes a list of integers as an array in square brackets, the integers in
/// decimal with a comma between each two and no white space. Writing integers to a string does not
/// fail.
#[verifier::external_body]
fn to_json(ids: &Vec<i64>) -> (json: Result<String, serde_json::Error>)
    ensures
        json is Ok,
        json->Ok_0@ == json_array(ids@),
{
    serde_json::to_string(ids)
}

/// The ids of slots that are looked up or moved, as the JSON array that the store takes them in.
pub fn ids_parameter(ids: &Vec<i64>) -> (json: String)
    ensures
        json@ == json_array(ids@),
{
    to_json(ids).unwrap()
}

} // verus!
