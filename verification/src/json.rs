//! The JSON text of the stored file, read and written by `serde_json`.
//!
//! The file is one JSON object. Each of its fields holds an object that maps
//! directory paths to objects that map keys to string values. Here such a
//! file is a sequence of fields, each a name with its directories, each of
//! those a path with its pairs.

use std::collections::BTreeMap;
use vstd::prelude::*;

verus! {

/// What `serde_json::from_str` makes of a text when it is asked for an
/// object of objects of objects of strings: `None` where it reports an
/// error, else the fields it read, at each level ordered by name and each
/// name once.
pub uninterp spec fn json_decoded(text: Seq<char>) -> Option<
    Seq<(Seq<char>, Seq<(Seq<char>, Seq<(Seq<char>, Seq<char>)>)>)>,
>;

/// The text that `serde_json::to_string` writes for the fields when they are
/// handed to it as ordered maps, or `None` where it reports an error.
pub uninterp spec fn json_encoded(
    fields: Seq<(Seq<char>, Seq<(Seq<char>, Seq<(Seq<char>, Seq<char>)>)>)>,
) -> Option<Seq<char>>;

/// Calls `serde_json::from_str` for a `BTreeMap` of `BTreeMap`s of
/// `BTreeMap`s from `String` to `String` and hands the maps back as vectors
/// of pairs. Nothing is claimed of the result but that the text determines
/// it.
#[verifier::external_body]
pub(crate) fn decode(text: &str) -> (fields: Option<
    Vec<(String, Vec<(String, Vec<(String, String)>)>)>,
>)
    ensures
        fields.deep_view() == json_decoded(text@),
{
    let parsed: Result<BTreeMap<String, BTreeMap<String, BTreeMap<String, String>>>, _> =
        serde_json::from_str(text);
    match parsed {
        Ok(fields) => Some(
            fields.into_iter().map(|(name, scopes)| {
                (name, scopes.into_iter().map(|(dir, pairs)| (dir, pairs.into_iter().collect())).collect())
            }).collect(),
        ),
        Err(_) => None,
    }
}

/// Collects the fields into `BTreeMap`s and calls `serde_json::to_string` on
/// them. Nothing is claimed of the result but that the fields determine it.
#[verifier::external_body]
pub(crate) fn encode(fields: &Vec<(String, Vec<(String, Vec<(String, String)>)>)>) -> (text:
    Option<String>)
    ensures
        text.deep_view() == json_encoded(fields.deep_view()),
{
    let object: BTreeMap<&String, BTreeMap<&String, BTreeMap<&String, &String>>> =
        fields.iter().map(|(name, scopes)| {
            (name, scopes.iter().map(|(dir, pairs)| {
                (dir, pairs.iter().map(|(key, value)| (key, value)).collect())
            }).collect())
        }).collect();
    serde_json::to_string(&object).ok()
}

} // verus!
