//! JSON text for a set of named tables, each a map from text to text. The
//! encoding and decoding of JSON itself is serde_json's.
use vstd::prelude::*;

use std::collections::BTreeMap;

use serde_json::value::RawValue;

use crate::text_map::{distinct_keys, entries_map};

verus! {

#[verifier::external_type_specification]
#[verifier::external_body]
pub struct ExJsonError(serde_json::Error);

/// Why a text could not be read as a describer.
#[derive(Debug)]
pub enum DeserializeError {
    /// The text is not a JSON object, or a member that the describer reads is not
    /// an object of strings.
    Malformed(serde_json::Error),
    /// The object lacks the member of this name.
    MissingField(String),
}

/// Why a describer could not be written as JSON.
#[derive(Debug)]
pub struct SerializeError {
    pub cause: serde_json::Error,
}

/// The members that serde_json reads from `text`, a JSON object: each member's name
/// with the JSON text of its value; `None` when `text` is not a JSON object.
pub uninterp spec fn json_members(text: Seq<char>) -> Option<Map<Seq<char>, Seq<char>>>;

/// The table that serde_json reads from `text`, a JSON object whose members are
/// strings; `None` when `text` is not such an object.
pub uninterp spec fn json_string_table(text: Seq<char>) -> Option<Map<Seq<char>, Seq<char>>>;

/// `text` is a JSON object with a member for each of `tables`, and nothing else,
/// and each member's value reads as that table.
pub open spec fn reads_back(text: Seq<char>, tables: Map<Seq<char>, Map<Seq<char>, Seq<char>>>) -> bool {
    match json_members(text) {
        Some(members) => members.dom() == tables.dom() && forall|name: Seq<char>|
            #[trigger] tables.contains_key(name) ==> json_string_table(members[name]) == Some(
                tables[name],
            ),
        None => false,
    }
}

/// The tables that a list of named entry lists stands for: later names win over
/// earlier ones.
pub open spec fn tables_map(s: Seq<(String, Vec<(String, String)>)>) -> Map<
    Seq<char>,
    Map<Seq<char>, Seq<char>>,
>
    decreases s.len(),
{
    if s.len() == 0 {
        Map::empty()
    } else {
        tables_map(s.drop_last()).insert(s.last().0@, entries_map(s.last().1@))
    }
}

/// No two tables share a name, and no table has two entries with one key.
pub open spec fn well_keyed(s: Seq<(String, Vec<(String, String)>)>) -> bool {
    &&& forall|i: int, j: int|
        0 <= i < s.len() && 0 <= j < s.len() && i != j ==> s[i].0@ != s[j].0@
    &&& forall|i: int| 0 <= i < s.len() ==> #[trigger] distinct_keys(s[i].1@)
}

/// Reads the members of the JSON object `text`, each with the JSON text of its value.
/// Relies on `serde_json::from_str` into a `BTreeMap` of `RawValue`s: it succeeds
/// exactly when `text` is a JSON object, and a map has no two equal keys.
#[verifier::external_body]
pub(crate) fn read_members(text: &str) -> (r: Result<Vec<(String, String)>, serde_json::Error>)
    ensures
        match r {
            Ok(members) => json_members(text@) == Some(entries_map(members@)) && distinct_keys(members@),
            Err(_) => json_members(text@) is None,
        },
{
    let members = serde_json::from_str::<BTreeMap<String, Box<RawValue>>>(text)?;
    Ok(members.into_iter().map(|(name, value)| (name, value.get().to_string())).collect())
}

/// Reads a JSON object of strings.
/// Relies on `serde_json::from_str` into a `BTreeMap` of strings: it succeeds exactly
/// when `text` is a JSON object whose members are strings, and a map has no two
/// equal keys.
#[verifier::external_body]
pub(crate) fn read_string_table(text: &str) -> (r: Result<Vec<(String, String)>, serde_json::Error>)
    ensures
        match r {
            Ok(table) => json_string_table(text@) == Some(entries_map(table@)) && distinct_keys(table@),
            Err(_) => json_string_table(text@) is None,
        },
{
    let table = serde_json::from_str::<BTreeMap<String, String>>(text)?;
    Ok(table.into_iter().collect())
}

/// Writes named tables as compact JSON.
/// Relies on `serde_json::to_string` on a `BTreeMap` of `BTreeMap`s of strings. It
/// fails only where a `Serialize` impl fails or a map key is not a string, which
/// cannot happen here. Its formatter writes no line break, and escapes the line
/// breaks within strings. What it writes, `serde_json::from_str` reads back as the
/// same maps.
#[verifier::external_body]
pub(crate) fn write_tables(tables: &Vec<(String, Vec<(String, String)>)>) -> (r: Result<String, serde_json::Error>)
    requires
        well_keyed(tables@),
    ensures
        r is Ok,
        r matches Ok(text) ==> reads_back(text@, tables_map(tables@)) && !text@.contains('\n'),
{
    let maps: BTreeMap<&str, BTreeMap<&str, &str>> = tables.iter().map(
        |(name, table)| (name.as_str(), table.iter().map(|(k, v)| (k.as_str(), v.as_str())).collect()),
    ).collect();
    serde_json::to_string(&maps)
}

/// Writes named tables as indented JSON.
/// Relies on `serde_json::to_string_pretty` on a `BTreeMap` of `BTreeMap`s of
/// strings. It fails only where a `Serialize` impl fails or a map key is not a
/// string, which cannot happen here. Its formatter starts each member of a
/// non-empty object on a new line. What it writes, `serde_json::from_str` reads
/// back as the same maps.
#[verifier::external_body]
pub(crate) fn write_tables_pretty(tables: &Vec<(String, Vec<(String, String)>)>) -> (r: Result<String, serde_json::Error>)
    requires
        well_keyed(tables@),
    ensures
        r is Ok,
        r matches Ok(text) ==> reads_back(text@, tables_map(tables@)) && (tables@.len() > 0
            ==> text@.contains('\n')),
{
    let maps: BTreeMap<&str, BTreeMap<&str, &str>> = tables.iter().map(
        |(name, table)| (name.as_str(), table.iter().map(|(k, v)| (k.as_str(), v.as_str())).collect()),
    ).collect();
    serde_json::to_string_pretty(&maps)
}

} // verus!
