//! The store file: TOML with one table per section and one string value per
//! command.

use std::collections::BTreeMap;
use vstd::prelude::*;
use crate::store::{
    table_decoded, table_map, table_valid, table_view, CommandStore, Entry, Section, StoreError,
    StoreMap, TableView,
};

verus! {

#[verifier::external_type_specification]
#[verifier::external_body]
pub struct ExTomlDeError(toml::de::Error);

#[verifier::external_type_specification]
#[verifier::external_body]
pub struct ExTomlSerError(toml::ser::Error);

/// The tables that TOML text holds, read as section name to (command name
/// to string), or `None` where the text is not such a document.
pub uninterp spec fn toml_parsed(text: Seq<char>) -> Option<TableView>;

/// The TOML text that a table is written as, or `None` where it cannot be.
pub uninterp spec fn toml_rendered(t: TableView) -> Option<Seq<char>>;

/// Relies on toml::from_str into a `BTreeMap` of `BTreeMap`s of strings: the
/// outcome depends on the text alone, and the maps hand their keys out in
/// order.
#[verifier::external_body]
fn parse_tables(text: &str) -> (r: Result<Vec<Section>, toml::de::Error>)
    ensures
        match r {
            Ok(t) => toml_parsed(text@) == Some(table_view(t@)),
            Err(_) => toml_parsed(text@) is None,
        },
{
    let m = toml::from_str::<BTreeMap<String, BTreeMap<String, String>>>(text)?;
    Ok(m.into_iter().map(|(name, es)| Section {
        name,
        entries: es.into_iter().map(|(name, command)| Entry { name, command }).collect(),
    }).collect())
}

/// Relies on toml::to_string of a `BTreeMap` of `BTreeMap`s of strings: the
/// outcome depends on the table alone.
#[verifier::external_body]
fn render_tables(t: &Vec<Section>) -> (r: Result<String, toml::ser::Error>)
    ensures
        match r {
            Ok(s) => toml_rendered(table_view(t@)) == Some(s@),
            Err(_) => toml_rendered(table_view(t@)) is None,
        },
{
    let m: BTreeMap<&String, BTreeMap<&String, &String>> = t.iter().map(
        |s| (&s.name, s.entries.iter().map(|e| (&e.name, &e.command)).collect()),
    ).collect();
    toml::to_string(&m)
}

/// What decoding the text of a store file gives.
pub open spec fn decoded(text: Seq<char>) -> Result<StoreMap, StoreError> {
    match toml_parsed(text) {
        Some(t) => table_decoded(t),
        None => Err(StoreError::ParseError),
    }
}

/// Reads a store from the text of its file.
pub fn decode(text: &str) -> (r: Result<CommandStore, StoreError>)
    ensures
        match decoded(text@) {
            Ok(m) => r matches Ok(s) && s.wf() && s@ == m,
            Err(e) => r matches Err(x) && x == e,
        },
{
    match parse_tables(text) {
        Ok(t) => CommandStore::from_table(t),
        Err(_) => Err(StoreError::ParseError),
    }
}

/// Loads the store from the content of its file, `None` where there is no
/// file. A missing file or one that does not parse gives an empty store and
/// the reason as a warning.
pub fn load_comandos(content: Option<&str>) -> (r: (CommandStore, Option<StoreError>))
    ensures
        r.0.wf(),
        match content {
            None => r.0@ == StoreMap::empty() && r.1 == Some(StoreError::FileNotFound),
            Some(text) => match decoded(text@) {
                Ok(m) => r.0@ == m && r.1 is None,
                Err(_) => r.0@ == StoreMap::empty() && r.1 == Some(StoreError::ParseError),
            },
        },
{
    match content {
        None => (CommandStore::new(), Some(StoreError::FileNotFound)),
        Some(text) => match decode(text) {
            Ok(s) => (s, None),
            Err(_) => (CommandStore::new(), Some(StoreError::ParseError)),
        },
    }
}

/// The text that the store file is written with: the store's table in TOML.
/// A table that cannot be written is a write failure.
pub fn save_comandos(store: &CommandStore) -> (r: Result<String, StoreError>)
    requires
        store.wf(),
    ensures
        table_valid(store.table()),
        table_map(store.table()) == store@,
        match toml_rendered(store.table()) {
            Some(text) => r matches Ok(s) && s@ == text,
            None => r == Err::<String, StoreError>(StoreError::WriteFailure),
        },
{
    let t = store.to_table();
    match render_tables(&t) {
        Ok(s) => Ok(s),
        Err(_) => Err(StoreError::WriteFailure),
    }
}

} // verus!
