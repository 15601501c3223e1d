//! A personal command reference: shell snippets grouped into named sections,
//! kept as a TOML file, with helpers for the cheat-sheet and registry lookups.

pub mod pairs;
pub mod store;
pub mod codec;
pub mod lookup;
pub mod laws;
