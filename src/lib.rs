//! Lookup of programming-language metadata by name, alias, file extension
//! or editor mode, over indices built once from a dataset of records.
//!
//! A dataset lists its records in ascending ordinal order of canonical
//! name, and they are processed in that order. On a key that several records
//! claim, the name index keeps the first claim; the extension index keeps
//! the first claim by a record whose name or alias equals the extension, or
//! else the first claim; the mode index keeps the first claim by a record
//! whose lowercased name equals the mode, or else the first claim.

mod builder;
mod index;
mod language;
mod languages;
mod laws;
mod text;

pub use index::{first_claim, winner, Claim};
pub use language::{
    aliases_of, all_claims, claims_of, extension_key, extensions_of, ids_distinct,
    names_distinct, names_sorted, owns_key, Language, Lookup,
};
pub use languages::{
    answers, from_codemirror_mode, from_extension, from_name, lookup, DatasetError, Languages,
};
pub use laws::{
    lemma_build_deterministic, lemma_extension_prefers_owner, lemma_mode_prefers_name_match,
    lemma_name_lookup_ignores_case,
};
pub use text::{
    ascii_fold, bytes_precede, lower_of, name_precedes, precedes, same_ignoring_ascii_case, strip_dot,
};
