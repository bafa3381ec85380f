//! Parsing structured metadata out of RPG Maker `note` fields.
//!
//! [`tokens`] provides the low-level [`NoteTokens`](tokens::NoteTokens)
//! tokenizer for the `<tag:value>` convention; [`registry`] turns tokens into
//! typed metadata; [`cache`] keeps the parsed metadata per record.
pub mod cache;
pub mod registry;
pub mod tokens;
