//! A content security engine for free-text commentary.
//!
//! Given a nested document, the engine finds every string leaf that lies
//! below a commentary field, runs it through a fixed pipeline that
//! normalizes it, strips dangerous characters, scores it against a table of
//! detection rules, redacts it with a table of rewrite rules and blocks it
//! where the evidence suffices, and reports on each field.
//!
//! The modules, leaves first:
//!
//! - `config`: the fixed limits and tokens;
//! - `chars`, `text`, `scrub`: character classes, text comparison and
//!   search, and the character-level scrubbing stages;
//! - `normalize`, `pattern`: Unicode normalization and regular expressions,
//!   which are delegated to outside crates;
//! - `rules`, `standard`: rule tables, and the built-in one;
//! - `tags`, `sanitizer`: sorted reason tags, and the pipeline for one text;
//! - `document`, `fields`, `walker`: document trees, field names and paths,
//!   and the walk that sanitizes a document in place;
//! - `summary`: counts per document and totals per corpus;
//! - `export`, `paths`, `listing`: which documents are exported, where to,
//!   and under which names;
//! - `integers`, `firestore`: decoding of the wire encoding of a document
//!   store.

pub mod chars;
pub mod config;
pub mod document;
pub mod export;
pub mod fields;
pub mod firestore;
pub mod integers;
pub mod listing;
pub mod normalize;
pub mod paths;
pub mod pattern;
pub mod rules;
pub mod sanitizer;
pub mod scrub;
pub mod standard;
pub mod summary;
pub mod tags;
pub mod text;
pub mod walker;
