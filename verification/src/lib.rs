//! Extraction and injection of command metadata for a documentation corpus.
//!
//! The crate classifies reference source files as command pages, extracts a
//! record of boolean and numeric flags from their text, renders a localized
//! markdown table from such a record, and computes the in-place update of a
//! published documentation page (stripping a previously injected table before
//! appending a fresh one, so that repeated runs do not accumulate tables).
//! All file-system work is left to the surrounding application; the library
//! works on plain strings.

pub mod classify;
pub mod extract;
pub mod inject;
pub mod props;
pub mod render;
pub mod table;
pub mod text;
