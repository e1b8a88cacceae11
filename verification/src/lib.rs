//! Cross-repository blame indexing.
//!
//! A "blame" repository is a secondary history whose commits re-annotate the
//! files of a primary repository with line-level authorship metadata.  Each
//! blame commit's message names the primary commit it annotates and,
//! optionally, a revision identifier in a foreign version-control system.
//! This crate decodes those messages and builds, in one linear walk of the
//! blame history, the two lookup tables that tie the histories together:
//! primary commit id to blame commit id, and primary commit id to external
//! revision.

pub mod assoc;
pub mod codec;
pub mod config;
pub mod gitio;
pub mod ids;
pub mod index;
