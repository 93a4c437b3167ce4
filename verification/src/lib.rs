//! Verified selection-and-aggregation engine for directory summaries.
//!
//! The library decides which entries of a directory tree are kept by a
//! [`rules::RuleSet`], renders the kept structure as an indented tree,
//! collects the kept files in a deterministic order, turns file bytes into
//! embeddable text with an encoding fallback, and composes everything into
//! one flat document.  Reading the filesystem itself is left to the caller,
//! who hands the library an in-memory [`fsnode::FsNode`] value.

pub mod aggregate;
pub mod collect;
pub mod extract;
pub mod filter;
pub mod fsnode;
pub mod laws;
pub mod rules;
pub mod strutil;
pub mod tree;
