//! dimpact: a verified core for diff-driven impact analysis.
//!
//! The library parses unified diffs, extracts symbols and call sites from
//! source text, resolves call sites to symbol-to-symbol reference edges,
//! and walks the resulting graph to compute the set of impacted symbols.

pub mod cache;
pub mod dfg;
pub mod diff;
pub mod engine;
pub mod impact;
pub mod imports;
pub mod ir;
pub mod languages;
pub mod mapping;
pub mod render;
pub mod strutil;
