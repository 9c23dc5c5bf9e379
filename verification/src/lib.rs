//! Consolidation of remote blocklist sources into a single deduplicated
//! hosts-format blocklist: source-list parsing, per-line domain
//! extraction, deduplication, and rendering of the output file.

pub mod blocklist;
pub mod extract;
pub mod sources;
pub mod text;
