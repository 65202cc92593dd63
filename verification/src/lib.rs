//! A verified engine that applies source-stanza updates from a package feed
//! to build-manifest documents.
//!
//! The library works on its own model of JSON documents ([`json::Json`]):
//! callers parse files into that model, run the engine, and write the result
//! back.
//!
//! - [`catalog`] reads the feed into indexed update records and looks them
//!   up by package name.
//! - [`resolve`] finds a delta's identifier key (the single key ending in
//!   the reserved suffix).
//! - [`merge`] merges one delta into a source stanza that matches it.
//! - [`updater`] drives a whole manifest: every catalogued module has its
//!   record's deltas merged into its sources.
//! - [`walker`] enumerates candidate manifest files under a root directory,
//!   pruning hidden directories and skipping the feed's own path.

pub mod catalog;
pub mod errors;
pub mod json;
pub mod merge;
pub mod resolve;
pub mod text;
pub mod updater;
pub mod walker;
