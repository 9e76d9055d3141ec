//! Diagnostics engine for a vault of interlinked plain-text notes.
//!
//! The crate inspects the parsed structure of each note — its headings and
//! its inline references to other notes — and reports duplicate titles,
//! duplicate headings, and broken internal links.  A per-file collection
//! caches the latest diagnostic set, and a publish adapter turns a cached
//! set plus a text-position index into a client-ready report.

pub mod collection;
pub mod diag;
pub mod facts;
pub mod laws;
pub mod model;
pub mod publish;
pub mod rules;
pub mod text;
