//! Audits a localization catalog against the source tree that consumes it.
//!
//! The library scans source text for dotted references to resource keys,
//! collects them into one set of used keys, and reconciles reference keys
//! and locale catalogs against that set and against each other.

pub mod catalog;
pub mod document;
pub mod extract;
pub mod keyset;
pub mod nesting;
pub mod reconcile;
pub mod report;
pub mod text;
pub mod usage;
