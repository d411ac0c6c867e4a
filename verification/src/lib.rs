//! Verified core of `cargo-crap`: path matching between analyzed sources and
//! LCOV records, baseline pairing, identity filters, workspace member scope,
//! structural fingerprints for duplicate detection, and the text building
//! blocks of the report renderers.

pub mod text;
pub mod paths;
pub mod duplicates;
pub mod merge;
pub mod workspace;
pub mod filters;
pub mod delta;
pub mod report;
pub mod score;
