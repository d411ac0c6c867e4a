//! Structural duplicate detection: normalized syntax trees, their
//! fingerprints, and the similarity of two functions' fingerprint sets.

pub mod normalize;
pub mod syntax;
pub mod fingerprint;
pub mod extract;
pub mod compare;
