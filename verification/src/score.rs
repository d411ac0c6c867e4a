//! Classification of CRAP scores.

use vstd::prelude::*;

verus! {

/// Classify a CRAP score against a threshold.
#[derive(Debug, Clone, Copy, PartialEq, Eq, Structural)]
pub enum Severity {
    /// Score is at or below the threshold.
    Clean,
    /// Score exceeds the threshold.
    Crappy,
}

} // verus!
