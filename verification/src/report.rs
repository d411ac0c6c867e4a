//! The renderer-independent parts of report output: source links,
//! Location-cell layout, and the fixed text blocks every markdown-style
//! renderer shares.

use vstd::prelude::*;

pub mod links;
pub mod layout;
pub mod sections;
pub mod rollup;

pub use links::SourceLinks;

verus! {

/// Output format for the report.
#[derive(Debug, Clone, Copy, PartialEq, Eq, Structural)]
pub enum Format {
    Human,
    Json,
    /// GitHub Actions workflow commands: one `::warning` annotation per
    /// crappy function, rendered inline on the PR diff.
    GitHub,
    /// GitHub-Flavored Markdown table, exhaustive.
    Markdown,
    /// Opinionated PR-comment markdown: unchanged rows hidden, sections
    /// capped, secondary sections collapsed.
    PrComment,
    /// SARIF 2.1.0 JSON for code-scanning tools.
    Sarif,
    /// Shields.io endpoint-badge JSON.
    Shields,
}

} // verus!
