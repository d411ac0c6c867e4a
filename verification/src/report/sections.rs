//! Fixed text blocks shared by the markdown-style renderers and the CLI's
//! diagnostics: markers, headlines, truncation footers, badge wording and
//! the scope-mismatch warning.

use vstd::prelude::*;

use crate::duplicates::extract::Location;
use crate::merge::{ScopeDiagnostics, StrayFiles};
use crate::paths::strs;
use crate::text::{decimal, forward_slashes, join_with, push_decimal, push_joined, push_str, replace_backslashes};

verus! {

/// Maximum rows per section in PR-comment output. Longer sections are cut
/// and followed by a `…and N more` line, which keeps the comment under
/// GitHub's 65,536-character body limit on huge PRs.
pub const MAX_ROWS_PER_SECTION: usize = 25;

/// Append the hidden HTML marker that lets CI find and update the PR
/// comment, followed by a blank line.
pub fn write_pr_comment_marker(out: &mut String)
    ensures
        final(out)@ == old(out)@ + "<!-- cargo-crap-report -->\n\n"@,
{
    push_str(out, "<!-- cargo-crap-report -->\n\n");
}

/// The footer written when a section was cut after `omitted` more rows.
pub open spec fn truncation_footer(omitted: nat) -> Seq<char> {
    "\n_…and "@ + decimal(omitted) + " more, see CI artifact for the full report._\n"@
}

/// Append the truncation footer for `omitted` rows that were cut.
pub fn write_truncation_footer(out: &mut String, omitted: usize)
    ensures
        final(out)@ == old(out)@ + truncation_footer(omitted as nat),
{
    push_str(out, "\n_…and ");
    push_decimal(out, omitted);
    push_str(out, " more, see CI artifact for the full report._\n");
    assert(out@ =~= old(out)@ + truncation_footer(omitted as nat));
}

/// Append the truncation footer when a section of `total` rows was capped
/// at [`MAX_ROWS_PER_SECTION`]; nothing otherwise.
pub fn write_truncation_if_capped(out: &mut String, total: usize)
    ensures
        total > MAX_ROWS_PER_SECTION ==> final(out)@ == old(out)@ + truncation_footer(
            (total - MAX_ROWS_PER_SECTION) as nat,
        ),
        total <= MAX_ROWS_PER_SECTION ==> final(out)@ == old(out)@,
{
    if total > MAX_ROWS_PER_SECTION {
        write_truncation_footer(out, total - MAX_ROWS_PER_SECTION);
    }
}

/// The headline of a delta report: a clean verdict when there are no
/// regressions, else the regression count.
pub open spec fn delta_headline(regressions: nat) -> Seq<char> {
    if regressions == 0 {
        "## ✅ No CRAP regressions\n\n"@
    } else {
        "## ⚠️ "@ + decimal(regressions) + " CRAP regression(s) detected\n\n"@
    }
}

/// Append the PR-comment delta headline.
pub fn write_pr_comment_delta_headline(out: &mut String, regressions: usize)
    ensures
        final(out)@ == old(out)@ + delta_headline(regressions as nat),
{
    if regressions == 0 {
        push_str(out, "## ✅ No CRAP regressions\n\n");
    } else {
        push_str(out, "## ⚠️ ");
        push_decimal(out, regressions);
        push_str(out, " CRAP regression(s) detected\n\n");
    }
    assert(out@ =~= old(out)@ + delta_headline(regressions as nat));
}

/// Append the markdown delta heading (the same wording as the PR comment's).
pub fn write_markdown_delta_heading(regressions: usize, out: &mut String)
    ensures
        final(out)@ == old(out)@ + delta_headline(regressions as nat),
{
    write_pr_comment_delta_headline(out, regressions);
}

/// The one-line per-status breakdown under a PR-comment delta headline.
pub open spec fn breakdown_line(regressed: nat, new: nat, improved: nat, unchanged: nat, removed: nat) -> Seq<char> {
    "↑ "@ + decimal(regressed) + " regressed · ★ "@ + decimal(new) + " new · ↓ "@ + decimal(improved)
        + " improved · "@ + decimal(unchanged) + " unchanged · — "@ + decimal(removed) + " removed\n"@
}

/// Append the per-status breakdown line of a PR-comment delta report.
pub fn write_pr_comment_breakdown(
    out: &mut String,
    regressed: usize,
    new: usize,
    improved: usize,
    unchanged: usize,
    removed: usize,
)
    ensures
        final(out)@ == old(out)@ + breakdown_line(
            regressed as nat,
            new as nat,
            improved as nat,
            unchanged as nat,
            removed as nat,
        ),
{
    push_str(out, "↑ ");
    push_decimal(out, regressed);
    push_str(out, " regressed · ★ ");
    push_decimal(out, new);
    push_str(out, " new · ↓ ");
    push_decimal(out, improved);
    push_str(out, " improved · ");
    push_decimal(out, unchanged);
    push_str(out, " unchanged · — ");
    push_decimal(out, removed);
    push_str(out, " removed\n");
    assert(out@ =~= old(out)@ + breakdown_line(
        regressed as nat,
        new as nat,
        improved as nat,
        unchanged as nat,
        removed as nat,
    ));
}

/// The six parts of a delta-mode statistics line, in display order:
/// regressed, improved, new, moved, unchanged, removed.
pub open spec fn stat_parts(
    regressed: nat,
    improved: nat,
    new: nat,
    moved: nat,
    unchanged: nat,
    removed: nat,
) -> Seq<Seq<char>> {
    seq![
        "↑ "@ + decimal(regressed) + " regressed"@,
        "↓ "@ + decimal(improved) + " improved"@,
        "★ "@ + decimal(new) + " new"@,
        "↔ "@ + decimal(moved) + " moved"@,
        "· "@ + decimal(unchanged) + " unchanged"@,
        "— "@ + decimal(removed) + " removed"@,
    ]
}

/// The parts of a delta-mode statistics line (see [`stat_parts`]); the
/// human and summary renderers colour each part and put two spaces between
/// them.
pub fn delta_stat_parts(
    regressed: usize,
    improved: usize,
    new: usize,
    moved: usize,
    unchanged: usize,
    removed: usize,
) -> (r: Vec<String>)
    ensures
        r@.map_values(|p: String| p@) == stat_parts(
            regressed as nat,
            improved as nat,
            new as nat,
            moved as nat,
            unchanged as nat,
            removed as nat,
        ),
{
    let mut r: Vec<String> = Vec::new();
    let mut p = String::new();
    push_str(&mut p, "↑ ");
    push_decimal(&mut p, regressed);
    push_str(&mut p, " regressed");
    r.push(p);
    let mut p = String::new();
    push_str(&mut p, "↓ ");
    push_decimal(&mut p, improved);
    push_str(&mut p, " improved");
    r.push(p);
    let mut p = String::new();
    push_str(&mut p, "★ ");
    push_decimal(&mut p, new);
    push_str(&mut p, " new");
    r.push(p);
    let mut p = String::new();
    push_str(&mut p, "↔ ");
    push_decimal(&mut p, moved);
    push_str(&mut p, " moved");
    r.push(p);
    let mut p = String::new();
    push_str(&mut p, "· ");
    push_decimal(&mut p, unchanged);
    push_str(&mut p, " unchanged");
    r.push(p);
    let mut p = String::new();
    push_str(&mut p, "— ");
    push_decimal(&mut p, removed);
    push_str(&mut p, " removed");
    r.push(p);
    assert(r@.map_values(|p: String| p@) =~= stat_parts(
        regressed as nat,
        improved as nat,
        new as nat,
        moved as nat,
        unchanged as nat,
        removed as nat,
    ));
    r
}

/// Append the markdown delta statistics: a blank line, then the parts of
/// [`stat_parts`] joined with ` · `.
pub fn write_markdown_delta_stats(
    out: &mut String,
    regressed: usize,
    improved: usize,
    new: usize,
    moved: usize,
    unchanged: usize,
    removed: usize,
)
    ensures
        final(out)@ == old(out)@ + "\n"@ + join_with(
            stat_parts(regressed as nat, improved as nat, new as nat, moved as nat, unchanged as nat, removed as nat),
            " · "@,
        ) + "\n"@,
{
    let parts = delta_stat_parts(regressed, improved, new, moved, unchanged, removed);
    push_str(out, "\n");
    push_joined(out, &parts, " · ");
    push_str(out, "\n");
}

/// Three-tier severity used for row icons and colour: `Moderate` sits
/// between a third of the threshold and the threshold.
#[derive(Debug, Clone, Copy, PartialEq, Eq, Structural)]
pub enum Grade {
    Clean,
    Moderate,
    Crappy,
}

impl Grade {
    /// The row icon of the grade.
    pub fn icon(&self) -> (r: &'static str)
        ensures
            r@ == match *self {
                Grade::Clean => "✓"@,
                Grade::Moderate => "▲"@,
                Grade::Crappy => "✗"@,
            },
    {
        match self {
            Grade::Clean => "✓",
            Grade::Moderate => "▲",
            Grade::Crappy => "✗",
        }
    }
}

/// A Location cell, `` `file:line` ``, with `` ← `prev` `` appended when the
/// entry was paired with a baseline entry in another file.
pub open spec fn location_cell(file: Seq<char>, line: nat, prev: Option<Seq<char>>) -> Seq<char> {
    let here = "`"@ + file + ":"@ + decimal(line) + "`"@;
    match prev {
        Some(p) => here + " ← `"@ + p + "`"@,
        None => here,
    }
}

/// Render a Location cell (see [`location_cell`]).
pub fn format_location_with_prev(file: &str, line: usize, previous_file: Option<&str>) -> (r: String)
    ensures
        r@ == location_cell(
            file@,
            line as nat,
            match previous_file {
                Some(p) => Some(p@),
                None => None,
            },
        ),
{
    let mut out = String::new();
    push_str(&mut out, "`");
    push_str(&mut out, file);
    push_str(&mut out, ":");
    push_decimal(&mut out, line);
    push_str(&mut out, "`");
    match previous_file {
        Some(p) => {
            push_str(&mut out, " ← `");
            push_str(&mut out, p);
            push_str(&mut out, "`");
        },
        None => {},
    }
    assert(out@ =~= location_cell(
        file@,
        line as nat,
        match previous_file {
            Some(p) => Some(p@),
            None => None,
        },
    ));
    out
}

/// One side of a duplicate pair: `file:start-end  name`.
pub open spec fn side_text(at: Location) -> Seq<char> {
    at.file@ + ":"@ + decimal(at.start_line as nat) + "-"@ + decimal(at.end_line as nat) + "  "@ + at.name@
}

/// Render one side of a duplicate pair (see [`side_text`]).
pub fn side(at: &Location) -> (r: String)
    ensures
        r@ == side_text(*at),
{
    let mut out = String::new();
    push_str(&mut out, at.file.as_str());
    push_str(&mut out, ":");
    push_decimal(&mut out, at.start_line);
    push_str(&mut out, "-");
    push_decimal(&mut out, at.end_line);
    push_str(&mut out, "  ");
    push_str(&mut out, at.name.as_str());
    assert(out@ =~= side_text(*at));
    out
}

/// Convert a path to a forward-slash URI string: a SARIF
/// `artifactLocation.uri` uses `/` whatever the host platform.
pub fn normalize_path(p: &str) -> (r: String)
    ensures
        r@ == forward_slashes(p@),
{
    replace_backslashes(p)
}

/// Badge message and colour for `count` crappy functions: `passing` in
/// bright green for none, `N crappy` in yellow for one to five, and in red
/// above that.
pub open spec fn badge(count: nat) -> (Seq<char>, Seq<char>) {
    if count == 0 {
        ("passing"@, "brightgreen"@)
    } else if count <= 5 {
        (decimal(count) + " crappy"@, "yellow"@)
    } else {
        (decimal(count) + " crappy"@, "red"@)
    }
}

/// The message and colour fields of the Shields.io badge (see [`badge`]).
pub fn badge_fields(count: usize) -> (r: (String, String))
    ensures
        (r.0@, r.1@) == badge(count as nat),
{
    if count == 0 {
        let mut m = String::new();
        push_str(&mut m, "passing");
        let mut c = String::new();
        push_str(&mut c, "brightgreen");
        (m, c)
    } else {
        let mut m = String::new();
        push_decimal(&mut m, count);
        push_str(&mut m, " crappy");
        let mut c = String::new();
        if count <= 5 {
            push_str(&mut c, "yellow");
        } else {
            push_str(&mut c, "red");
        }
        (m, c)
    }
}

/// Lead line of the scope-mismatch warning, picked by overlap severity: no
/// match at all and an overlap of less than half the analyzed files get an
/// explicit different-scopes verdict; smaller mismatches keep a neutral
/// wording.
pub open spec fn scope_lead(analyzed: nat, lcov: nat, matched: nat) -> Seq<char> {
    if matched == 0 {
        "warning: no overlap between the analyzed sources and the LCOV report ("@ + decimal(analyzed)
            + " analyzed, "@ + decimal(lcov)
            + " in LCOV, 0 matched) — the analyzed tree and the coverage run describe different scopes"@
    } else if 2 * matched < analyzed {
        "warning: only "@ + decimal(matched) + " of "@ + decimal(analyzed)
            + " analyzed files match the LCOV report — the analyzed tree and the coverage run likely describe different scopes"@
    } else {
        "warning: source/LCOV scope mismatch ("@ + decimal(analyzed) + " analyzed, "@ + decimal(lcov)
            + " in LCOV, "@ + decimal(matched)
            + " matched) — verify your --lcov path or coverage tool configuration"@
    }
}

/// The lead line of the scope-mismatch warning (see [`scope_lead`]).
pub fn scope_warning_lead(diag: &ScopeDiagnostics) -> (r: String)
    ensures
        r@ == scope_lead(diag.analyzed_files as nat, diag.lcov_files as nat, diag.matched_files as nat),
{
    let a = diag.analyzed_files;
    let l = diag.lcov_files;
    let m = diag.matched_files;
    let mut out = String::new();
    if m == 0 {
        push_str(&mut out, "warning: no overlap between the analyzed sources and the LCOV report (");
        push_decimal(&mut out, a);
        push_str(&mut out, " analyzed, ");
        push_decimal(&mut out, l);
        push_str(
            &mut out,
            " in LCOV, 0 matched) — the analyzed tree and the coverage run describe different scopes",
        );
    } else if m <= a && m < a - m {
        push_str(&mut out, "warning: only ");
        push_decimal(&mut out, m);
        push_str(&mut out, " of ");
        push_decimal(&mut out, a);
        push_str(
            &mut out,
            " analyzed files match the LCOV report — the analyzed tree and the coverage run likely describe different scopes",
        );
    } else {
        push_str(&mut out, "warning: source/LCOV scope mismatch (");
        push_decimal(&mut out, a);
        push_str(&mut out, " analyzed, ");
        push_decimal(&mut out, l);
        push_str(&mut out, " in LCOV, ");
        push_decimal(&mut out, m);
        push_str(&mut out, " matched) — verify your --lcov path or coverage tool configuration");
    }
    assert(out@ =~= scope_lead(a as nat, l as nat, m as nat));
    out
}

/// Detail lines for one stray side: a `count label:` header, the bounded
/// examples indented, and a `... and N more` tail when the cap cut some.
/// No lines at all when the side is empty.
pub open spec fn stray_text(label: Seq<char>, count: nat, examples: Seq<Seq<char>>) -> Seq<Seq<char>> {
    if count == 0 {
        seq![]
    } else {
        seq!["  "@ + decimal(count) + " "@ + label + ":"@] + examples.map_values(|f: Seq<char>| "    "@ + f)
            + if count > examples.len() {
            seq!["    ... and "@ + decimal((count - examples.len()) as nat) + " more"@]
        } else {
            seq![]
        }
    }
}

/// The detail lines for one stray side (see [`stray_text`]).
pub fn stray_lines(label: &str, strays: &StrayFiles) -> (r: Vec<String>)
    ensures
        strs(r@) == stray_text(label@, strays.count as nat, strs(strays.examples@)),
{
    let mut lines: Vec<String> = Vec::new();
    if strays.count == 0 {
        assert(strs(lines@) =~= Seq::<Seq<char>>::empty());
        return lines;
    }
    let mut head = String::new();
    push_str(&mut head, "  ");
    push_decimal(&mut head, strays.count);
    push_str(&mut head, " ");
    push_str(&mut head, label);
    push_str(&mut head, ":");
    lines.push(head);
    let ghost head_line = "  "@ + decimal(strays.count as nat) + " "@ + label@ + ":"@;
    let ghost ex = strs(strays.examples@);
    assert(strs(lines@) =~= seq![head_line]);
    let mut i: usize = 0;
    while i < strays.examples.len()
        invariant
            i <= strays.examples.len(),
            ex == strs(strays.examples@),
            strs(lines@) == seq![head_line] + ex.take(i as int).map_values(|f: Seq<char>| "    "@ + f),
        decreases strays.examples.len() - i,
    {
        let mut line = String::new();
        push_str(&mut line, "    ");
        push_str(&mut line, strays.examples[i].as_str());
        let ghost before = lines@;
        lines.push(line);
        assert(strs(lines@) =~= strs(before).push("    "@ + ex[i as int]));
        assert(ex.take(i + 1).map_values(|f: Seq<char>| "    "@ + f) =~= ex.take(i as int).map_values(
            |f: Seq<char>| "    "@ + f,
        ).push("    "@ + ex[i as int]));
        i = i + 1;
    }
    assert(ex.take(ex.len() as int) =~= ex);
    if strays.count > strays.examples.len() {
        let mut tail = String::new();
        push_str(&mut tail, "    ... and ");
        push_decimal(&mut tail, strays.count - strays.examples.len());
        push_str(&mut tail, " more");
        let ghost before = lines@;
        lines.push(tail);
        assert(strs(lines@) =~= strs(before).push(
            "    ... and "@ + decimal((strays.count - strays.examples.len()) as nat) + " more"@,
        ));
    }
    assert(strs(lines@) =~= stray_text(label@, strays.count as nat, ex));
    lines
}

} // verus!
