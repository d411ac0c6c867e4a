use cargo_crap::duplicates::extract::Location;
use cargo_crap::report::layout::{compute_render_prefix, longest_common_path_prefix, strip_to_display};
use cargo_crap::report::links::{link_path, linkify, repo_url_from, resolve_source_links, SourceLinks};
use cargo_crap::report::sections::{
    badge_fields, format_location_with_prev, normalize_path, side, write_markdown_delta_heading,
    write_pr_comment_breakdown, write_pr_comment_delta_headline, write_pr_comment_marker,
    write_truncation_footer, write_truncation_if_capped, Grade, MAX_ROWS_PER_SECTION,
};
use cargo_crap::paths::components;
use cargo_crap::text::gha_escape;

fn paths(v: &[&str]) -> Vec<String> {
    v.iter().map(|s| s.to_string()).collect()
}

#[test]
fn github_gha_escape_encodes_special_characters() {
    assert_eq!(gha_escape("a%b"), "a%25b");
    assert_eq!(gha_escape("a\rb"), "a%0Db");
    assert_eq!(gha_escape("a\nb"), "a%0Ab");
    assert_eq!(gha_escape("plain"), "plain");
}

#[test]
fn tests_gha_escape_encodes_special_characters() {
    assert_eq!(gha_escape("a%b"), "a%25b");
    assert_eq!(gha_escape("a\rb"), "a%0Db");
    assert_eq!(gha_escape("a\nb"), "a%0Ab");
    assert_eq!(gha_escape("plain"), "plain");
}

#[test]
fn gha_escape_handles_every_special_character_together() {
    assert_eq!(gha_escape("100%\r\n→done"), "100%25%0D%0A→done");
    assert_eq!(gha_escape(""), "");
    assert_eq!(gha_escape("%%"), "%25%25");
}

#[test]
fn windows_style_paths_are_normalized_to_forward_slashes() {
    assert_eq!(normalize_path("src\\foo.rs"), "src/foo.rs");
    assert_eq!(normalize_path("a\\b\\c.rs"), "a/b/c.rs", "every backslash must be replaced");
}

#[test]
fn lcp_empty_for_fewer_than_two_paths() {
    assert_eq!(longest_common_path_prefix(&Vec::new()), "");
    assert_eq!(longest_common_path_prefix(&paths(&["/a/b/c"])), "");
}

#[test]
fn lcp_finds_component_wise_prefix() {
    let p = paths(&[
        "/home/runner/work/repo/src/a.rs",
        "/home/runner/work/repo/src/b.rs",
        "/home/runner/work/repo/tests/c.rs",
    ]);
    assert_eq!(longest_common_path_prefix(&p), "/home/runner/work/repo");
}

#[test]
fn lcp_does_not_collapse_partial_component() {
    let p = paths(&["/a/foo", "/a/foobar"]);
    assert_eq!(longest_common_path_prefix(&p), "/a");
}

#[test]
fn lcp_no_overlap_returns_empty() {
    let p = paths(&["src/a.rs", "tests/b.rs"]);
    assert_eq!(longest_common_path_prefix(&p), "");
}

#[test]
fn lcp_of_identical_paths_is_the_path_and_ignores_redundant_separators() {
    assert_eq!(longest_common_path_prefix(&paths(&["/a//b/c.rs", "/a/b/c.rs"])), "/a/b/c.rs");
    assert_eq!(longest_common_path_prefix(&paths(&["/x/y", "/z"])), "/");
    assert_eq!(longest_common_path_prefix(&paths(&["./src/a.rs", "./src/b.rs"])), "./src");
}

#[test]
fn render_prefix_empty_paths_returns_empty() {
    assert_eq!(compute_render_prefix(&Vec::new(), "/home/u/repo"), "");
}

#[test]
fn render_prefix_paths_outside_cwd_returns_empty() {
    let outside = paths(&["/tmp/definitely_not_under_cwd_xyzzy/foo.rs"]);
    assert_eq!(compute_render_prefix(&outside, "/home/u/repo"), "");
}

#[test]
fn render_prefix_falls_back_to_cwd_when_path_under_cwd() {
    let inside = paths(&["/home/u/repo/nested/foo.rs"]);
    assert_eq!(compute_render_prefix(&inside, "/home/u/repo"), "/home/u/repo");
}

#[test]
fn render_prefix_prefers_the_common_prefix_and_needs_a_known_cwd() {
    let p = paths(&["/ci/repo/src/a.rs", "/ci/repo/src/b.rs"]);
    assert_eq!(compute_render_prefix(&p, "/ci"), "/ci/repo/src");
    assert_eq!(compute_render_prefix(&paths(&["/ci/repo/src/a.rs"]), ""), "");
}

#[test]
fn strip_to_display_removes_whole_components_only() {
    assert_eq!(strip_to_display("/home/runner/work/repo/src/lib.rs", "/home/runner/work/repo"), "src/lib.rs");
    assert_eq!(strip_to_display("/a/foobar/x.rs", "/a/foo"), "/a/foobar/x.rs");
    assert_eq!(strip_to_display("src/lib.rs", ""), "src/lib.rs");
    assert_eq!(strip_to_display("/r/src/lib.rs", "/elsewhere"), "/r/src/lib.rs");
}

#[test]
fn source_links_url_for_joins_components_with_one_slash() {
    let l = SourceLinks::new("https://github.com/owner/repo".into(), "abc123".into());
    let url = l.url_for("src/foo.rs", 42);
    assert_eq!(url, "https://github.com/owner/repo/blob/abc123/src/foo.rs#L42");
}

#[test]
fn source_links_strips_trailing_slash_from_repo_url() {
    let l = SourceLinks::new("https://github.com/owner/repo/".into(), "abc123".into());
    let url = l.url_for("src/foo.rs", 1);
    assert!(!url.contains("repo//blob"), "trailing slash must be normalized: {url}");
    assert!(url.contains("/repo/blob/abc123/"));
}

#[test]
fn source_links_url_uses_forward_slashes_even_for_windows_input() {
    let l = SourceLinks::new("https://github.com/o/r".into(), "sha".into());
    let url = l.url_for(r"src\foo.rs", 1);
    assert!(!url.contains('\\'), "URL must contain no backslashes, got: {url}");
    assert_eq!(url, "https://github.com/o/r/blob/sha/src/foo.rs#L1");
}

#[test]
fn source_links_strip_every_trailing_slash() {
    let l = SourceLinks::new("https://h/o/r///".into(), "v1".into());
    assert_eq!(l.url_for("a.rs", 0), "https://h/o/r/blob/v1/a.rs#L0");
}

#[test]
fn link_path_keeps_relative_and_strips_cwd_from_absolute() {
    assert_eq!(link_path("src/a.rs", None).as_deref(), Some("src/a.rs"));
    assert_eq!(link_path("/repo/src/a.rs", Some("/repo")).as_deref(), Some("src/a.rs"));
    assert_eq!(link_path("/other/src/a.rs", Some("/repo")), None);
    assert_eq!(link_path("/repo/src/a.rs", None), None);
}

#[test]
fn linkify_wraps_only_when_links_and_a_target_exist() {
    let l = SourceLinks::new("https://github.com/o/r".into(), "main".into());
    assert_eq!(
        linkify("`foo`".into(), Some(&l), "src/a.rs", 7, None),
        "[`foo`](https://github.com/o/r/blob/main/src/a.rs#L7)"
    );
    assert_eq!(
        linkify("`foo`".into(), Some(&l), "/repo/src/a.rs", 7, Some("/repo")),
        "[`foo`](https://github.com/o/r/blob/main/src/a.rs#L7)"
    );
    assert_eq!(linkify("`foo`".into(), None, "src/a.rs", 7, None), "`foo`");
    assert_eq!(linkify("`foo`".into(), Some(&l), "/elsewhere/a.rs", 7, Some("/repo")), "`foo`");
}

#[test]
fn marker_headlines_and_footers_have_the_exact_wording() {
    let mut out = String::new();
    write_pr_comment_marker(&mut out);
    assert_eq!(out, "<!-- cargo-crap-report -->\n\n");

    let mut out = String::new();
    write_pr_comment_delta_headline(&mut out, 0);
    assert_eq!(out, "## ✅ No CRAP regressions\n\n");
    let mut out = String::new();
    write_pr_comment_delta_headline(&mut out, 3);
    assert_eq!(out, "## ⚠️ 3 CRAP regression(s) detected\n\n");
    let mut md = String::new();
    write_markdown_delta_heading(3, &mut md);
    assert_eq!(md, out);

    let mut out = String::from("x");
    write_truncation_footer(&mut out, 7);
    assert_eq!(out, "x\n_…and 7 more, see CI artifact for the full report._\n");

    let mut out = String::new();
    write_pr_comment_breakdown(&mut out, 1, 2, 3, 4, 5);
    assert_eq!(out, "↑ 1 regressed · ★ 2 new · ↓ 3 improved · 4 unchanged · — 5 removed\n");
}

#[test]
fn truncation_only_when_strictly_over_cap() {
    let mut out = String::new();
    write_truncation_if_capped(&mut out, MAX_ROWS_PER_SECTION);
    assert!(out.is_empty(), "exactly at the cap: no footer");
    write_truncation_if_capped(&mut out, MAX_ROWS_PER_SECTION + 1);
    assert!(out.contains("…and 1 more"), "one over the cap: footer, got {out}");
    let mut out = String::new();
    write_truncation_if_capped(&mut out, 0);
    assert!(out.is_empty());
}

#[test]
fn grade_icons() {
    assert_eq!(Grade::Clean.icon(), "✓");
    assert_eq!(Grade::Moderate.icon(), "▲");
    assert_eq!(Grade::Crappy.icon(), "✗");
}

#[test]
fn location_cell_with_and_without_previous_file() {
    assert_eq!(format_location_with_prev("src/a.rs", 7, None), "`src/a.rs:7`");
    assert_eq!(
        format_location_with_prev("src/new.rs", 42, Some("src/old.rs")),
        "`src/new.rs:42` ← `src/old.rs`"
    );
}

#[test]
fn duplicate_side_names_file_lines_and_function() {
    let at = Location {
        file: "src/a.rs".into(),
        start_line: 3,
        end_line: 17,
        name: "alpha".into(),
    };
    assert_eq!(side(&at), "src/a.rs:3-17  alpha");
}

#[test]
fn zero_crappy_is_a_passing_brightgreen_badge() {
    assert_eq!(badge_fields(0), ("passing".to_string(), "brightgreen".to_string()));
}

#[test]
fn one_crappy_is_yellow() {
    assert_eq!(badge_fields(1), ("1 crappy".to_string(), "yellow".to_string()));
}

#[test]
fn five_crappy_is_still_yellow() {
    assert_eq!(badge_fields(5), ("5 crappy".to_string(), "yellow".to_string()));
}

#[test]
fn six_crappy_is_red() {
    assert_eq!(badge_fields(6), ("6 crappy".to_string(), "red".to_string()));
}

#[test]
fn actions_repo_url_joins_with_one_slash() {
    assert_eq!(repo_url_from("https://github.com/", "/owner/repo"), "https://github.com/owner/repo");
    assert_eq!(repo_url_from("https://github.com", "owner/repo"), "https://github.com/owner/repo");
}

#[test]
fn source_links_resolve_cli_first_then_environment() {
    let s = |v: &str| Some(v.to_string());
    let l = resolve_source_links(s("https://x/o/r"), s("abc"), s("https://github.com"), s("a/b"), s("env")).unwrap();
    assert_eq!(l.url_for("f.rs", 1), "https://x/o/r/blob/abc/f.rs#L1");
    let l = resolve_source_links(None, None, s("https://github.com/"), s("a/b"), s("sha1")).unwrap();
    assert_eq!(l.url_for("f.rs", 2), "https://github.com/a/b/blob/sha1/f.rs#L2");
    assert!(resolve_source_links(None, s("abc"), s("https://github.com"), None, None).is_none());
    assert!(resolve_source_links(s("https://x/o/r"), None, None, None, None).is_none());
}

#[test]
fn common_prefix_splits_back_into_the_shared_components() {
    let p = paths(&["/a//b/x.rs", "/a/b/./y.rs"]);
    let lcp = longest_common_path_prefix(&p);
    assert_eq!(lcp, "/a/b");
    assert_eq!(components(&lcp), vec!["/".to_string(), "a".to_string(), "b".to_string()]);
}

#[test]
fn stripped_display_keeps_the_remaining_components() {
    let s = strip_to_display("/r/./src//lib.rs", "/r");
    assert_eq!(s, "src/lib.rs");
    assert_eq!(components(&s), vec!["src".to_string(), "lib.rs".to_string()]);
}

#[test]
fn delta_stats_include_moved() {
    let mut out = String::new();
    cargo_crap::report::sections::write_markdown_delta_stats(&mut out, 1, 2, 3, 4, 5, 6);
    assert_eq!(
        out,
        "\n↑ 1 regressed · ↓ 2 improved · ★ 3 new · ↔ 4 moved · · 5 unchanged · — 6 removed\n"
    );
    let parts = cargo_crap::report::sections::delta_stat_parts(0, 0, 0, 1, 0, 0);
    assert_eq!(parts[3], "↔ 1 moved");
    assert_eq!(parts.len(), 6);
}
