use cargo_crap::merge::{
    fallback_coverage, match_files, CoverageKey, FileQuery, Hit, MissingCoveragePolicy, PathIndex,
    SortOrder, StrayFiles, SCOPE_EXAMPLE_CAP,
};
use cargo_crap::paths::path_has_suffix;

fn rel(raw: &str) -> CoverageKey {
    CoverageKey {
        raw: raw.to_string(),
        canonical: None,
    }
}

fn abs(raw: &str, canonical: &str) -> CoverageKey {
    CoverageKey {
        raw: raw.to_string(),
        canonical: Some(canonical.to_string()),
    }
}

fn query(file: &str) -> FileQuery {
    FileQuery {
        file: file.to_string(),
        canonical: None,
    }
}

/// The raw spelling of the record behind a relative-tier hit.
fn needle(index: &PathIndex, hit: Option<Hit>) -> Option<String> {
    match hit {
        Some(Hit::Relative(j)) => Some(index.by_relative[j].join("/")),
        Some(Hit::Absolute(e)) => Some(index.by_absolute[e].clone()),
        None => None,
    }
}

#[test]
fn suffix_match_works_for_relative_coverage_paths() {
    let keys = vec![rel("src/foo.rs")];
    let index = PathIndex::build(&keys);
    let result = index.lookup("/home/alice/project/src/foo.rs", &None);
    assert!(result.is_some(), "expected suffix match to succeed");
}

#[test]
fn suffix_match_rejects_partial_component_matches() {
    assert!(!path_has_suffix("/project/src/oofoo.rs", "foo.rs"));
}

#[test]
fn equal_length_paths_match_when_identical() {
    assert!(
        path_has_suffix("/project/src/foo.rs", "/project/src/foo.rs"),
        "identical paths must match as a suffix"
    );
}

#[test]
fn longer_needle_does_not_match() {
    assert!(!path_has_suffix("src/foo.rs", "/abs/project/src/foo.rs"));
}

#[test]
fn longest_matching_suffix_wins_over_shorter_ambiguous_key() {
    let keys = vec![rel("src/lib.rs"), rel("vendor/dep/src/lib.rs")];
    let index = PathIndex::build(&keys);
    let vendor = index.lookup("/repo/vendor/dep/src/lib.rs", &None);
    assert_eq!(
        needle(&index, vendor).as_deref(),
        Some("vendor/dep/src/lib.rs"),
        "nested query must bind to the vendor key"
    );
    let root = index.lookup("/repo/src/lib.rs", &None);
    assert_eq!(
        needle(&index, root).as_deref(),
        Some("src/lib.rs"),
        "the shorter key still serves its own queries"
    );

    let queries = vec![query("/repo/src/lib.rs"), query("/repo/vendor/dep/src/lib.rs")];
    let result = match_files(&queries, &keys);
    let diag = result.diagnostics.expect("diagnostics present");
    assert_eq!(diag.matched_files, 2);
    assert_eq!(
        diag.lcov_only.count, 0,
        "both ambiguous keys were consumed by their own queries"
    );
}

#[test]
fn component_equal_spellings_merge_into_one_entry() {
    let keys = vec![rel("src/lib.rs"), rel("./src/lib.rs")];
    let index = PathIndex::build(&keys);
    assert_eq!(
        index.by_relative.len(),
        1,
        "spelling variants collapse to one suffix-tier entry"
    );
    assert_eq!(index.slot[0], index.slot[1]);
    assert!(index.lookup("/repo/src/lib.rs", &None).is_some());

    let result = match_files(&vec![query("/repo/src/lib.rs")], &keys);
    let diag = result.diagnostics.expect("diagnostics present");
    assert_eq!(diag.lcov_only.count, 0, "both spellings of a consumed entry are consumed");
}

#[test]
fn degenerate_lcov_keys_never_wildcard_match() {
    let keys = vec![rel("."), rel(""), rel("src/foo.rs")];
    let index = PathIndex::build(&keys);
    assert!(
        index.lookup("/repo/src/bar.rs", &None).is_none(),
        "a file with no real LCOV record must stay unmatched"
    );
    assert!(
        index.lookup("/repo/src/foo.rs", &None).is_some(),
        "legitimate keys still match"
    );
    assert_eq!(index.slot[0], None);
    assert_eq!(index.slot[1], None);

    let result = match_files(&vec![query("/repo/src/bar.rs")], &keys);
    let diag = result.diagnostics.expect("diagnostics present");
    assert_eq!(diag.source_only.count, 1, "the unmapped file is reported, not silently bound");
    assert_eq!(diag.lcov_only.count, 3, "degenerate keys and the unconsumed real key are strays");
}

#[test]
fn distinct_relative_files_never_merge() {
    let keys = vec![rel("a/util.rs"), rel("b/util.rs")];
    let index = PathIndex::build(&keys);
    assert_eq!(index.by_relative.len(), 2);

    let a = index.lookup("/repo/a/util.rs", &None);
    assert_eq!(needle(&index, a).as_deref(), Some("a/util.rs"), "a match");
    let b = index.lookup("/repo/b/util.rs", &None);
    assert_eq!(needle(&index, b).as_deref(), Some("b/util.rs"), "b match");
}

#[test]
fn absolute_aliases_share_one_exact_entry() {
    // Two absolute spellings whose canonical forms agree (one through a
    // symlink) sit behind one exact-match entry.
    let keys = vec![
        abs("/tmp/x/a.rs", "/tmp/x/a.rs"),
        abs("/tmp/x/link.rs", "/tmp/x/a.rs"),
    ];
    let index = PathIndex::build(&keys);
    assert_eq!(index.by_absolute.len(), 1);
    assert_eq!(index.slot[0], Some(Hit::Absolute(0)));
    assert_eq!(index.slot[1], Some(Hit::Absolute(0)));

    let queries = vec![FileQuery {
        file: "/tmp/x/a.rs".to_string(),
        canonical: Some("/tmp/x/a.rs".to_string()),
    }];
    let result = match_files(&queries, &keys);
    let diag = result.diagnostics.expect("diagnostics present");
    assert_eq!(diag.matched_files, 1);
    assert_eq!(diag.lcov_only.count, 0, "an alias of a consumed key is not a stray");
    assert_eq!(diag.source_only.count, 0);
}

#[test]
fn relative_coverage_paths_are_not_resolved_against_cwd() {
    let keys = vec![rel("src/lib.rs")];
    let index = PathIndex::build(&keys);
    assert!(
        index.by_absolute.is_empty(),
        "relative coverage paths must not populate by_absolute"
    );
    assert_eq!(index.by_relative.len(), 1);
    let found = index.lookup("/somewhere/else/src/lib.rs", &None);
    assert!(found.is_some());
}

#[test]
fn relative_key_with_a_canonical_form_stays_relative() {
    // Even when a canonical form is supplied for a relative spelling, it is
    // never used: only absolute spellings enter the exact tier.
    let keys = vec![CoverageKey {
        raw: "src/lib.rs".to_string(),
        canonical: Some("/cwd/src/lib.rs".to_string()),
    }];
    let index = PathIndex::build(&keys);
    assert!(index.by_absolute.is_empty());
    assert_eq!(index.slot[0], Some(Hit::Relative(0)));
}

#[test]
fn unmapped_files_reported_when_lcov_provided() {
    let keys = vec![rel("src/foo.rs")];
    let queries = vec![query("/project/src/foo.rs"), query("/project/src/bar.rs")];
    let result = match_files(&queries, &keys);
    let diag = result.diagnostics.expect("lcov provided → diagnostics");
    assert_eq!(diag.analyzed_files, 2);
    assert_eq!(diag.lcov_files, 1);
    assert_eq!(diag.matched_files, 1);
    assert_eq!(diag.source_only.count, 1);
    assert_eq!(diag.source_only.examples, vec!["/project/src/bar.rs".to_string()]);
    assert_eq!(diag.lcov_only.count, 0, "the only LCOV entry was consumed");
}

#[test]
fn lcov_only_files_are_reported() {
    let keys = vec![rel("src/foo.rs"), rel("src/phantom_b.rs"), rel("src/phantom_a.rs")];
    let result = match_files(&vec![query("/project/src/foo.rs")], &keys);
    let diag = result.diagnostics.expect("diagnostics present");
    assert_eq!(diag.lcov_files, 3);
    assert_eq!(diag.matched_files, 1);
    assert_eq!(diag.lcov_only.count, 2);
    assert_eq!(
        diag.lcov_only.examples,
        vec!["src/phantom_a.rs".to_string(), "src/phantom_b.rs".to_string()],
        "lcov_only examples must be sorted"
    );
}

#[test]
fn relative_key_is_never_treated_as_an_alias() {
    let keys = vec![abs("/crate/src/merge.rs", "/crate/src/merge.rs"), rel("src/merge.rs")];
    let queries = vec![FileQuery {
        file: "/crate/src/merge.rs".to_string(),
        canonical: Some("/crate/src/merge.rs".to_string()),
    }];
    let result = match_files(&queries, &keys);
    let diag = result.diagnostics.expect("diagnostics present");
    assert_eq!(diag.matched_files, 1);
    assert_eq!(
        diag.lcov_only.count, 1,
        "the relative spelling stays a stray — CWD resolution is forbidden"
    );
    assert_eq!(diag.lcov_only.examples, vec!["src/merge.rs".to_string()]);
}

#[test]
fn shared_lcov_entry_consumed_by_multiple_files_is_not_lcov_only() {
    let keys = vec![rel("src/lib.rs")];
    let queries = vec![query("/a/src/lib.rs"), query("/b/src/lib.rs")];
    let result = match_files(&queries, &keys);
    let diag = result.diagnostics.expect("diagnostics present");
    assert_eq!(diag.matched_files, 2);
    assert_eq!(diag.lcov_only.count, 0);
}

#[test]
fn repeated_queries_for_one_file_count_once() {
    let keys = vec![rel("src/lib.rs")];
    let queries = vec![query("/a/src/lib.rs"), query("/a/src/lib.rs"), query("/a/./src/lib.rs")];
    let result = match_files(&queries, &keys);
    let diag = result.diagnostics.expect("diagnostics present");
    assert_eq!(diag.analyzed_files, 1);
    assert_eq!(diag.matched_files, 1);
}

#[test]
fn no_diagnostics_when_no_lcov_provided() {
    let result = match_files(&vec![query("src/foo.rs")], &Vec::new());
    assert!(result.diagnostics.is_none(), "no lcov → no scope diagnostics, no warnings");
    assert_eq!(result.hits, vec![None]);
}

#[test]
fn stray_examples_are_capped_but_count_is_exact() {
    let files: Vec<String> = (0..SCOPE_EXAMPLE_CAP + 3).map(|i| format!("src/f{i:02}.rs")).collect();
    let strays = StrayFiles::new(files);
    assert_eq!(strays.count, SCOPE_EXAMPLE_CAP + 3);
    assert_eq!(strays.examples.len(), SCOPE_EXAMPLE_CAP);
    assert_eq!(
        strays.examples[0],
        "src/f00.rs".to_string(),
        "examples are the sorted head, not an arbitrary subset"
    );
}

#[test]
fn stray_examples_not_truncated_at_or_below_cap() {
    let files: Vec<String> = (0..SCOPE_EXAMPLE_CAP).map(|i| format!("src/f{i:02}.rs")).collect();
    let strays = StrayFiles::new(files);
    assert_eq!(strays.count, SCOPE_EXAMPLE_CAP);
    assert_eq!(strays.examples.len(), SCOPE_EXAMPLE_CAP);
}

#[test]
fn stray_examples_follow_path_component_order() {
    // Component order puts the root first and compares names per component.
    let files = vec!["b.rs".to_string(), "/z.rs".to_string(), "a/b.rs".to_string()];
    let strays = StrayFiles::new(files);
    assert_eq!(strays.examples, vec!["/z.rs".to_string(), "a/b.rs".to_string(), "b.rs".to_string()]);
}

#[test]
fn sort_order_default_is_crap() {
    assert_eq!(SortOrder::default(), SortOrder::Crap);
}

#[test]
fn fallback_coverage_follows_the_policy() {
    assert_eq!(fallback_coverage(MissingCoveragePolicy::Pessimistic), Some(0));
    assert_eq!(fallback_coverage(MissingCoveragePolicy::Optimistic), Some(100));
    assert_eq!(fallback_coverage(MissingCoveragePolicy::Skip), None);
}

fn order_key(file: &str, function: &str, line: usize) -> cargo_crap::merge::FileOrderKey {
    cargo_crap::merge::FileOrderKey {
        file: file.to_string(),
        function: function.to_string(),
        line,
    }
}

fn ordered<'a>(keys: &'a [cargo_crap::merge::FileOrderKey]) -> Vec<(&'a str, usize)> {
    cargo_crap::merge::file_order(&keys.to_vec())
        .into_iter()
        .map(|i| (keys[i].function.as_str(), keys[i].line))
        .collect()
}

#[test]
fn sort_entries_file_orders_by_file_then_function_then_line() {
    let keys = vec![
        order_key("src/b.rs", "zeta", 1),
        order_key("src/a.rs", "beta", 1),
        order_key("src/a.rs", "alpha", 1),
    ];
    assert_eq!(
        ordered(&keys),
        [("alpha", 1), ("beta", 1), ("zeta", 1)],
        "file order is (file, function, line) ascending, ignoring CRAP"
    );
}

#[test]
fn sort_entries_file_tie_breaks_on_line() {
    let keys = vec![order_key("src/a.rs", "new", 50), order_key("src/a.rs", "new", 10)];
    assert_eq!(ordered(&keys), [("new", 10), ("new", 50)]);
}

#[test]
fn sort_entries_file_normalizes_separators() {
    let keys = vec![order_key("src\\b.rs", "b", 1), order_key("src/a.rs", "a", 1)];
    assert_eq!(ordered(&keys), [("a", 1), ("b", 1)]);
}

#[test]
fn file_order_is_stable_for_equal_keys() {
    let keys = vec![
        order_key("src/a.rs", "f", 3),
        order_key("src\\a.rs", "f", 3),
        order_key("src/a.rs", "e", 9),
    ];
    assert_eq!(cargo_crap::merge::file_order(&keys), vec![2, 0, 1]);
    assert!(cargo_crap::merge::file_order(&Vec::new()).is_empty());
}

#[test]
fn index_entries_follow_first_record_order() {
    let keys = vec![
        rel("./src/a.rs"),
        abs("/x/b.rs", "/x/b.rs"),
        rel("src/a.rs"),
        rel("b.rs"),
        abs("/y/b.rs", "/x/b.rs"),
        rel("."),
    ];
    let index = PathIndex::build(&keys);
    assert_eq!(index.by_absolute, vec!["/x/b.rs".to_string()]);
    assert_eq!(
        index.by_relative,
        vec![
            vec!["src".to_string(), "a.rs".to_string()],
            vec!["b.rs".to_string()]
        ]
    );
    assert_eq!(
        index.slot,
        vec![
            Some(Hit::Relative(0)),
            Some(Hit::Absolute(0)),
            Some(Hit::Relative(0)),
            Some(Hit::Relative(1)),
            Some(Hit::Absolute(0)),
            None
        ]
    );
}

#[test]
fn relative_records_ignore_the_query_canonical_path() {
    let keys = vec![rel("src/foo.rs")];
    let a = vec![FileQuery { file: "/p/src/foo.rs".into(), canonical: Some("/p/src/foo.rs".into()) }];
    let b = vec![FileQuery { file: "/p/src/foo.rs".into(), canonical: Some("/elsewhere/x.rs".into()) }];
    let ra = match_files(&a, &keys);
    let rb = match_files(&b, &keys);
    assert_eq!(ra.hits, rb.hits);
    assert_eq!(ra.hits, vec![Some(Hit::Relative(0))]);
}
