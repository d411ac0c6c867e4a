use cargo_crap::merge::{ScopeDiagnostics, StrayFiles};
use cargo_crap::report::sections::{scope_warning_lead, stray_lines};
use cargo_crap::workspace::{
    components_contain, effective_excludes, is_path_allow_pattern, members_from_packages,
    parse_workspace_metadata,
    nested_member_excludes, parent_dir, require_baseline, resolve_bool, resolve_color,
    select_members, strip_cargo_subcommand, MemberScope, PackageRecord, WorkspaceMember,
};

fn member(name: &str, dir: &str) -> WorkspaceMember {
    WorkspaceMember {
        name: name.into(),
        dir: dir.into(),
    }
}

fn diag(analyzed: usize, lcov: usize, matched: usize) -> ScopeDiagnostics {
    ScopeDiagnostics {
        analyzed_files: analyzed,
        lcov_files: lcov,
        matched_files: matched,
        source_only: StrayFiles {
            count: analyzed - matched,
            examples: Vec::new(),
        },
        lcov_only: StrayFiles {
            count: lcov - matched,
            examples: Vec::new(),
        },
    }
}

#[test]
fn scope_warning_lead_zero_overlap_gets_strongest_wording() {
    let lead = scope_warning_lead(&diag(3, 5, 0));
    assert!(lead.contains("no overlap"), "got: {lead}");
    assert!(lead.contains("3 analyzed"), "got: {lead}");
    assert!(lead.contains("5 in LCOV"), "got: {lead}");
}

#[test]
fn scope_warning_lead_below_half_escalates() {
    let lead = scope_warning_lead(&diag(40, 20, 15));
    assert!(lead.contains("only 15 of 40"), "got: {lead}");
    assert!(lead.contains("likely describe different scopes"), "got: {lead}");
}

#[test]
fn scope_warning_lead_exactly_half_stays_neutral() {
    let lead = scope_warning_lead(&diag(4, 4, 2));
    assert!(!lead.contains("only"), "got: {lead}");
    assert!(lead.contains("4 analyzed, 4 in LCOV, 2 matched"), "got: {lead}");
}

#[test]
fn scope_warning_lead_majority_overlap_stays_neutral() {
    let lead = scope_warning_lead(&diag(10, 12, 9));
    assert!(lead.contains("10 analyzed, 12 in LCOV, 9 matched"), "got: {lead}");
    assert!(lead.contains("verify your --lcov path"), "got: {lead}");
}

#[test]
fn scope_warning_lead_exact_texts() {
    assert_eq!(
        scope_warning_lead(&diag(3, 5, 0)),
        "warning: no overlap between the analyzed sources and the LCOV report (3 analyzed, 5 in LCOV, 0 matched) — the analyzed tree and the coverage run describe different scopes"
    );
    assert_eq!(
        scope_warning_lead(&diag(5, 5, 2)),
        "warning: only 2 of 5 analyzed files match the LCOV report — the analyzed tree and the coverage run likely describe different scopes"
    );
    assert_eq!(
        scope_warning_lead(&diag(4, 7, 3)),
        "warning: source/LCOV scope mismatch (4 analyzed, 7 in LCOV, 3 matched) — verify your --lcov path or coverage tool configuration"
    );
}

#[test]
fn stray_lines_empty_side_produces_nothing() {
    let s = StrayFiles {
        count: 0,
        examples: Vec::new(),
    };
    assert!(stray_lines("label", &s).is_empty());
}

#[test]
fn stray_lines_no_tail_when_examples_cover_the_count() {
    let s = StrayFiles {
        count: 2,
        examples: vec!["src/a.rs".to_string(), "src/b.rs".to_string()],
    };
    let lines = stray_lines("file(s) missing", &s);
    assert_eq!(
        lines,
        vec![
            "  2 file(s) missing:".to_string(),
            "    src/a.rs".to_string(),
            "    src/b.rs".to_string(),
        ]
    );
}

#[test]
fn stray_lines_tail_counts_the_truncated_remainder() {
    let s = StrayFiles {
        count: 13,
        examples: (0..10).map(|i| format!("f{i}.rs")).collect(),
    };
    let lines = stray_lines("stray", &s);
    assert_eq!(lines.len(), 12, "header + 10 examples + tail");
    assert_eq!(lines.last().unwrap(), "    ... and 3 more");
}

#[test]
fn select_members_filters_and_preserves_discovery_order() {
    let discovered = vec![
        member("alpha", "/ws/crates/alpha"),
        member("beta", "/ws/crates/beta"),
        member("gamma", "/ws/crates/gamma"),
    ];
    let selected = select_members(&discovered, &vec!["gamma".into(), "alpha".into()]).unwrap();
    let names: Vec<&str> = selected.iter().map(|m| m.name.as_str()).collect();
    assert_eq!(names, ["alpha", "gamma"], "discovery order, not request order");
}

#[test]
fn select_members_deduplicates_repeated_selections() {
    let discovered = vec![member("alpha", "/ws/a"), member("beta", "/ws/b")];
    let selected = select_members(&discovered, &vec!["alpha".into(), "alpha".into()]).unwrap();
    assert_eq!(selected.len(), 1);
}

#[test]
fn select_members_rejects_unknown_names_listing_available() {
    let discovered = vec![member("alpha", "/ws/a"), member("beta", "/ws/b")];
    let err = select_members(&discovered, &vec!["alpha".into(), "zeta".into()]).unwrap_err();
    assert!(err.contains("unknown package(s): zeta"), "got: {err}");
    assert!(err.contains("available workspace members: alpha, beta"), "got: {err}");
}

#[test]
fn select_members_lists_unknown_names_sorted_once() {
    let discovered = vec![member("beta", "/ws/b"), member("alpha", "/ws/a")];
    let err = select_members(
        &discovered,
        &vec!["zeta".into(), "omega".into(), "zeta".into()],
    )
    .unwrap_err();
    assert_eq!(
        err,
        "unknown package(s): omega, zeta; available workspace members: alpha, beta"
    );
}

fn root_layout_scope() -> MemberScope {
    let discovered = vec![
        member("rooty", "/ws"),
        member("alpha", "/ws/crates/alpha"),
        member("beta", "/ws/crates/beta"),
    ];
    let selected = vec![member("alpha", "/ws/crates/alpha")];
    MemberScope::new("/ws", &discovered, &selected)
}

#[test]
fn scope_prefix_tier_deepest_member_owns_the_file() {
    let scope = root_layout_scope();
    assert!(scope.is_out_of_scope("/ws/src/lib.rs"));
    assert!(!scope.is_out_of_scope("/ws/crates/alpha/src/lib.rs"));
    assert!(scope.is_out_of_scope("/ws/crates/beta/src/lib.rs"));
}

#[test]
fn scope_window_tier_matches_cross_root_baselines() {
    let scope = root_layout_scope();
    assert!(scope.is_out_of_scope("/ci/build/repo/crates/beta/src/lib.rs"));
    assert!(!scope.is_out_of_scope("/ci/build/repo/crates/alpha/src/lib.rs"));
    assert!(!scope.is_out_of_scope("/ci/build/repo/src/lib.rs"));
}

#[test]
fn scope_window_tie_with_a_selected_member_keeps_the_entry() {
    let discovered = vec![member("frontend", "/ws/frontend"), member("beta", "/ws/beta")];
    let selected = vec![member("frontend", "/ws/frontend")];
    let scope = MemberScope::new("/ws", &discovered, &selected);
    assert!(!scope.is_out_of_scope("/ci/x/frontend/src/beta/mod.rs"));
    assert!(scope.is_out_of_scope("/ci/x/beta/src/lib.rs"));
}

#[test]
fn scope_window_deeper_rel_wins_over_its_parent() {
    let discovered = vec![
        member("parent", "/ws/parent"),
        member("nested", "/ws/parent/nested"),
    ];
    let selected = vec![member("nested", "/ws/parent/nested")];
    let scope = MemberScope::new("/ws", &discovered, &selected);
    assert!(!scope.is_out_of_scope("/ci/r/parent/nested/src/lib.rs"));
    assert!(scope.is_out_of_scope("/ci/r/parent/src/lib.rs"));
}

#[test]
fn scope_normalizes_windows_separators() {
    let scope = root_layout_scope();
    assert!(scope.is_out_of_scope(r"C:\ci\repo\crates\beta\src\lib.rs"));
    assert!(!scope.is_out_of_scope(r"C:\ci\repo\crates\alpha\src\lib.rs"));
}

fn strings(v: &[&str]) -> Vec<String> {
    v.iter().map(|s| s.to_string()).collect()
}

#[test]
fn components_contain_requires_contiguous_full_window() {
    let hay = strings(&["ws", "crates", "beta", "src"]);
    assert!(components_contain(&hay, &strings(&["crates", "beta"])));
    assert!(!components_contain(&hay, &strings(&["crates", "alpha"])));
    assert!(
        !components_contain(&hay, &strings(&["ws", "beta"])),
        "non-contiguous components must not match"
    );
    assert!(!components_contain(&hay, &Vec::new()), "empty window never matches");
}

#[test]
fn nested_member_excludes_covers_only_roots_beneath_this_one() {
    let discovered = vec![
        member("parent", "/ws/parent"),
        member("nested", "/ws/parent/nested"),
        member("deep", "/ws/parent/sub/deep"),
        member("sibling", "/ws/sibling"),
    ];
    let mut globs = nested_member_excludes("/ws/parent", &discovered);
    globs.sort();
    assert_eq!(
        globs,
        ["nested/**", "sub/deep/**"],
        "nested roots excluded relative to the walk root; siblings untouched"
    );
    assert!(
        nested_member_excludes("/ws/sibling", &discovered).is_empty(),
        "a leaf member excludes nothing"
    );
    assert!(
        nested_member_excludes("/ws/parent/nested", &discovered).is_empty(),
        "a member never excludes itself"
    );
}

#[test]
fn resolve_color_truth_table() {
    let cases = [
        ((false, false, false, true), true),
        ((false, false, false, false), false),
        ((false, false, true, true), false),
        ((false, false, true, false), false),
        ((false, true, true, false), true),
        ((false, true, false, false), true),
        ((true, true, false, true), false),
        ((true, false, false, true), false),
    ];
    for ((no_color, force, file, tty), expected) in cases {
        assert_eq!(
            resolve_color(no_color, force, file, tty),
            expected,
            "resolve_color({no_color}, {force}, {file}, {tty})"
        );
    }
}

#[test]
fn require_baseline_only_errs_when_flag_set_without_baseline() {
    let err = require_baseline(true, false, "--show-unchanged").unwrap_err();
    assert!(err.contains("--show-unchanged requires --baseline"));
    assert!(require_baseline(true, true, "--show-unchanged").is_ok());
    assert!(require_baseline(false, false, "--show-unchanged").is_ok());
    assert!(require_baseline(false, true, "--show-unchanged").is_ok());
}

#[test]
fn resolve_bool_cli_wins_then_config_then_false() {
    assert!(resolve_bool(true, Some(false)));
    assert!(resolve_bool(true, None));
    assert!(resolve_bool(false, Some(true)));
    assert!(!resolve_bool(false, Some(false)));
    assert!(!resolve_bool(false, None));
}

#[test]
fn name_glob_classifier_keeps_function_patterns() {
    assert!(!is_path_allow_pattern("trivial"));
    assert!(!is_path_allow_pattern("Foo::*"));
    assert!(!is_path_allow_pattern("generated_*"));
    assert!(!is_path_allow_pattern("*"));
}

#[test]
fn path_glob_classifier_recognizes_path_patterns() {
    assert!(is_path_allow_pattern("src/generated/**"));
    assert!(is_path_allow_pattern("tests/**"));
    assert!(is_path_allow_pattern("**/build.rs"));
    assert!(is_path_allow_pattern("a/b"));
}

#[test]
fn effective_excludes_defaults_to_builtin_list() {
    let out = effective_excludes(false, None, vec![], vec![]);
    assert_eq!(out, strings(&["tests/**", "benches/**", "examples/**"]));
}

#[test]
fn effective_excludes_config_replaces_builtin_list() {
    let out = effective_excludes(false, Some(strings(&["benches/**", "examples/**"])), vec![], vec![]);
    assert_eq!(out, strings(&["benches/**", "examples/**"]));
}

#[test]
fn effective_excludes_empty_config_list_disables_defaults() {
    let out = effective_excludes(false, Some(vec![]), vec![], vec![]);
    assert!(out.is_empty());
}

#[test]
fn effective_excludes_flag_overrides_config_replacement() {
    let out = effective_excludes(true, Some(strings(&["tests/**"])), vec![], vec![]);
    assert!(out.is_empty());
}

#[test]
fn effective_excludes_user_globs_append_never_replace() {
    let out = effective_excludes(
        false,
        None,
        strings(&["src/legacy/**"]),
        strings(&["src/generated/**"]),
    );
    assert_eq!(
        out,
        strings(&[
            "tests/**",
            "benches/**",
            "examples/**",
            "src/legacy/**",
            "src/generated/**",
        ])
    );
}

#[test]
fn strip_cargo_subcommand_drops_only_the_inserted_token() {
    assert_eq!(
        strip_cargo_subcommand(strings(&["cargo-crap", "crap", "--lcov", "x"])),
        strings(&["cargo-crap", "--lcov", "x"])
    );
    assert_eq!(
        strip_cargo_subcommand(strings(&["cargo-crap", "--lcov", "crap"])),
        strings(&["cargo-crap", "--lcov", "crap"])
    );
    assert_eq!(strip_cargo_subcommand(strings(&["cargo-crap"])), strings(&["cargo-crap"]));
}

#[test]
fn parent_dir_drops_the_last_component() {
    assert_eq!(parent_dir("/ws/crates/alpha/Cargo.toml").as_deref(), Some("/ws/crates/alpha"));
    assert_eq!(parent_dir("/Cargo.toml").as_deref(), Some("/"));
    assert_eq!(parent_dir("Cargo.toml").as_deref(), Some(""));
    assert_eq!(parent_dir("/"), None);
    assert_eq!(parent_dir(""), None);
}

#[test]
fn members_from_packages_needs_a_readable_package() {
    let packages = vec![PackageRecord {
        name: Some("alpha".into()),
        manifest_path: Some("/ws/crates/alpha/Cargo.toml".into()),
    }];
    let members = members_from_packages(&packages).unwrap();
    assert_eq!(members.len(), 1);
    assert_eq!(members[0].dir, "/ws/crates/alpha");
    let err = members_from_packages(&Vec::new()).unwrap_err();
    assert!(err.contains("no packages"), "got: {err}");
    let unreadable = vec![
        PackageRecord {
            name: None,
            manifest_path: Some("/ws/a/Cargo.toml".into()),
        },
        PackageRecord {
            name: Some("b".into()),
            manifest_path: None,
        },
    ];
    assert!(members_from_packages(&unreadable).is_err());
}

#[test]
fn workspace_plan_walks_every_member_with_nested_roots_excluded() {
    let discovered = vec![
        member("parent", "/ws/parent"),
        member("nested", "/ws/parent/nested"),
        member("sibling", "/ws/sibling"),
    ];
    let plan = cargo_crap::workspace::plan_workspace("/ws", &discovered, &Vec::new(), &strings(&["tests/**"])).unwrap();
    assert_eq!(plan.members.len(), 3);
    assert!(plan.scope.is_none(), "--workspace runs keep every baseline entry");
    assert_eq!(plan.walks[0].dir, "/ws/parent");
    assert_eq!(plan.walks[0].excludes, strings(&["tests/**", "nested/**"]));
    assert_eq!(plan.walks[1].excludes, strings(&["tests/**"]));
    assert_eq!(plan.walks[2].excludes, strings(&["tests/**"]));

    let plan = cargo_crap::workspace::plan_workspace("/ws", &discovered, &strings(&["sibling"]), &Vec::new()).unwrap();
    assert_eq!(plan.members.len(), 1);
    assert_eq!(plan.walks[0].dir, "/ws/sibling");
    let scope = plan.scope.expect("-p runs scope the baseline");
    assert!(scope.is_out_of_scope("/ws/parent/src/lib.rs"));
    assert!(!scope.is_out_of_scope("/ws/sibling/src/lib.rs"));

    let err = cargo_crap::workspace::plan_workspace("/ws", &discovered, &strings(&["nope"]), &Vec::new()).unwrap_err();
    assert!(err.contains("unknown package(s): nope"), "got: {err}");
}

#[test]
fn parent_dir_splits_back_into_all_but_the_last_component() {
    let d = parent_dir("a//b/./c").unwrap();
    assert_eq!(d, "a/b");
    assert_eq!(
        cargo_crap::paths::components(&d),
        vec!["a".to_string(), "b".to_string()]
    );
}

#[test]
fn parse_workspace_metadata_extracts_root_and_members() {
    let json = r#"{"workspace_root": "/ws", "packages": [{"name": "alpha", "manifest_path": "/ws/crates/alpha/Cargo.toml"}]}"#;
    let (root, members) = parse_workspace_metadata(json.as_bytes()).unwrap();
    assert_eq!(root, "/ws");
    assert_eq!(members.len(), 1);
    assert_eq!(members[0].name, "alpha");
    assert_eq!(members[0].dir, "/ws/crates/alpha");
}

#[test]
fn parse_workspace_metadata_rejects_missing_root_and_empty_packages() {
    let no_root = r#"{"packages": []}"#;
    let err = parse_workspace_metadata(no_root.as_bytes()).unwrap_err();
    assert!(err.contains("workspace_root"), "got: {err}");

    let empty = r#"{"workspace_root": "/ws", "packages": []}"#;
    let err = parse_workspace_metadata(empty.as_bytes()).unwrap_err();
    assert!(err.contains("no packages"), "got: {err}");
}

#[test]
fn parse_workspace_metadata_names_each_failure() {
    let err = parse_workspace_metadata(b"not json").unwrap_err();
    assert!(err.starts_with("parsing `cargo metadata` output: "), "got: {err}");
    let err = parse_workspace_metadata(br#"{"workspace_root": "/ws"}"#).unwrap_err();
    assert_eq!(err, "`cargo metadata` output missing `packages`");
    let err = parse_workspace_metadata(br#"{"workspace_root": 3, "packages": []}"#).unwrap_err();
    assert_eq!(err, "`cargo metadata` output missing `workspace_root`");
    let json = br#"{"workspace_root": "/ws", "packages": [{"name": 1, "manifest_path": "/ws/a/Cargo.toml"}, {"name": "b", "manifest_path": "/ws/b/Cargo.toml"}]}"#;
    let (_, members) = parse_workspace_metadata(json).unwrap();
    assert_eq!(members.len(), 1);
    assert_eq!(members[0].name, "b");
    assert_eq!(members[0].dir, "/ws/b");
}
