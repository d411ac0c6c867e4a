use cargo_crap::filters::{
    assign_crate_names, build_allow_set, build_path_set, name_set_matches, partition_allow,
    path_set_matches_suffix, AllowFilter, BaselineFilter, FilterError,
};
use cargo_crap::workspace::WorkspaceMember;

fn strs(v: &[&str]) -> Vec<String> {
    v.iter().map(|s| s.to_string()).collect()
}

fn kept<'a>(filter: &BaselineFilter, entries: &[(&'a str, &'a str)]) -> Vec<&'a str> {
    entries
        .iter()
        .filter(|(file, function)| filter.retains(file, function))
        .map(|(_, function)| *function)
        .collect()
}

#[test]
fn path_set_matches_relative_pattern_against_absolute_file() {
    let set = build_path_set(&strs(&["src/generated/**"]), "allow").unwrap();
    assert!(path_set_matches_suffix(&set, "/home/u/project/src/generated/foo.rs"));
}

#[test]
fn path_set_does_not_match_unrelated_file() {
    let set = build_path_set(&strs(&["src/generated/**"]), "allow").unwrap();
    assert!(!path_set_matches_suffix(&set, "/home/u/project/src/main.rs"));
}

#[test]
fn empty_path_set_is_no_op() {
    let set = build_path_set(&Vec::new(), "allow").unwrap();
    assert!(!path_set_matches_suffix(&set, "any/path.rs"));
}

#[test]
fn path_set_respects_literal_separator() {
    let set = build_path_set(&strs(&["src/*"]), "allow").unwrap();
    assert!(!path_set_matches_suffix(&set, "/abs/proj/src/generated/foo.rs"));
    assert!(path_set_matches_suffix(&set, "/abs/proj/src/foo.rs"));
}

#[test]
fn name_globs_cross_path_separators() {
    let set = build_allow_set(&strs(&["Foo::*"])).unwrap();
    assert!(name_set_matches(&set, "Foo::bar"));
    assert!(!name_set_matches(&set, "Bar::foo"));
}

#[test]
fn invalid_patterns_name_the_option_and_the_pattern() {
    match build_path_set(&strs(&["ok/**", "src/[", "also/[bad"]), "exclude") {
        Err(FilterError::InvalidPattern { what, pattern, cause }) => {
            assert_eq!(what, "exclude");
            assert_eq!(pattern, "src/[", "the first bad pattern is reported");
            assert!(!cause.is_empty());
        },
        Err(other) => panic!("expected an invalid-pattern error, got {other:?}"),
        Ok(_) => panic!("expected an invalid-pattern error, got a glob set"),
    }
    match build_allow_set(&strs(&["a{b"])) {
        Err(FilterError::InvalidPattern { what, pattern, .. }) => {
            assert_eq!(what, "allow");
            assert_eq!(pattern, "a{b");
        },
        Err(other) => panic!("expected an invalid-pattern error, got {other:?}"),
        Ok(_) => panic!("expected an invalid-pattern error, got a glob set"),
    }
}

#[test]
fn allow_patterns_split_by_shape() {
    let (paths, names) = partition_allow(&strs(&["trivial", "src/gen/**", "Foo::*", "**/build.rs"]));
    assert_eq!(paths, strs(&["src/gen/**", "**/build.rs"]));
    assert_eq!(names, strs(&["trivial", "Foo::*"]));
}

#[test]
fn allow_filter_drops_on_either_match() {
    let f = AllowFilter::new(&strs(&["generated_*", "src/vendor/**"])).unwrap();
    assert!(!f.keeps("src/lib.rs", "generated_parse"));
    assert!(!f.keeps("/abs/src/vendor/x.rs", "parse"));
    assert!(f.keeps("src/lib.rs", "parse"));
    let none = AllowFilter::new(&Vec::new()).unwrap();
    assert!(none.keeps("src/vendor/x.rs", "generated_parse"));
}

#[test]
fn baseline_filter_drops_root_level_target_dirs() {
    let filter = BaselineFilter::new(
        &strs(&["tests/**", "benches/**", "examples/**"]),
        &Vec::new(),
        strs(&["."]),
    )
    .unwrap();
    let entries = [
        ("./src/lib.rs", "kept"),
        ("./tests/integration.rs", "test_helper"),
        ("benches/bench.rs", "bench_helper"),
        ("examples/demo.rs", "example_helper"),
    ];
    assert_eq!(kept(&filter, &entries), ["kept"]);
}

#[test]
fn baseline_filter_keeps_nested_tests_dir_inside_src() {
    let filter = BaselineFilter::new(&strs(&["tests/**"]), &Vec::new(), strs(&["."])).unwrap();
    let entries = [("./src/tests/helpers.rs", "nested_helper")];
    assert_eq!(kept(&filter, &entries), ["nested_helper"]);
}

#[test]
fn baseline_filter_normalizes_backslash_paths() {
    let filter = BaselineFilter::new(&strs(&["tests/**"]), &Vec::new(), strs(&["."])).unwrap();
    let entries = [("tests\\integration.rs", "test_helper")];
    assert!(kept(&filter, &entries).is_empty(), "backslash path must match tests/**");
}

#[test]
fn baseline_filter_strips_longest_member_root_first() {
    let filter = BaselineFilter::new(
        &strs(&["tests/**"]),
        &Vec::new(),
        strs(&["crates/foo", "crates/foo/sub"]),
    )
    .unwrap();
    let entries = [
        ("crates/foo/tests/it.rs", "member_test"),
        ("crates/foo/sub/tests/it.rs", "nested_member_test"),
        ("crates/foo/src/lib.rs", "kept"),
    ];
    assert_eq!(kept(&filter, &entries), ["kept"]);
}

#[test]
fn baseline_filter_applies_name_allow_patterns() {
    let filter = BaselineFilter::new(&Vec::new(), &strs(&["generated_*"]), strs(&["."])).unwrap();
    let entries = [("src/codegen.rs", "generated_parse_v1"), ("src/lib.rs", "kept")];
    assert_eq!(kept(&filter, &entries), ["kept"]);
}

#[test]
fn baseline_filter_applies_path_allow_patterns() {
    let filter = BaselineFilter::new(&Vec::new(), &strs(&["src/generated/**"]), strs(&["."])).unwrap();
    let entries = [("/abs/proj/src/generated/api.rs", "dropped"), ("/abs/proj/src/lib.rs", "kept")];
    assert_eq!(kept(&filter, &entries), ["kept"]);
}

#[test]
fn baseline_filter_with_no_patterns_is_a_no_op() {
    let filter = BaselineFilter::new(&Vec::new(), &Vec::new(), strs(&["."])).unwrap();
    let entries = [("tests/integration.rs", "test_helper"), ("src/lib.rs", "lib_fn")];
    assert_eq!(kept(&filter, &entries), ["test_helper", "lib_fn"]);
}

#[test]
fn baseline_filter_reports_bad_exclude_patterns() {
    let err = BaselineFilter::new(&strs(&["src/["]), &Vec::new(), strs(&["."])).err().unwrap();
    assert!(matches!(err, FilterError::InvalidPattern { ref what, .. } if what == "exclude"));
}

fn member(name: &str, dir: &str) -> WorkspaceMember {
    WorkspaceMember {
        name: name.into(),
        dir: dir.into(),
    }
}

#[test]
fn deepest_member_claims_the_file() {
    let members = vec![
        member("outer", "/ws/crates/outer"),
        member("inner", "/ws/crates/outer/inner"),
        member("other", "/ws/crates/other"),
    ];
    let files = strs(&[
        "/ws/crates/outer/inner/src/lib.rs",
        "/ws/crates/outer/src/lib.rs",
        "/ws/crates/otherwise/src/lib.rs",
        "/elsewhere/x.rs",
    ]);
    let names = assign_crate_names(&files, &members);
    assert_eq!(
        names,
        vec![Some("inner".to_string()), Some("outer".to_string()), None, None]
    );
    assert_eq!(assign_crate_names(&files, &Vec::new()), vec![None, None, None, None]);
}

#[test]
fn exclude_form_keeps_the_raw_remainder() {
    let filter = BaselineFilter::new(&strs(&["src/*.rs"]), &Vec::new(), strs(&["/ws"])).unwrap();
    assert!(filter.is_excluded("/ws/src/a.rs"));
    assert!(filter.is_excluded("/ws/./src/a.rs"));
    assert!(!filter.is_excluded("/ws/src//a.rs"), "a doubled separator stays in the remainder");
}

#[test]
fn remainder_after_trims_only_the_ends() {
    assert_eq!(cargo_crap::paths::remainder_after("/ws/./src//a.rs/", 2), "src//a.rs");
    assert_eq!(cargo_crap::paths::remainder_after("./x/./y", 2), "y");
    assert_eq!(cargo_crap::paths::remainder_after("a/b/./c", 1), "b/./c");
    assert_eq!(cargo_crap::paths::remainder_after("/ws", 2), "");
    assert_eq!(cargo_crap::paths::remainder_after("x//y", 0), "x//y");
}
