use cargo_crap::delta::{count_status, pair_entries, path_key, visible_rows, DeltaStatus, EntryKey};

fn key(file: &str, function: &str) -> EntryKey {
    EntryKey {
        file: file.to_string(),
        function: function.to_string(),
    }
}

#[test]
fn path_key_normalizes_separators() {
    assert_eq!(path_key(r"src\a.rs"), "src/a.rs");
    assert_eq!(path_key("src/a.rs"), "src/a.rs");
}

#[test]
fn new_when_not_in_baseline() {
    let p = pair_entries(&vec![key("src/a.rs", "foo")], &Vec::new());
    assert_eq!(p.partner, vec![None]);
    assert!(p.removed.is_empty());
}

#[test]
fn removed_entries_identified() {
    let current = vec![key("src/a.rs", "kept")];
    let baseline = vec![key("src/a.rs", "kept"), key("src/a.rs", "gone")];
    let p = pair_entries(&current, &baseline);
    assert_eq!(p.partner, vec![Some(0)]);
    assert_eq!(p.removed, vec![1]);
}

#[test]
fn empty_baseline_marks_everything_new() {
    let current = vec![key("a.rs", "f"), key("b.rs", "g")];
    let p = pair_entries(&current, &Vec::new());
    assert_eq!(p.partner, vec![None, None]);
}

#[test]
fn functions_in_different_files_are_not_matched() {
    // The key pass never pairs across files; the function moved, so the
    // second pass pairs it by name and nothing is removed.
    let current = vec![key("src/lib.rs", "foo")];
    let baseline = vec![key("src/main.rs", "foo")];
    let p = pair_entries(&current, &baseline);
    assert_eq!(p.partner, vec![None]);
    assert_eq!(p.previous, vec![Some(0)]);
    assert!(p.removed.is_empty());
}

#[test]
fn backslash_paths_match_forward_slash_baseline() {
    let current = vec![key(r"src\a.rs", "foo")];
    let baseline = vec![key("src/a.rs", "foo")];
    let p = pair_entries(&current, &baseline);
    assert_eq!(p.partner, vec![Some(0)]);
    assert!(p.removed.is_empty());
}

#[test]
fn a_repeated_baseline_key_pairs_with_its_last_entry() {
    let current = vec![key("a.rs", "f")];
    let baseline = vec![key("a.rs", "f"), key("b.rs", "g"), key("a.rs", "f")];
    let p = pair_entries(&current, &baseline);
    assert_eq!(p.partner, vec![Some(2)]);
    assert_eq!(p.removed, vec![1]);
}

#[test]
fn regression_count_is_accurate() {
    let statuses = vec![
        DeltaStatus::Regressed,
        DeltaStatus::Unchanged,
        DeltaStatus::Regressed,
        DeltaStatus::New,
        DeltaStatus::Improved,
    ];
    assert_eq!(count_status(&statuses, DeltaStatus::Regressed), 2);
    assert_eq!(count_status(&statuses, DeltaStatus::Unchanged), 1);
    assert_eq!(count_status(&Vec::new(), DeltaStatus::New), 0);
}

#[test]
fn unchanged_rows_are_hidden_unless_requested() {
    let statuses = vec![
        DeltaStatus::Unchanged,
        DeltaStatus::Regressed,
        DeltaStatus::Unchanged,
        DeltaStatus::New,
        DeltaStatus::Improved,
    ];
    assert_eq!(visible_rows(&statuses, false), vec![1, 3, 4]);
    assert_eq!(visible_rows(&statuses, true), vec![0, 1, 2, 3, 4]);
    assert!(visible_rows(&vec![DeltaStatus::Unchanged], false).is_empty());
}

#[test]
fn path_key_is_stable_under_renormalization() {
    for p in [r"a\b\c.rs", "a/b/c.rs", r"\\server\share", ""] {
        let once = path_key(p);
        assert_eq!(path_key(&once), once);
        assert!(!once.contains('\\'));
    }
}

#[test]
fn a_function_moved_between_files_pairs_with_its_old_entry() {
    let current = vec![key("src/new.rs", "render"), key("src/a.rs", "kept")];
    let baseline = vec![key("src/a.rs", "kept"), key("src/old.rs", "render")];
    let p = pair_entries(&current, &baseline);
    assert_eq!(p.partner, vec![None, Some(0)]);
    assert_eq!(p.previous, vec![Some(1), None]);
    assert!(p.removed.is_empty());
}

#[test]
fn an_ambiguous_name_is_not_treated_as_a_move() {
    let current = vec![key("src/new.rs", "render")];
    let baseline = vec![key("src/old.rs", "render"), key("src/older.rs", "render")];
    let p = pair_entries(&current, &baseline);
    assert_eq!(p.partner, vec![None]);
    assert_eq!(p.previous, vec![None]);
    assert_eq!(p.removed, vec![0, 1]);

    let current = vec![key("src/x.rs", "render"), key("src/y.rs", "render")];
    let baseline = vec![key("src/old.rs", "render")];
    let p = pair_entries(&current, &baseline);
    assert_eq!(p.previous, vec![None, None]);
    assert_eq!(p.removed, vec![0]);
}

#[test]
fn a_key_partner_wins_over_a_move() {
    let current = vec![key("src/a.rs", "f"), key("src/b.rs", "g")];
    let baseline = vec![key("src/a.rs", "f"), key("src/c.rs", "f")];
    let p = pair_entries(&current, &baseline);
    assert_eq!(p.partner, vec![Some(0), None]);
    assert_eq!(p.previous, vec![None, None]);
    assert_eq!(p.removed, vec![1]);
}

#[test]
fn moved_entries_are_counted() {
    let statuses = vec![DeltaStatus::Moved, DeltaStatus::Unchanged, DeltaStatus::Moved];
    assert_eq!(count_status(&statuses, DeltaStatus::Moved), 2);
    assert_eq!(visible_rows(&statuses, false), vec![0, 2]);
}
