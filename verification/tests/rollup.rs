use cargo_crap::report::rollup::{crate_rollups, has_crate_data, write_per_crate_markdown, CrateRollup};

fn tags(v: &[Option<&str>]) -> Vec<Option<String>> {
    v.iter().map(|t| t.map(|s| s.to_string())).collect()
}

#[test]
fn crate_rollups_aggregate_per_crate() {
    let rollups = crate_rollups(
        &tags(&[Some("alpha"), Some("alpha"), Some("beta")]),
        &vec![false, true, false],
    );
    assert_eq!(rollups.len(), 2);
    assert_eq!(rollups[0].name, "alpha");
    assert_eq!(rollups[0].total, 2);
    assert_eq!(rollups[0].crappy, 1);
    assert_eq!(rollups[1].name, "beta");
    assert_eq!(rollups[1].total, 1);
    assert_eq!(rollups[1].crappy, 0);
}

#[test]
fn crate_rollups_ignore_untagged_entries() {
    let rollups = crate_rollups(&tags(&[None, Some("alpha")]), &vec![true, false]);
    assert_eq!(rollups.len(), 1);
    assert_eq!(rollups[0].name, "alpha");
    assert_eq!(rollups[0].crappy, 0);
}

#[test]
fn crate_rollups_are_sorted_by_name_whatever_the_input_order() {
    let rollups = crate_rollups(
        &tags(&[Some("zeta"), Some("beta"), Some("alpha"), Some("beta"), Some("zeta")]),
        &vec![true, true, false, false, true],
    );
    let rows: Vec<(&str, usize, usize)> = rollups.iter().map(|r| (r.name.as_str(), r.total, r.crappy)).collect();
    assert_eq!(rows, [("alpha", 1, 0), ("beta", 2, 1), ("zeta", 2, 2)]);
}

#[test]
fn has_crate_data_detects_any_tagged_entry() {
    assert!(!has_crate_data(&tags(&[None, None])));
    assert!(has_crate_data(&tags(&[None, Some("alpha")])));
    assert!(!has_crate_data(&Vec::new()));
}

#[test]
fn write_per_crate_markdown_emits_gfm_table() {
    let rollups = vec![CrateRollup {
        name: "alpha".into(),
        total: 1,
        crappy: 0,
    }];
    let mut s = String::new();
    write_per_crate_markdown(&mut s, &rollups);
    assert_eq!(
        s,
        "## Per-crate summary\n\n| Crate | Functions | Crappy |\n|---|---:|---:|\n| alpha | 1 | 0 |\n\n"
    );
    let mut none = String::new();
    write_per_crate_markdown(&mut none, &Vec::new());
    assert!(none.is_empty(), "no per-crate output without crate data");
}
