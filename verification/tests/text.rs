use cargo_crap::paths::{components, path_has_suffix, path_less, path_starts_with};
use cargo_crap::text::{contains_char, contains_double, decimal_string, replace_backslashes, same_text};

#[test]
fn decimal_prints_like_display() {
    for n in [0usize, 7, 10, 42, 1000, 123456789, usize::MAX] {
        assert_eq!(decimal_string(n), n.to_string());
    }
}

#[test]
fn backslashes_become_forward_slashes() {
    assert_eq!(replace_backslashes(r"C:\a\b"), "C:/a/b");
    assert_eq!(replace_backslashes("no/change"), "no/change");
}

#[test]
fn components_follow_unix_rules() {
    assert_eq!(components("/a//b/./c/"), vec!["/", "a", "b", "c"]);
    assert_eq!(components("./src/lib.rs"), vec![".", "src", "lib.rs"]);
    assert_eq!(components("a/../b"), vec!["a", "..", "b"]);
    assert!(components("").is_empty());
}

#[test]
fn suffix_and_prefix_are_component_wise() {
    assert!(path_has_suffix("/p/foo/bar.rs", "foo/bar.rs"));
    assert!(!path_has_suffix("/p/oofoo/bar.rs", "foo/bar.rs"));
    assert!(path_starts_with("/ws/crates/a/src/lib.rs", "/ws/crates"));
    assert!(!path_starts_with("/ws/crates-x/a.rs", "/ws/crates"));
}

#[test]
fn path_order_is_component_order() {
    assert!(path_less("/z", "a"));
    assert!(path_less("a/b", "a-b"));
    assert!(!path_less("a", "a"));
}

#[test]
fn text_predicates() {
    assert!(same_text("abc", "abc"));
    assert!(!same_text("abc", "abd"));
    assert!(contains_char("a/b", '/'));
    assert!(!contains_char("ab", '/'));
    assert!(contains_double("a**b", '*'));
    assert!(!contains_double("a*b*", '*'));
}
