use litebox::path::{join_components, normalized_components};

fn comps(p: &str) -> Vec<String> {
    normalized_components(p)
}

#[test]
fn canonical_path_is_unchanged() {
    for p in ["", "/a", "/a/b", "/usr/local/bin"] {
        assert_eq!(join_components(&comps(p)), p);
    }
}

#[test]
fn redundant_separators_and_dots_are_dropped() {
    assert_eq!(comps("/a/b"), vec!["a".to_string(), "b".to_string()]);
    assert_eq!(comps("//a///b//"), comps("/a/b"));
    assert_eq!(comps("/./a/./././b/."), comps("/a/b"));
    assert_eq!(join_components(&comps("a//./b")), "/a/b");
}

#[test]
fn dot_dot_pops_and_stops_at_root() {
    assert_eq!(join_components(&comps("/a/b/../c")), "/a/c");
    assert_eq!(join_components(&comps("/../../a")), "/a");
    assert_eq!(join_components(&comps("/a/..")), "");
    assert!(comps("..").is_empty());
}

#[test]
fn names_with_dots_are_kept() {
    assert_eq!(comps("/.x/..y/a.b/.../"), vec![".x".to_string(), "..y".to_string(), "a.b".to_string(), "...".to_string()]);
}
