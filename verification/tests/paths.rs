use uasset_deps::pathseg::{
    concat_path, concat_str, has_uasset_ext, join_path_range, last_segment,
    prefix_through_segment, split_path, str_ends_with, str_equal, str_starts_with,
    strip_path_prefix, vec_contains_str,
};

#[test]
fn split_keeps_every_segment() {
    let parts = split_path("/proj/Content/Foo.uasset");
    assert_eq!(parts, vec!["", "proj", "Content", "Foo.uasset"]);
}

#[test]
fn split_of_relative_path() {
    let parts = split_path("a/b");
    assert_eq!(parts, vec!["a", "b"]);
}

#[test]
fn split_keeps_empty_segments() {
    let parts = split_path("/a//b/");
    assert_eq!(parts, vec!["", "a", "", "b", ""]);
}

#[test]
fn split_of_empty_string_is_one_empty_segment() {
    let parts = split_path("");
    assert_eq!(parts, vec![""]);
}

#[test]
fn join_restores_the_split() {
    let parts = split_path("/proj/Content/Foo.uasset");
    let n = parts.len();
    let joined = join_path_range(&parts, 0, n);
    assert_eq!(joined, "/proj/Content/Foo.uasset");
}

#[test]
fn join_of_a_middle_range() {
    let parts = split_path("/a/b/c/d");
    assert_eq!(join_path_range(&parts, 1, 3), "a/b");
}

#[test]
fn last_segment_is_the_file_name() {
    assert_eq!(last_segment("/proj/Content/Foo.uasset"), "Foo.uasset");
    assert_eq!(last_segment("Foo.uasset"), "Foo.uasset");
    assert_eq!(last_segment("/a/b/"), "");
}

#[test]
fn uasset_extension_requires_a_stem() {
    assert!(has_uasset_ext("/proj/Content/Foo.uasset"));
    assert!(has_uasset_ext("a.b.uasset"));
    assert!(!has_uasset_ext("/proj/Content/.uasset"));
    assert!(!has_uasset_ext("/proj/Content/Foo.txt"));
    assert!(!has_uasset_ext("/proj/Content/Foo.UASSET"));
}

#[test]
fn prefix_through_stops_at_the_named_segment() {
    assert_eq!(prefix_through_segment("/ue/Engine/Content/A.uasset", "Engine"), "/ue/Engine");
    assert_eq!(
        prefix_through_segment("/proj/Plugins/SomePlugin/Content/F.uasset", "Plugins"),
        "/proj/Plugins"
    );
}

#[test]
fn prefix_through_takes_the_first_match() {
    assert_eq!(prefix_through_segment("/a/Engine/b/Engine/c", "Engine"), "/a/Engine");
}

#[test]
fn prefix_through_appends_when_absent() {
    assert_eq!(prefix_through_segment("/a/b", "Engine"), "/a/b/Engine");
}

#[test]
fn prefix_through_of_a_final_segment_is_the_path() {
    assert_eq!(prefix_through_segment("/a/Engine", "Engine"), "/a/Engine");
}

#[test]
fn strip_prefix_removes_a_leading_directory() {
    assert_eq!(strip_path_prefix("/proj/Content/A.uasset", "/proj"), Some("Content/A.uasset".to_string()));
    assert_eq!(strip_path_prefix("/proj", "/proj"), Some("".to_string()));
    assert_eq!(strip_path_prefix("/project/A", "/proj"), None);
    assert_eq!(strip_path_prefix("/other/A", "/proj"), None);
}

#[test]
fn string_predicates() {
    assert!(str_ends_with("/Game/Foo.uasset", ".uasset"));
    assert!(!str_ends_with("x", ".uasset"));
    assert!(str_starts_with("/proj/Content", "/proj/"));
    assert!(!str_starts_with("/pr", "/proj/"));
    assert!(str_equal("abc", "abc"));
    assert!(!str_equal("abc", "abd"));
    assert!(!str_equal("abc", "ab"));
}

#[test]
fn concat_helpers() {
    assert_eq!(concat_str("ab", "cd"), "abcd");
    assert_eq!(concat_path("/a", "b/c"), "/a/b/c");
}

#[test]
fn vector_membership_by_content() {
    let v = vec!["a".to_string(), "b".to_string()];
    assert!(vec_contains_str(&v, &"b".to_string()));
    assert!(!vec_contains_str(&v, &"c".to_string()));
}
