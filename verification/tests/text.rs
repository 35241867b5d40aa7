use boxy::ops::fallback_upload_name;
use boxy::text::{decimal_string, join_segments, prefix_join, sanitize_name, split_stem_ext};

#[test]
fn decimal_rendering() {
    assert_eq!(decimal_string(0), "0");
    assert_eq!(decimal_string(7), "7");
    assert_eq!(decimal_string(10), "10");
    assert_eq!(decimal_string(90210), "90210");
    assert_eq!(decimal_string(u64::MAX), "18446744073709551615");
}

#[test]
fn sanitize_replaces_separators_and_nul() {
    assert_eq!(sanitize_name("a/b\\c\u{0}d"), "a_b_c_d");
    assert_eq!(sanitize_name("plain.txt"), "plain.txt");
    assert_eq!(sanitize_name(""), "");
}

#[test]
fn stem_and_extension_follow_the_last_dot() {
    assert_eq!(split_stem_ext("archive.tar.gz"), ("archive.tar".to_string(), Some("gz".to_string())));
    assert_eq!(split_stem_ext("readme"), ("readme".to_string(), None));
    assert_eq!(split_stem_ext(".bashrc"), (".bashrc".to_string(), None));
    assert_eq!(split_stem_ext("trailing."), ("trailing".to_string(), Some("".to_string())));
}

#[test]
fn joining_paths() {
    let dir = "docs".to_string();
    assert_eq!(prefix_join(Some(&dir), "a.txt"), "docs/a.txt");
    assert_eq!(prefix_join(None, "a.txt"), "a.txt");
    let v = vec!["a".to_string(), "b".to_string(), "c".to_string()];
    assert_eq!(join_segments(&v), "a/b/c");
    assert_eq!(join_segments(&vec![]), "");
}

#[test]
fn fallback_name_is_fresh_and_safe() {
    let a = fallback_upload_name();
    let b = fallback_upload_name();
    assert!(a.starts_with("file_"));
    assert_eq!(a.chars().count(), 41);
    assert!(!a.contains('/'));
    assert_ne!(a, b);
}
