use prompt_vault::normalize_close_behavior;
use prompt_vault::paths::{
    basename, ensure_within_root, join_path, normalize_category_path, parent_path, resolve_path,
    should_skip_dir, temp_path,
};
use prompt_vault::slug::title_to_slug;
use prompt_vault::strutil::u64_to_string;

#[test]
fn slug_of_simple_title() {
    assert_eq!(title_to_slug("Hello World"), "hello_world");
}

#[test]
fn slug_trims_and_filters() {
    assert_eq!(title_to_slug("  My Plan!  "), "my_plan");
    assert_eq!(title_to_slug("a-b_c9"), "a-b_c9");
}

#[test]
fn slug_falls_back_when_empty() {
    assert_eq!(title_to_slug(""), "prompt");
    assert_eq!(title_to_slug("!!!"), "prompt");
    assert_eq!(title_to_slug("你好"), "prompt");
}

#[test]
fn slug_charset_holds() {
    let s = title_to_slug("Très Élégant 2024");
    assert!(!s.is_empty());
    for c in s.chars() {
        assert!(c.is_ascii_lowercase() || c.is_ascii_digit() || c == '_' || c == '-');
    }
}

#[test]
fn resolve_absolute_and_relative() {
    assert_eq!(resolve_path("/root", "/abs/p"), "/abs/p");
    assert_eq!(resolve_path("/root", "Coding"), "/root/Coding");
    assert_eq!(join_path("/root/", "x"), "/root/x");
    assert_eq!(join_path("", "x"), "x");
}

#[test]
fn containment_is_a_prefix_check() {
    assert!(ensure_within_root("/root/a/b", "/root").is_ok());
    assert!(ensure_within_root("/root", "/root").is_ok());
    assert!(ensure_within_root("/other/a", "/root").is_err());
    assert!(ensure_within_root("/roo", "/root").is_err());
}

#[test]
fn category_path_unifier() {
    assert_eq!(normalize_category_path("C:\\data\\vault\\Coding"), "Coding");
    assert_eq!(normalize_category_path("/home/me/vault/Work/Sub"), "Work/Sub");
    assert_eq!(normalize_category_path("/home/me/VAULT/Work"), "Work");
    assert_eq!(normalize_category_path("plain"), "plain");
    assert_eq!(normalize_category_path("C:plain"), "plain");
    assert_eq!(normalize_category_path("///lead"), "lead");
    assert_eq!(normalize_category_path(""), "");
}

#[test]
fn temp_path_replaces_extension() {
    assert_eq!(temp_path("/v/doc/meta.json"), "/v/doc/meta.tmp");
    assert_eq!(temp_path("/v/doc/prompt"), "/v/doc/prompt.tmp");
    assert_eq!(temp_path("/v/trash/.trash-visits.json"), "/v/trash/.trash-visits.tmp");
    assert_eq!(temp_path("/v/.hidden"), "/v/.hidden.tmp");
}

#[test]
fn basename_and_parent() {
    assert_eq!(basename("/a/b/c"), "c");
    assert_eq!(basename("c"), "c");
    assert_eq!(parent_path("/a/b/c"), "/a/b");
    assert_eq!(parent_path("c"), "");
}

#[test]
fn scanner_skips_reserved_names() {
    assert!(should_skip_dir(".git"));
    assert!(should_skip_dir("trash"));
    assert!(should_skip_dir("assets"));
    assert!(!should_skip_dir("Coding"));
    assert!(!should_skip_dir("trash2"));
}

#[test]
fn close_behavior_normalises() {
    assert_eq!(normalize_close_behavior("exit"), "exit");
    assert_eq!(normalize_close_behavior("minimize"), "minimize");
    assert_eq!(normalize_close_behavior("anything"), "minimize");
}

#[test]
fn decimal_rendering() {
    assert_eq!(u64_to_string(0), "0");
    assert_eq!(u64_to_string(7), "7");
    assert_eq!(u64_to_string(40301), "40301");
}
