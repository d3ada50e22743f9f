//! Tests for truncation, interactive-flag resolution, and counting.

use qstack::ui::{truncate, count_by, count_by_many, InteractiveArgs};

#[test]
fn test_truncate_ascii() {
    assert_eq!(truncate("hello", 10), "hello");
    assert_eq!(truncate("hello world", 5), "hell…");
    assert_eq!(truncate("abc", 3), "abc");
    assert_eq!(truncate("abcd", 3), "ab…");
}

#[test]
fn test_truncate_utf8_no_truncation() {
    // No truncation needed - should return as-is
    assert_eq!(truncate("日本語", 5), "日本語");
    assert_eq!(truncate("über", 10), "über");
    assert_eq!(truncate("한글", 3), "한글");
}

#[test]
fn test_truncate_utf8_with_truncation() {
    // Truncate at character boundaries, not byte boundaries
    // Result is (max-1) chars + ellipsis = max chars total
    assert_eq!(truncate("日本語中文", 3), "日本…"); // 2 chars + …
    assert_eq!(truncate("über änderung", 5), "über…"); // 4 chars + …
    assert_eq!(truncate("한글 제목입니다", 4), "한글 …"); // 3 chars + …
    assert_eq!(truncate("العربية", 4), "الع…"); // 3 chars + …
}

#[test]
fn test_truncate_mixed_ascii_utf8() {
    // Mixed content should count characters correctly
    // "Test UTF-8: 日本語" is 15 chars (T,e,s,t, ,U,T,F,-,8,:, ,日,本,語)
    assert_eq!(truncate("Test UTF-8: 日本語", 15), "Test UTF-8: 日本語");
    assert_eq!(truncate("Test UTF-8: 日本語", 14), "Test UTF-8: 日…"); // 13 chars + …
    assert_eq!(truncate("café résumé", 6), "café …"); // 5 chars + …
}

#[test]
fn test_truncate_empty_and_edge_cases() {
    assert_eq!(truncate("", 5), "");
    assert_eq!(truncate("a", 1), "a");
    assert_eq!(truncate("日", 1), "日");
}

#[test]
fn test_resolve_interactive_flags() {
    let force = InteractiveArgs { interactive: true, no_interactive: false };
    let deny = InteractiveArgs { interactive: false, no_interactive: true };
    let neither = InteractiveArgs { interactive: false, no_interactive: false };
    let both = InteractiveArgs { interactive: true, no_interactive: true };
    assert!(force.resolve(false));
    assert!(!deny.resolve(true));
    assert!(neither.resolve(true));
    assert!(!neither.resolve(false));
    // explicit --interactive wins over --no-interactive
    assert!(both.resolve(false));
}

#[test]
fn test_count_by_keys() {
    let keys = vec![
        "bugs".to_string(),
        "ui".to_string(),
        "bugs".to_string(),
        "docs".to_string(),
        "bugs".to_string(),
    ];
    let counts = count_by(&keys);
    assert_eq!(counts.len(), 3);
    let get = |k: &str| {
        counts
            .iter()
            .find(|p| p.0 == k)
            .map(|p| p.1)
            .expect("key missing")
    };
    assert_eq!(get("bugs"), 3);
    assert_eq!(get("ui"), 1);
    assert_eq!(get("docs"), 1);
}

#[test]
fn test_count_by_many_keys() {
    let keyss = vec![
        vec!["a".to_string(), "b".to_string()],
        vec!["b".to_string()],
        vec![],
        vec!["a".to_string(), "b".to_string(), "c".to_string()],
    ];
    let counts = count_by_many(&keyss);
    assert_eq!(counts.len(), 3);
    let get = |k: &str| {
        counts
            .iter()
            .find(|p| p.0 == k)
            .map(|p| p.1)
            .expect("key missing")
    };
    assert_eq!(get("a"), 2);
    assert_eq!(get("b"), 3);
    assert_eq!(get("c"), 1);
}
