use std::cmp::Ordering;
use session_engine::files::{
    check_read_size, collect_matches, compare_entries, is_listed, replace_text, search_limit, FileEntry, SearchLine,
    Submatch, DEFAULT_MAX_RESULTS, MAX_READ_BYTES,
};

fn entry(name: &str, is_dir: bool) -> FileEntry {
    FileEntry { name: name.to_string(), path: format!("/p/{}", name), is_dir }
}

#[test]
fn listing_filter() {
    assert!(is_listed("src", true));
    assert!(!is_listed(".env", false));
    assert!(!is_listed("node_modules", true));
    assert!(is_listed("node_modules", false));
    assert!(!is_listed("Thumbs.db", false));
    assert!(is_listed("Thumbs.db", true));
    assert!(!is_listed("target", true));
    assert!(is_listed("main.rs", false));
}

#[test]
fn listing_order_dirs_first_then_case_insensitive() {
    let mut v = vec![entry("b.txt", false), entry("Zeta", true), entry("a.txt", false), entry("alpha", true), entry("B.md", false)];
    v.sort_by(compare_entries);
    let names: Vec<&str> = v.iter().map(|e| e.name.as_str()).collect();
    assert_eq!(names, vec!["alpha", "Zeta", "a.txt", "B.md", "b.txt"]);
    assert_eq!(compare_entries(&entry("X", false), &entry("x", false)), Ordering::Equal);
    assert_eq!(compare_entries(&entry("ab", false), &entry("a", false)), Ordering::Greater);
}

#[test]
fn read_size_limit() {
    assert_eq!(MAX_READ_BYTES, 10 * 1024 * 1024);
    assert_eq!(check_read_size(MAX_READ_BYTES), Ok(()));
    assert_eq!(check_read_size(0), Ok(()));
    assert_eq!(check_read_size(MAX_READ_BYTES + 1), Err("File exceeds 10MB limit".to_string()));
}

#[test]
fn replace_all_first_and_none() {
    assert_eq!(replace_text("a-b-a-b", "a", "X", true), ("X-b-X-b".to_string(), 2));
    assert_eq!(replace_text("a-b-a-b", "a", "X", false), ("X-b-a-b".to_string(), 1));
    assert_eq!(replace_text("aaa", "aa", "b", true), ("ba".to_string(), 1));
    assert_eq!(replace_text("abc", "z", "y", true), ("abc".to_string(), 0));
    assert_eq!(replace_text("abc", "z", "y", false), ("abc".to_string(), 0));
    assert_eq!(replace_text("ab", "", "-", true), ("-a-b-".to_string(), 3));
}

fn line(is_match: bool, path: &str, n: u64, subs: &[(&str, u64)]) -> SearchLine {
    SearchLine {
        is_match,
        path: path.to_string(),
        line_number: n,
        line_text: format!("text {}", n),
        submatches: subs.iter().map(|(t, s)| Submatch { text: t.to_string(), start: *s }).collect(),
    }
}

#[test]
fn search_matches_flatten_skip_and_limit() {
    let lines = vec![
        line(false, "/w/a", 0, &[]),
        line(true, "/w/a", 3, &[("foo", 1), ("foo", 9)]),
        line(true, "/w/b", 7, &[("fo", 0)]),
    ];
    let all = collect_matches(&lines, 10);
    let got: Vec<(String, u64, u64, String, String)> =
        all.into_iter().map(|m| (m.path, m.line_number, m.column, m.line_text, m.match_text)).collect();
    assert_eq!(
        got,
        vec![
            ("/w/a".to_string(), 3, 1, "text 3".to_string(), "foo".to_string()),
            ("/w/a".to_string(), 3, 9, "text 3".to_string(), "foo".to_string()),
            ("/w/b".to_string(), 7, 0, "text 7".to_string(), "fo".to_string()),
        ]
    );
    let two = collect_matches(&lines, 2);
    assert_eq!(two.len(), 2);
    assert_eq!(two[1].column, 9);
    assert!(collect_matches(&lines, 0).is_empty());
    assert_eq!(search_limit(None), DEFAULT_MAX_RESULTS);
    assert_eq!(search_limit(None), 500);
    assert_eq!(search_limit(Some(3)), 3);
}
