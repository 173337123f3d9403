use session_engine::git::{
    append_diff_line, blame_entry, churn_cutoff, commit_details, commit_entry, file_status, line_diff_of,
    seconds_to_text, ChurnTable, StatusFlags,
};

fn flags() -> StatusFlags {
    StatusFlags {
        wt_new: false,
        wt_modified: false,
        wt_deleted: false,
        index_new: false,
        index_modified: false,
        index_deleted: false,
    }
}

#[test]
fn status_labels() {
    assert_eq!(file_status("/r/a".to_string(), StatusFlags { wt_new: true, index_new: true, ..flags() }).status, "new");
    assert_eq!(file_status("/r/a".to_string(), StatusFlags { wt_modified: true, wt_deleted: true, ..flags() }).status, "modified");
    assert_eq!(file_status("/r/a".to_string(), StatusFlags { wt_deleted: true, ..flags() }).status, "deleted");
    assert_eq!(file_status("/r/a".to_string(), StatusFlags { index_modified: true, ..flags() }).status, "staged");
    let f = file_status("/r/b".to_string(), flags());
    assert_eq!(f.status, "unknown");
    assert_eq!(f.path, "/r/b");
}

#[test]
fn line_diffs() {
    let a = line_diff_of('+', Some(4), None).unwrap();
    assert_eq!((a.line, a.diff_type.as_str()), (4, "added"));
    let d = line_diff_of('-', Some(9), Some(7)).unwrap();
    assert_eq!((d.line, d.diff_type.as_str()), (7, "deleted"));
    assert!(line_diff_of(' ', Some(1), Some(1)).is_none());
    assert!(line_diff_of('+', None, Some(1)).is_none());
}

#[test]
fn commit_text_defaults() {
    let c = commit_entry("abc".to_string(), None, None, 1700000000, vec!["p".to_string()]);
    assert_eq!(c.message, "");
    assert_eq!(c.author, "Unknown");
    assert_eq!(c.date, "1700000000");
    assert_eq!(c.parent_hashes, vec!["p".to_string()]);
    let d = commit_details("h".to_string(), Some("fix\n"), Some("Ann"), 0, 2, 10, 3);
    assert_eq!((d.message.as_str(), d.author.as_str(), d.date.as_str()), ("fix\n", "Ann", "0"));
    assert_eq!((d.files_changed, d.insertions, d.deletions), (2, 10, 3));
    let b = blame_entry("h2".to_string(), Some("Bo"), -5);
    assert_eq!((b.author.as_str(), b.date.as_str(), b.hash.as_str()), ("Bo", "-5", "h2"));
}

#[test]
fn seconds_text_extremes() {
    assert_eq!(seconds_to_text(i64::MIN), i64::MIN.to_string());
    assert_eq!(seconds_to_text(i64::MAX), i64::MAX.to_string());
    assert_eq!(seconds_to_text(10), "10");
}

#[test]
fn churn_counts_and_latest_time() {
    let mut t = ChurnTable::new();
    t.record("a.rs".to_string(), 300);
    t.record("b.rs".to_string(), -20);
    t.record("a.rs".to_string(), 100);
    t.record("a.rs".to_string(), 500);
    let recs = t.records();
    let got: Vec<(String, u32, String)> = recs.into_iter().map(|r| (r.path, r.commits, r.last_modified)).collect();
    assert_eq!(
        got,
        vec![("a.rs".to_string(), 3, "500".to_string()), ("b.rs".to_string(), 1, "0".to_string())]
    );
    assert_eq!(churn_cutoff(1_000_000, 2), 1_000_000 - 2 * 86400);
}

#[test]
fn diff_text_lines() {
    let mut out = String::new();
    append_diff_line(&mut out, 'F', "diff --git a b\n");
    append_diff_line(&mut out, ' ', "ctx\n");
    append_diff_line(&mut out, '-', "old\n");
    append_diff_line(&mut out, '+', "new\n");
    assert_eq!(out, " ctx\n-old\n+new\n");
}
