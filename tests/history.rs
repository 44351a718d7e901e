use usage_monitor::history::{get_unique_projects, HistoryEntry};
use usage_monitor::time::Timestamp;

fn entry(project: Option<&str>, ts: Option<i64>) -> HistoryEntry {
    HistoryEntry {
        display: Some("prompt".to_string()),
        timestamp: ts,
        project: project.map(|p| p.to_string()),
        session_id: None,
    }
}

#[test]
fn unique_projects_sorted() {
    let entries = vec![
        entry(Some("/b"), None),
        entry(Some("/a"), None),
        entry(None, None),
        entry(Some("/b"), None),
        entry(Some("/B"), None),
        entry(Some("/a/x"), None),
    ];
    assert_eq!(get_unique_projects(&entries), vec!["/B", "/a", "/a/x", "/b"]);
}

#[test]
fn no_projects() {
    assert!(get_unique_projects(&vec![entry(None, Some(1))]).is_empty());
    assert!(get_unique_projects(&vec![]).is_empty());
}

#[test]
fn timestamp_from_milliseconds() {
    let e = entry(None, Some(1_704_067_200_123));
    assert_eq!(e.timestamp_utc(), Some(Timestamp { secs: 1_704_067_200, nanos: 123_000_000 }));
    let before_epoch = entry(None, Some(-1));
    assert_eq!(before_epoch.timestamp_utc(), Some(Timestamp { secs: -1, nanos: 999_000_000 }));
    assert_eq!(entry(None, None).timestamp_utc(), None);
}
