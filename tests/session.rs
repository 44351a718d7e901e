use usage_monitor::session::{
    is_transcript_extension, project_path_from_dir, session_identity_of, summarize_lines,
    summarize_session, LineRecord, Message, MessageEntry, SummaryError,
};
use usage_monitor::time::Timestamp;
use usage_monitor::usage::TokenUsage;

/// 2024-01-01T00:00:00Z in seconds since the epoch.
const JAN_1_2024: i64 = 1_704_067_200;

fn usage(input: u64, output: u64, creation: u64, read: u64) -> TokenUsage {
    TokenUsage {
        input_tokens: input,
        output_tokens: output,
        cache_creation_input_tokens: creation,
        cache_read_input_tokens: read,
    }
}

fn entry(kind: &str, u: Option<TokenUsage>, ts: Option<&str>) -> MessageEntry {
    MessageEntry {
        entry_type: Some(kind.to_string()),
        message: Some(Message { role: Some(kind.to_string()), usage: u, model: None }),
        timestamp: ts.map(|t| t.to_string()),
        session_id: Some("s1".to_string()),
    }
}

#[test]
fn agent_prefix_is_stripped() {
    let (id, agent) = session_identity_of("agent-s2");
    assert_eq!(id, "s2");
    assert!(agent);
    let (id, agent) = session_identity_of("s1");
    assert_eq!(id, "s1");
    assert!(!agent);
}

#[test]
fn project_dir_hyphens_become_separators() {
    assert_eq!(project_path_from_dir("-home-user-my-app"), "/home/user/my/app");
    assert_eq!(project_path_from_dir("plain"), "plain");
}

#[test]
fn only_jsonl_files_are_transcripts() {
    assert!(is_transcript_extension("jsonl"));
    assert!(!is_transcript_extension("json"));
    assert!(!is_transcript_extension(""));
}

#[test]
fn record_reads_type_usage_and_time() {
    let r = entry("assistant", Some(usage(1, 2, 3, 4)), Some("2024-01-01T01:00:00Z")).record();
    assert!(r.is_message);
    assert_eq!(r.usage, Some(usage(1, 2, 3, 4)));
    assert_eq!(r.timestamp, Some(Timestamp { secs: JAN_1_2024 + 3600, nanos: 0 }));
    let r = entry("summary", None, Some("2024-01-01T01:00:00.5+01:00")).record();
    assert!(!r.is_message);
    assert_eq!(r.timestamp, Some(Timestamp { secs: JAN_1_2024, nanos: 500_000_000 }));
    let r = entry("user", None, Some("yesterday")).record();
    assert!(r.is_message);
    assert_eq!(r.timestamp, None);
}

#[test]
fn malformed_line_is_skipped() {
    let entries = vec![
        Some(entry("assistant", Some(usage(100, 50, 0, 0)), Some("2024-01-01T01:00:00Z"))),
        None,
        Some(entry("user", Some(usage(7, 3, 1, 2)), Some("2024-01-01T02:00:00Z"))),
    ];
    let p = summarize_session("s1", "a-b", &entries).unwrap();
    let s = p.summary();
    assert_eq!(s.usage, usage(107, 53, 1, 2));
    assert_eq!(s.message_count, 2);
    assert_eq!(s.last_activity, Some(Timestamp { secs: JAN_1_2024 + 7200, nanos: 0 }));
    assert_eq!(p.events().len(), 2);
}

#[test]
fn summary_of_a_transcript() {
    let entries = vec![
        Some(entry("user", None, Some("2024-01-01T03:00:00Z"))),
        Some(entry("assistant", Some(usage(10, 20, 0, 5)), None)),
        Some(entry("assistant", Some(usage(1, 1, 1, 1)), Some("2024-01-01T02:00:00Z"))),
        Some(entry("progress", None, None)),
    ];
    let p = summarize_session("agent-xyz", "-work-proj", &entries).unwrap();
    let s = p.summary();
    assert_eq!(s.session_id, "xyz");
    assert!(s.is_agent);
    assert_eq!(s.project_path, "/work/proj");
    assert_eq!(s.usage, usage(11, 21, 1, 6));
    assert_eq!(s.message_count, 3);
    // the latest instant wins, whatever the order of the lines
    assert_eq!(s.last_activity, Some(Timestamp { secs: JAN_1_2024 + 3 * 3600, nanos: 0 }));
    // usage without a timestamp counts for the session but gives no event
    assert_eq!(p.events().len(), 1);
    assert_eq!(p.events()[0].usage, usage(1, 1, 1, 1));
}

#[test]
fn empty_transcript() {
    let p = summarize_session("s", "p", &vec![]).unwrap();
    assert_eq!(p.summary().usage, TokenUsage::zero());
    assert_eq!(p.summary().message_count, 0);
    assert_eq!(p.summary().last_activity, None);
    assert!(p.events().is_empty());
}

#[test]
fn equal_instants_keep_the_first() {
    let first = Timestamp { secs: 10, nanos: 1_000_000_000 };
    let second = Timestamp { secs: 11, nanos: 0 };
    let lines = vec![
        Some(LineRecord { is_message: false, usage: None, timestamp: Some(first) }),
        Some(LineRecord { is_message: false, usage: None, timestamp: Some(second) }),
    ];
    let p = summarize_lines("s", "p", &lines).unwrap();
    assert_eq!(p.summary().last_activity, Some(first));
}

#[test]
fn overflowing_usage_is_refused() {
    let lines = vec![
        Some(LineRecord { is_message: true, usage: Some(usage(u64::MAX, 0, 0, 0)), timestamp: None }),
        Some(LineRecord { is_message: true, usage: Some(usage(1, 0, 0, 0)), timestamp: None }),
    ];
    assert_eq!(summarize_lines("s", "p", &lines).err(), Some(SummaryError::CounterOverflow));
}
