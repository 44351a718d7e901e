use usage_monitor::budget::{rolling_window, DEFAULT_TOKEN_LIMIT};
use usage_monitor::session::{summarize_lines, LineRecord, ParsedSession};
use usage_monitor::stats::{compute_stats, stats_fit_check, ProjectStats};
use usage_monitor::time::Timestamp;
use usage_monitor::usage::TokenUsage;

const NOW: i64 = 1_704_067_200;
const HOUR: i64 = 3600;

fn usage(input: u64, output: u64, creation: u64, read: u64) -> TokenUsage {
    TokenUsage {
        input_tokens: input,
        output_tokens: output,
        cache_creation_input_tokens: creation,
        cache_read_input_tokens: read,
    }
}

fn at(secs: i64) -> Timestamp {
    Timestamp { secs, nanos: 0 }
}

fn line(u: TokenUsage, secs: i64) -> Option<LineRecord> {
    Some(LineRecord { is_message: true, usage: Some(u), timestamp: Some(at(secs)) })
}

fn two_sessions() -> Vec<ParsedSession> {
    let s1 = summarize_lines(
        "s1",
        "a-b",
        &vec![line(usage(100, 50, 0, 0), NOW - 2 * HOUR), line(usage(100, 50, 0, 0), NOW - HOUR)],
    )
    .unwrap();
    let s2 = summarize_lines("agent-s2", "a-b", &vec![line(usage(10, 0, 0, 0), NOW - 10 * HOUR)])
        .unwrap();
    vec![s1, s2]
}

#[test]
fn two_transcripts_in_one_project() {
    let stats = compute_stats(&two_sessions(), at(NOW), DEFAULT_TOKEN_LIMIT, 5).unwrap();
    assert_eq!(stats.total_usage, usage(210, 100, 0, 0));
    assert_eq!(stats.total_usage.total(), 310);
    assert_eq!(stats.rolling_usage, usage(200, 100, 0, 0));
    assert_eq!(stats.budget.used, 300);
    assert_eq!(stats.budget.limit, DEFAULT_TOKEN_LIMIT);
    assert_eq!(stats.budget.remaining, DEFAULT_TOKEN_LIMIT - 300);
    assert_eq!(stats.budget.window_hours, 5);
    // the oldest event in the window is two hours old: three hours to go
    assert_eq!(stats.budget.reset_minutes, Some(180));
    assert_eq!(stats.active_sessions, 0);
    assert_eq!(stats.active_agents, 0);
    assert_eq!(stats.total_messages, 3);
    assert_eq!(stats.projects.len(), 1);
    let p: &ProjectStats = &stats.projects[0];
    assert_eq!(p.path, "a/b");
    assert_eq!(p.usage, usage(210, 100, 0, 0));
    assert_eq!(p.session_count, 2);
    assert_eq!(p.message_count, 3);
}

#[test]
fn agent_activity_is_independent_of_the_window() {
    // the agent's last activity two minutes before now makes it active
    let s2 = summarize_lines("agent-s2", "a-b", &vec![line(usage(10, 0, 0, 0), NOW - 120)]).unwrap();
    let old = summarize_lines("s1", "a-b", &vec![line(usage(1, 0, 0, 0), NOW - 10 * HOUR)]).unwrap();
    let stats = compute_stats(&vec![old, s2], at(NOW), 1000, 5).unwrap();
    assert_eq!(stats.active_agents, 1);
    assert_eq!(stats.active_sessions, 0);
    assert_eq!(stats.rolling_usage, usage(10, 0, 0, 0));
}

#[test]
fn no_sessions_give_an_empty_snapshot() {
    let stats = compute_stats(&vec![], at(NOW), DEFAULT_TOKEN_LIMIT, 5).unwrap();
    assert_eq!(stats.total_usage, TokenUsage::zero());
    assert_eq!(stats.rolling_usage, TokenUsage::zero());
    assert_eq!(stats.budget.used, 0);
    assert_eq!(stats.budget.remaining, DEFAULT_TOKEN_LIMIT);
    assert_eq!(stats.budget.reset_minutes, None);
    assert_eq!(stats.active_sessions, 0);
    assert_eq!(stats.active_agents, 0);
    assert_eq!(stats.total_messages, 0);
    assert!(stats.projects.is_empty());
}

#[test]
fn projects_ordered_by_descending_total() {
    let a = summarize_lines("x", "small", &vec![line(usage(1, 0, 0, 0), NOW)]).unwrap();
    let b = summarize_lines("y", "big", &vec![line(usage(50, 0, 0, 0), NOW)]).unwrap();
    let c = summarize_lines("z", "tie", &vec![line(usage(0, 1, 0, 0), NOW)]).unwrap();
    let d = summarize_lines("w", "big", &vec![line(usage(0, 0, 0, 5), NOW)]).unwrap();
    let stats = compute_stats(&vec![a, b, c, d], at(NOW), 100, 5).unwrap();
    let order: Vec<&str> = stats.projects.iter().map(|p| p.path.as_str()).collect();
    assert_eq!(order, vec!["big", "small", "tie"]);
    assert_eq!(stats.projects[0].usage.total(), 55);
    assert_eq!(stats.projects[0].session_count, 2);
    assert_eq!(stats.active_sessions, 4);
}

#[test]
fn rolling_usage_within_lifetime_usage() {
    let stats = compute_stats(&two_sessions(), at(NOW), DEFAULT_TOKEN_LIMIT, 5).unwrap();
    assert!(stats.rolling_usage.billable() <= stats.total_usage.billable());
    let wide = compute_stats(&two_sessions(), at(NOW), DEFAULT_TOKEN_LIMIT, 24).unwrap();
    assert_eq!(wide.rolling_usage.billable(), wide.total_usage.billable());
}

#[test]
fn snapshot_repeats_for_the_same_sessions() {
    let a = compute_stats(&two_sessions(), at(NOW), DEFAULT_TOKEN_LIMIT, 5).unwrap();
    let b = compute_stats(&two_sessions(), at(NOW), DEFAULT_TOKEN_LIMIT, 5).unwrap();
    assert_eq!(a.total_usage, b.total_usage);
    assert_eq!(a.rolling_usage, b.rolling_usage);
    assert_eq!(a.budget, b.budget);
    assert_eq!(a.active_sessions, b.active_sessions);
    assert_eq!(a.active_agents, b.active_agents);
    assert_eq!(a.total_messages, b.total_messages);
    assert_eq!(a.projects.len(), b.projects.len());
    for (x, y) in a.projects.iter().zip(b.projects.iter()) {
        assert_eq!(x.path, y.path);
        assert_eq!(x.usage, y.usage);
        assert_eq!(x.session_count, y.session_count);
        assert_eq!(x.message_count, y.message_count);
    }
}

#[test]
fn snapshot_that_does_not_fit_is_refused() {
    let a = summarize_lines("a", "p", &vec![line(usage(u64::MAX - 1, 0, 0, 0), NOW)]).unwrap();
    let b = summarize_lines("b", "p", &vec![line(usage(0, 2, 0, 0), NOW)]).unwrap();
    let sessions = vec![a, b];
    assert!(!stats_fit_check(&sessions));
    assert!(compute_stats(&sessions, at(NOW), 100, 5).is_none());
}

#[test]
fn new_project_is_empty() {
    let p = ProjectStats::new("a/b".to_string());
    assert_eq!(p.path, "a/b");
    assert_eq!(p.usage, TokenUsage::zero());
    assert_eq!(p.session_count, 0);
    assert_eq!(p.message_count, 0);
}

#[test]
fn rolling_window_over_all_sessions() {
    let sessions = two_sessions();
    let (used, oldest) = rolling_window(&sessions, at(NOW), 5).unwrap();
    assert_eq!(used, usage(200, 100, 0, 0));
    assert_eq!(oldest, Some(at(NOW - 2 * HOUR)));
    let (all, oldest_all) = rolling_window(&sessions, at(NOW), 10).unwrap();
    assert_eq!(all, usage(210, 100, 0, 0));
    assert_eq!(oldest_all, Some(at(NOW - 10 * HOUR)));
    let (none, no_oldest) = rolling_window(&sessions, at(NOW + 20 * HOUR), 5).unwrap();
    assert_eq!(none, TokenUsage::zero());
    assert_eq!(no_oldest, None);
    // the window is open towards the future: later events still count
    let (later, _) = rolling_window(&sessions, at(NOW - 20 * HOUR), 5).unwrap();
    assert_eq!(later, usage(210, 100, 0, 0));
}

#[test]
fn rolling_window_that_does_not_fit_is_refused() {
    let a = summarize_lines("a", "p", &vec![line(usage(u64::MAX - 1, 0, 0, 0), NOW)]).unwrap();
    let b = summarize_lines("b", "p", &vec![line(usage(2, 0, 0, 0), NOW)]).unwrap();
    assert!(rolling_window(&vec![a, b], at(NOW), 5).is_none());
}
