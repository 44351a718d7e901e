use usage_monitor::session::{summarize_lines, LineRecord, ParsedSession};
use usage_monitor::store::{active_sessions_at, AppState, Config, SessionSet};
use usage_monitor::time::Timestamp;
use usage_monitor::usage::TokenUsage;

const NOW: i64 = 1_704_067_200;

fn usage(input: u64) -> TokenUsage {
    TokenUsage {
        input_tokens: input,
        output_tokens: 0,
        cache_creation_input_tokens: 0,
        cache_read_input_tokens: 0,
    }
}

fn at(secs: i64) -> Timestamp {
    Timestamp { secs, nanos: 0 }
}

fn session(stem: &str, dir: &str, input: u64, secs: i64) -> ParsedSession {
    let line = LineRecord { is_message: true, usage: Some(usage(input)), timestamp: Some(at(secs)) };
    summarize_lines(stem, dir, &vec![Some(line)]).unwrap()
}

#[test]
fn config_lays_out_the_data_directory() {
    let c = Config::for_data_dir("/home/u/.assistant");
    assert_eq!(c.data_dir, "/home/u/.assistant");
    assert_eq!(c.projects_dir, "/home/u/.assistant/projects");
    assert_eq!(c.history_file, "/home/u/.assistant/history.jsonl");
    assert_eq!(c.window_hours, 5);
    assert_eq!(c.token_limit, 45_000_000);
}

#[test]
fn same_identity_replaces_in_place() {
    let mut set = SessionSet::new();
    set.insert(session("x", "p", 1, NOW));
    set.insert(session("y", "p", 2, NOW));
    set.insert(session("agent-x", "p", 3, NOW));
    assert_eq!(set.len(), 2);
    let s = set.sessions();
    assert_eq!(s[0].summary().session_id, "x");
    assert!(s[0].summary().is_agent);
    assert_eq!(s[0].summary().usage, usage(3));
    assert_eq!(s[1].summary().usage, usage(2));
}

#[test]
fn same_id_in_other_project_is_kept() {
    let mut set = SessionSet::new();
    set.insert(session("x", "p", 1, NOW));
    set.insert(session("x", "q", 2, NOW));
    assert_eq!(set.len(), 2);
}

#[test]
fn empty_scan_gives_an_empty_snapshot() {
    let config = Config::for_data_dir("/nowhere");
    let mut state = AppState::new(&config);
    assert!(state.last_refresh.is_none());
    state.install(SessionSet::new());
    assert!(state.last_refresh.is_some());
    let stats = state.get_stats().unwrap();
    assert_eq!(stats.total_usage, TokenUsage::zero());
    assert_eq!(stats.rolling_usage, TokenUsage::zero());
    assert_eq!(stats.total_messages, 0);
    assert!(stats.projects.is_empty());
    assert_eq!(stats.budget.reset_minutes, None);
    assert!(state.get_active_sessions().is_empty());
}

#[test]
fn refreshing_twice_gives_the_same_aggregates() {
    let config = Config::for_data_dir("/nowhere");
    let mut state = AppState::new(&config);
    let scan = || {
        let mut set = SessionSet::new();
        set.insert(session("a", "p-q", 5, NOW));
        set.insert(session("agent-b", "p-q", 7, NOW - 3600));
        set
    };
    state.install(scan());
    let first = state.get_stats().unwrap();
    state.install(scan());
    let second = state.get_stats().unwrap();
    assert_eq!(first.total_usage, second.total_usage);
    assert_eq!(first.total_messages, second.total_messages);
    assert_eq!(first.budget.used, second.budget.used);
    assert_eq!(first.projects.len(), second.projects.len());
    assert_eq!(first.projects[0].path, "p/q");
    assert_eq!(first.projects[0].usage, second.projects[0].usage);
}

#[test]
fn active_sessions_most_recent_first() {
    let sessions = vec![
        session("old", "p", 1, NOW - 200),
        session("gone", "p", 1, NOW - 1000),
        session("new", "p", 1, NOW - 10),
        session("mid", "p", 1, NOW - 100),
        session("mid2", "p", 1, NOW - 100),
    ];
    let active = active_sessions_at(&sessions, at(NOW));
    let ids: Vec<&str> = active.iter().map(|s| s.session_id.as_str()).collect();
    assert_eq!(ids, vec!["new", "mid", "mid2", "old"]);
}
