use usage_monitor::budget::{BudgetInfo, ROLLING_WINDOW_HOURS};
use usage_monitor::time::Timestamp;

const NOW: i64 = 1_704_067_200;

fn at(secs: i64) -> Timestamp {
    Timestamp { secs, nanos: 0 }
}

#[test]
fn remaining_and_used_add_up_to_the_limit() {
    let b = BudgetInfo::at(300, 1000, None, at(NOW), 5);
    assert_eq!(b.remaining + b.used, b.limit);
    assert_eq!(b.remaining, 700);
    assert_eq!(b.reset_minutes, None);
}

#[test]
fn nothing_remains_past_the_limit() {
    let b = BudgetInfo::at(1500, 1000, None, at(NOW), 5);
    assert_eq!(b.remaining, 0);
    assert_eq!(b.used, 1500);
    let z = BudgetInfo::at(0, 0, None, at(NOW), 5);
    assert_eq!(z.remaining, 0);
}

#[test]
fn reset_counts_whole_minutes_until_the_oldest_event_leaves() {
    // oldest event 4h 30m 30s ago: 29m 30s to go
    let oldest = at(NOW - 4 * 3600 - 30 * 60 - 30);
    let b = BudgetInfo::at(1, 10, Some(oldest), at(NOW), 5);
    assert_eq!(b.reset_minutes, Some(29));
}

#[test]
fn reset_is_zero_once_the_oldest_event_has_left() {
    let b = BudgetInfo::at(1, 10, Some(at(NOW - 6 * 3600)), at(NOW), 5);
    assert_eq!(b.reset_minutes, Some(0));
    let edge = BudgetInfo::at(1, 10, Some(at(NOW - 5 * 3600)), at(NOW), 5);
    assert_eq!(edge.reset_minutes, Some(0));
}

#[test]
fn budget_now_uses_the_default_window() {
    let b = BudgetInfo::new(10, 100, None);
    assert_eq!(b.window_hours, ROLLING_WINDOW_HOURS as i64);
    assert_eq!(b.remaining, 90);
    assert_eq!(b.reset_minutes, None);
}
