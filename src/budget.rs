use vstd::prelude::*;
use crate::session::{ParsedSession, TimestampedUsage};
use crate::time::{NANOS_PER_SEC, Timestamp, current_time};
use crate::usage::{Counters, TokenUsage};

verus! {

/// Length of the rolling window, in hours.
pub const ROLLING_WINDOW_HOURS: u32 = 5;

/// The configured estimate of the tokens allowed in one rolling window.
pub const DEFAULT_TOKEN_LIMIT: u64 = 45_000_000;

/// Nanoseconds in one hour.
pub const NANOS_PER_HOUR: i128 = 3_600_000_000_000;

/// Nanoseconds in one minute.
pub const NANOS_PER_MINUTE: i128 = 60_000_000_000;

/// The first instant (in nanoseconds since the epoch) of the window of
/// `window_hours` hours that ends at `now`.
pub open spec fn window_start(now: Timestamp, window_hours: u32) -> int {
    now.instant() - window_hours * NANOS_PER_HOUR
}

/// An event lies in the window that starts at `start` (the bound is inclusive;
/// the window is open towards the future).
pub open spec fn in_window(e: TimestampedUsage, start: int) -> bool {
    e.timestamp.instant() >= start
}

/// The usage of the events in the window.
pub open spec fn window_usage(evs: Seq<TimestampedUsage>, start: int) -> Counters
    decreases evs.len(),
{
    if evs.len() == 0 {
        Counters::zero()
    } else if in_window(evs.last(), start) {
        window_usage(evs.drop_last(), start).plus(evs.last().usage@)
    } else {
        window_usage(evs.drop_last(), start)
    }
}

/// The earliest of `acc` and `t`; an earlier instant replaces `acc` only when
/// it is strictly earlier.
pub open spec fn earlier(acc: Option<Timestamp>, t: Option<Timestamp>) -> Option<Timestamp> {
    match t {
        Some(t) => match acc {
            Some(a) => if t.instant() < a.instant() {
                Some(t)
            } else {
                acc
            },
            None => Some(t),
        },
        None => acc,
    }
}

/// The instant of the oldest event in the window, if any.
pub open spec fn window_oldest(evs: Seq<TimestampedUsage>, start: int) -> Option<Timestamp>
    decreases evs.len(),
{
    if evs.len() == 0 {
        None
    } else if in_window(evs.last(), start) {
        earlier(window_oldest(evs.drop_last(), start), Some(evs.last().timestamp))
    } else {
        window_oldest(evs.drop_last(), start)
    }
}

/// The usage in the window over the events of all sessions.
pub open spec fn sessions_window_usage(ps: Seq<ParsedSession>, start: int) -> Counters
    decreases ps.len(),
{
    if ps.len() == 0 {
        Counters::zero()
    } else {
        sessions_window_usage(ps.drop_last(), start).plus(window_usage(ps.last().spec_events(), start))
    }
}

/// The oldest event in the window over the events of all sessions.
pub open spec fn sessions_window_oldest(ps: Seq<ParsedSession>, start: int) -> Option<Timestamp>
    decreases ps.len(),
{
    if ps.len() == 0 {
        None
    } else {
        earlier(
            sessions_window_oldest(ps.drop_last(), start),
            window_oldest(ps.last().spec_events(), start),
        )
    }
}

/// The usage of all events of all sessions.
pub open spec fn sessions_events_usage(ps: Seq<ParsedSession>) -> Counters
    decreases ps.len(),
{
    if ps.len() == 0 {
        Counters::zero()
    } else {
        sessions_events_usage(ps.drop_last()).plus(crate::session::events_usage(ps.last().spec_events()))
    }
}

/// Minutes until the oldest event in the window leaves it: none for an empty
/// window, zero where that instant has already passed.
pub open spec fn reset_minutes_of(oldest: Option<Timestamp>, now: Timestamp, window_hours: u32) -> Option<int> {
    match oldest {
        Some(t) => {
            let expiry = t.instant() + window_hours * NANOS_PER_HOUR;
            if expiry > now.instant() {
                Some((expiry - now.instant()) / (NANOS_PER_MINUTE as int))
            } else {
                Some(0)
            }
        },
        None => None,
    }
}

/// What remains of the limit: zero once it is exceeded.
pub open spec fn remaining_of(used: int, limit: int) -> int {
    if used <= limit {
        limit - used
    } else {
        0
    }
}

/// The budget over the rolling window. The share of the limit that is used is
/// `used / limit` (zero where `limit` is zero), left to the caller to display.
#[derive(Clone, Copy, Debug, PartialEq, Eq, Structural)]
pub struct BudgetInfo {
    pub limit: u64,
    pub used: u64,
    pub remaining: u64,
    pub window_hours: i64,
    pub reset_minutes: Option<i64>,
}

impl BudgetInfo {
    /// This is the budget for `used` tokens against `limit` at `now`, for a
    /// window of `window_hours` hours whose oldest event is at `oldest`.
    pub open spec fn describes(
        self,
        used: int,
        limit: int,
        oldest: Option<Timestamp>,
        now: Timestamp,
        window_hours: u32,
    ) -> bool {
        &&& self.used == used
        &&& self.limit == limit
        &&& self.remaining == remaining_of(used, limit)
        &&& self.window_hours == window_hours
        &&& match (self.reset_minutes, reset_minutes_of(oldest, now, window_hours)) {
            (Some(m), Some(n)) => m == n,
            (None, None) => true,
            _ => false,
        }
    }

    /// The budget at `now`.
    pub fn at(used: u64, limit: u64, oldest: Option<Timestamp>, now: Timestamp, window_hours: u32) -> (r:
        BudgetInfo)
        ensures
            r.describes(used as int, limit as int, oldest, now, window_hours),
    {
        let remaining = limit.saturating_sub(used);
        let reset_minutes = match oldest {
            Some(t) => {
                let expiry = t.unix_nanos() + window_hours as i128 * NANOS_PER_HOUR;
                let now_nanos = now.unix_nanos();
                if expiry > now_nanos {
                    let diff = expiry - now_nanos;
                    assert(diff / NANOS_PER_MINUTE < 1_000_000_000_000_000_000) by (nonlinear_arith)
                        requires
                            0 < diff <= 20_000_000_000_000_000_000_000_000_000,
                            NANOS_PER_MINUTE == 60_000_000_000,
                    ;
                    Some((diff / NANOS_PER_MINUTE) as i64)
                } else {
                    Some(0i64)
                }
            },
            None => None,
        };
        BudgetInfo { limit, used, remaining, window_hours: window_hours as i64, reset_minutes }
    }

    /// The budget now, for the default window.
    pub fn new(used: u64, limit: u64, oldest_timestamp: Option<Timestamp>) -> (r: BudgetInfo)
        ensures
            exists|now: Timestamp|
                r.describes(used as int, limit as int, oldest_timestamp, now, ROLLING_WINDOW_HOURS),
    {
        let now = current_time();
        BudgetInfo::at(used, limit, oldest_timestamp, now, ROLLING_WINDOW_HOURS)
    }
}

/// What remains and what is used add up to the limit while the limit holds;
/// past it nothing remains.
pub proof fn lemma_budget_balance(
    b: BudgetInfo,
    used: int,
    limit: int,
    oldest: Option<Timestamp>,
    now: Timestamp,
    window_hours: u32,
)
    requires
        b.describes(used, limit, oldest, now, window_hours),
    ensures
        b.used <= b.limit ==> b.remaining + b.used == b.limit,
        b.used > b.limit ==> b.remaining == 0,
{
}

/// The events in the window carry no more usage than all events.
pub proof fn lemma_window_within_events(evs: Seq<TimestampedUsage>, start: int)
    ensures
        window_usage(evs, start).le(crate::session::events_usage(evs)),
    decreases evs.len(),
{
    if evs.len() > 0 {
        lemma_window_within_events(evs.drop_last(), start);
    }
}

/// Over all sessions, the events in the window carry no more usage than all events.
pub proof fn lemma_sessions_window_within_events(ps: Seq<ParsedSession>, start: int)
    ensures
        sessions_window_usage(ps, start).le(sessions_events_usage(ps)),
    decreases ps.len(),
{
    if ps.len() > 0 {
        lemma_sessions_window_within_events(ps.drop_last(), start);
        lemma_window_within_events(ps.last().spec_events(), start);
    }
}

proof fn lemma_window_prefix_le(evs: Seq<TimestampedUsage>, start: int, j: int)
    requires
        0 <= j <= evs.len(),
    ensures
        window_usage(evs.take(j), start).le(window_usage(evs, start)),
    decreases evs.len(),
{
    if j < evs.len() {
        lemma_window_prefix_le(evs.drop_last(), start, j);
        assert(evs.drop_last().take(j) =~= evs.take(j));
    } else {
        assert(evs.take(j) =~= evs);
    }
}

proof fn lemma_sessions_window_prefix_le(ps: Seq<ParsedSession>, start: int, i: int)
    requires
        0 <= i <= ps.len(),
    ensures
        sessions_window_usage(ps.take(i), start).le(sessions_window_usage(ps, start)),
    decreases ps.len(),
{
    if i < ps.len() {
        lemma_sessions_window_prefix_le(ps.drop_last(), start, i);
        assert(ps.drop_last().take(i) =~= ps.take(i));
    } else {
        assert(ps.take(i) =~= ps);
    }
}

proof fn lemma_earlier_assoc(p: Option<Timestamp>, o: Option<Timestamp>, e: Option<Timestamp>)
    ensures
        earlier(earlier(p, o), e) == earlier(p, earlier(o, e)),
{
}

/// The usage in the rolling window that ends at `now`, over the events of all
/// sessions, and the oldest instant among those events; `None` where a counter
/// of that usage does not fit in a `u64`.
pub fn rolling_window(sessions: &Vec<ParsedSession>, now: Timestamp, window_hours: u32) -> (r: Option<
    (TokenUsage, Option<Timestamp>),
>)
    ensures
        r is Some <==> sessions_window_usage(sessions@, window_start(now, window_hours)).fits_u64(),
        r matches Some(w) ==> w.0@ == sessions_window_usage(sessions@, window_start(now, window_hours)),
        r matches Some(w) ==> w.1 == sessions_window_oldest(sessions@, window_start(now, window_hours)),
{
    let ghost start = window_start(now, window_hours);
    let start_nanos = now.unix_nanos() - window_hours as i128 * NANOS_PER_HOUR;
    let mut used = TokenUsage::zero();
    let mut oldest: Option<Timestamp> = None;
    let n = sessions.len();
    for i in 0..n
        invariant
            n == sessions@.len(),
            start_nanos == start,
            start == window_start(now, window_hours),
            used@ == sessions_window_usage(sessions@.take(i as int), start),
            oldest == sessions_window_oldest(sessions@.take(i as int), start),
    {
        let ghost before = sessions@.take(i as int);
        let ghost upto = sessions@.take(i + 1);
        assert(upto.drop_last() =~= before);
        let evs = sessions[i].events();
        let m = evs.len();
        proof {
            lemma_sessions_window_prefix_le(sessions@, start, i + 1);
        }
        for j in 0..m
            invariant
                m == evs@.len(),
                i < n,
                n == sessions@.len(),
                start == window_start(now, window_hours),
                evs@ == sessions@[i as int].spec_events(),
                upto.len() == i + 1,
                upto.drop_last() == before,
                upto.last() == sessions@[i as int],
                start_nanos == start,
                sessions_window_usage(upto, start).le(sessions_window_usage(sessions@, start)),
                used@ == sessions_window_usage(before, start).plus(
                    window_usage(evs@.take(j as int), start),
                ),
                oldest == earlier(
                    sessions_window_oldest(before, start),
                    window_oldest(evs@.take(j as int), start),
                ),
        {
            let e = evs[j];
            let ghost pre = evs@.take(j as int);
            assert(evs@.take(j + 1).drop_last() =~= pre);
            if e.timestamp.unix_nanos() >= start_nanos {
                proof {
                    lemma_window_prefix_le(evs@, start, j + 1);
                    lemma_earlier_assoc(
                        sessions_window_oldest(before, start),
                        window_oldest(pre, start),
                        Some(e.timestamp),
                    );
                }
                assert(evs@.take(j + 1).last() == e);
                assert(window_usage(evs@.take(j + 1), start) == window_usage(pre, start).plus(
                    e.usage@,
                ));
                assert(sessions_window_usage(upto, start) == sessions_window_usage(
                    before,
                    start,
                ).plus(window_usage(evs@, start)));
                match used.checked_add(&e.usage) {
                    Some(sum) => {
                        used = sum;
                    },
                    None => {
                        assert(window_usage(evs@.take(j + 1), start).le(window_usage(evs@, start)));
                        assert(!sessions_window_usage(upto, start).fits_u64());
                        return None;
                    },
                }
                let replace = match oldest {
                    Some(o) => e.timestamp.unix_nanos() < o.unix_nanos(),
                    None => true,
                };
                if replace {
                    oldest = Some(e.timestamp);
                }
            }
        }
        assert(evs@.take(m as int) =~= evs@);
    }
    assert(sessions@.take(n as int) =~= sessions@);
    Some((used, oldest))
}

} // verus!
