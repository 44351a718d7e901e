use vstd::prelude::*;

verus! {

/// Events closer than this to the last refresh (in nanoseconds) are dropped.
pub const DEBOUNCE_NANOS: u64 = 500_000_000;

/// Pause before a refresh, in milliseconds, so that writes in flight can end.
pub const SETTLE_MILLIS: u64 = 100;

/// What the change watcher observes.
#[derive(Clone, Copy, Debug, PartialEq, Eq, Structural)]
pub enum WatchEvent {
    /// A file under the transcript root changed; `at` is the monotonic clock
    /// reading, in nanoseconds, when the event arrived.
    Changed { at: u64 },
    /// The process is shutting down.
    Shutdown,
}

/// What the change watcher does next.
#[derive(Clone, Copy, Debug, PartialEq, Eq, Structural)]
pub enum WatchAction {
    /// Drop the event.
    Ignore,
    /// Wait `settle_millis` milliseconds, then refresh the store and wait for
    /// the refresh to finish.
    Refresh { settle_millis: u64 },
    /// Stop observing and return.
    Stop,
}

/// Time elapsed from `since` to `at`; zero where `at` is earlier.
pub open spec fn elapsed_since(since: u64, at: u64) -> int {
    if at >= since {
        at - since
    } else {
        0
    }
}

/// An event at `at` triggers a refresh when more than the debounce interval
/// has gone by since the refresh at `last`.
pub open spec fn triggers(last: u64, at: u64) -> bool {
    elapsed_since(last, at) > DEBOUNCE_NANOS
}

/// The debouncing decisions of the change watcher.
#[derive(Clone, Copy, Debug, PartialEq, Eq, Structural)]
pub struct Debouncer {
    /// Monotonic clock reading, in nanoseconds, of the last refresh.
    pub last_refresh: u64,
}

impl Debouncer {
    /// A watcher started at `started_at`, which counts as a refresh.
    pub fn new(started_at: u64) -> (r: Debouncer)
        ensures
            r.last_refresh == started_at,
    {
        Debouncer { last_refresh: started_at }
    }

    /// The decision on one event.
    pub fn step(&mut self, event: WatchEvent) -> (r: WatchAction)
        ensures
            match event {
                WatchEvent::Shutdown => r == WatchAction::Stop && *final(self) == *old(self),
                WatchEvent::Changed { at } => if triggers(old(self).last_refresh, at) {
                    r == (WatchAction::Refresh { settle_millis: SETTLE_MILLIS })
                        && final(self).last_refresh == at
                } else {
                    r == WatchAction::Ignore && *final(self) == *old(self)
                },
            },
    {
        match event {
            WatchEvent::Shutdown => WatchAction::Stop,
            WatchEvent::Changed { at } => {
                let elapsed = at.saturating_sub(self.last_refresh);
                if elapsed > DEBOUNCE_NANOS {
                    self.last_refresh = at;
                    WatchAction::Refresh { settle_millis: SETTLE_MILLIS }
                } else {
                    WatchAction::Ignore
                }
            },
        }
    }
}

/// The number of refreshes that change events at the readings `times`, in
/// arrival order, trigger after a refresh at `last`.
pub open spec fn refresh_count(last: u64, times: Seq<u64>) -> nat
    decreases times.len(),
{
    if times.len() == 0 {
        0
    } else if triggers(last, times[0]) {
        1 + refresh_count(times[0], times.drop_first())
    } else {
        refresh_count(last, times.drop_first())
    }
}

proof fn lemma_no_refresh_within(last: u64, times: Seq<u64>)
    requires
        forall|i: int| 0 <= i < times.len() ==> times[i] <= last + DEBOUNCE_NANOS,
    ensures
        refresh_count(last, times) == 0,
    decreases times.len(),
{
    if times.len() > 0 {
        lemma_no_refresh_within(last, times.drop_first());
    }
}

/// A burst of change events that all arrive within one debounce interval
/// triggers at most one refresh, and exactly one where its first event comes
/// more than a debounce interval after the last refresh.
pub proof fn lemma_burst_single_refresh(last: u64, times: Seq<u64>, first: u64)
    requires
        forall|i: int| 0 <= i < times.len() ==> first <= #[trigger] times[i] <= first + DEBOUNCE_NANOS,
    ensures
        refresh_count(last, times) <= 1,
        times.len() > 0 && triggers(last, times[0]) ==> refresh_count(last, times) == 1,
    decreases times.len(),
{
    if times.len() > 0 {
        assert forall|i: int| 0 <= i < times.drop_first().len() implies first <= #[trigger] times.drop_first()[i]
            <= first + DEBOUNCE_NANOS by {
            assert(times.drop_first()[i] == times[i + 1]);
        }
        if triggers(last, times[0]) {
            assert forall|i: int| 0 <= i < times.drop_first().len() implies times.drop_first()[i]
                <= times[0] + DEBOUNCE_NANOS by {
                assert(times.drop_first()[i] == times[i + 1]);
            }
            lemma_no_refresh_within(times[0], times.drop_first());
        } else {
            lemma_burst_single_refresh(last, times.drop_first(), first);
        }
    }
}

} // verus!
