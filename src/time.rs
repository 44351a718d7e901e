use vstd::prelude::*;

verus! {

/// Nanoseconds in one second.
pub const NANOS_PER_SEC: i128 = 1_000_000_000;

/// A session counts as active while its last activity lies less than this many
/// seconds in the past.
pub const ACTIVE_WINDOW_SECS: i128 = 300;

/// An instant: whole seconds since the Unix epoch, and the nanoseconds past
/// that second (a leap second carries the nanoseconds over one billion).
#[derive(Clone, Copy, Debug, PartialEq, Eq, Structural)]
pub struct Timestamp {
    pub secs: i64,
    pub nanos: u32,
}

impl Timestamp {
    /// Nanoseconds since the Unix epoch.
    pub open spec fn instant(self) -> int {
        self.secs * 1_000_000_000 + self.nanos
    }

    /// The same as `instant`, computed.
    pub fn unix_nanos(&self) -> (r: i128)
        ensures
            r == self.instant(),
    {
        self.secs as i128 * NANOS_PER_SEC + self.nanos as i128
    }
}

/// Nanoseconds from `from` until `to` (negative when `to` is earlier).
pub open spec fn elapsed(from: Timestamp, to: Timestamp) -> int {
    to.instant() - from.instant()
}

/// A last activity at `last` is recent at `now`: less than five minutes have
/// gone by (an activity stamped in the future is recent too).
pub open spec fn is_recent(last: Timestamp, now: Timestamp) -> bool {
    elapsed(last, now) < ACTIVE_WINDOW_SECS * NANOS_PER_SEC
}

/// Whether a session whose last activity was at `last` is active at `now`.
pub fn is_session_active(last: Timestamp, now: Timestamp) -> (r: bool)
    ensures
        r == is_recent(last, now),
{
    now.unix_nanos() - last.unix_nanos() < ACTIVE_WINDOW_SECS * NANOS_PER_SEC
}

/// The activity rule at its boundary: 299 seconds ago is active, 301 seconds
/// ago is not, and exactly 300 seconds ago is not.
pub proof fn lemma_activity_boundary(last: Timestamp, now: Timestamp)
    ensures
        elapsed(last, now) <= 299 * NANOS_PER_SEC ==> is_recent(last, now),
        elapsed(last, now) >= 300 * NANOS_PER_SEC ==> !is_recent(last, now),
{
}

/// What `chrono` reads from an RFC 3339 date-time, as an instant; `None` where
/// it refuses the text.
pub uninterp spec fn rfc3339_instant(s: Seq<char>) -> Option<Timestamp>;

/// Relies on chrono's `DateTime::parse_from_rfc3339`: the parsed instant, in
/// seconds and nanoseconds since the epoch, depends on the text alone.
#[verifier::external_body]
pub(crate) fn parse_rfc3339(s: &str) -> (r: Option<Timestamp>)
    ensures
        r == rfc3339_instant(s@),
{
    chrono::DateTime::parse_from_rfc3339(s).ok().map(
        |dt| Timestamp { secs: dt.timestamp(), nanos: dt.timestamp_subsec_nanos() },
    )
}

/// Relies on chrono's `Utc::now`: the current time; nothing is known of it.
#[verifier::external_body]
pub(crate) fn current_time() -> (r: Timestamp) {
    let now = chrono::Utc::now();
    Timestamp { secs: now.timestamp(), nanos: now.timestamp_subsec_nanos() }
}

/// The instant `millis` milliseconds after the Unix epoch (spec division
/// rounds towards minus infinity, as `div_euclid` does for a positive divisor).
pub open spec fn millis_instant(millis: i64) -> Timestamp {
    Timestamp {
        secs: (millis as int / 1000) as i64,
        nanos: ((millis as int % 1000) * 1_000_000) as u32,
    }
}

/// Relies on chrono's `DateTime::from_timestamp_millis`: where it accepts the
/// count, the instant is that many milliseconds after the epoch.
#[verifier::external_body]
pub(crate) fn from_millis(millis: i64) -> (r: Option<Timestamp>)
    ensures
        r matches Some(t) ==> t == millis_instant(millis),
{
    chrono::DateTime::from_timestamp_millis(millis).map(
        |dt| Timestamp { secs: dt.timestamp(), nanos: dt.timestamp_subsec_nanos() },
    )
}

} // verus!
