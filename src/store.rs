use vstd::prelude::*;
use crate::budget::{DEFAULT_TOKEN_LIMIT, ROLLING_WINDOW_HOURS};
use crate::session::{ParsedSession, SessionData};
use crate::stats::{Stats, all_wf, compute_stats, session_active, stats_fit};
use crate::time::{Timestamp, current_time, is_recent, is_session_active};

verus! {

/// Where the transcripts are, and the budget they are held to.
#[derive(Clone, Debug)]
pub struct Config {
    /// The assistant's data directory.
    pub data_dir: String,
    /// The directory of project directories, each holding transcript files.
    pub projects_dir: String,
    /// The history file.
    pub history_file: String,
    /// Length of the rolling window, in hours.
    pub window_hours: u32,
    /// Tokens allowed in one rolling window.
    pub token_limit: u64,
}

impl Config {
    /// The layout of the data directory `data_dir`, with the default window and limit.
    pub open spec fn laid_out_under(self, data_dir: Seq<char>) -> bool {
        &&& self.data_dir@ == data_dir
        &&& self.projects_dir@ == data_dir + "/projects"@
        &&& self.history_file@ == data_dir + "/history.jsonl"@
        &&& self.window_hours == ROLLING_WINDOW_HOURS
        &&& self.token_limit == DEFAULT_TOKEN_LIMIT
    }

    /// The configuration for the data directory `data_dir`.
    pub fn for_data_dir(data_dir: &str) -> (r: Config)
        ensures
            r.laid_out_under(data_dir@),
    {
        let projects_dir = String::from_str(data_dir).concat("/projects");
        let history_file = String::from_str(data_dir).concat("/history.jsonl");
        Config {
            data_dir: String::from_str(data_dir),
            projects_dir,
            history_file,
            window_hours: ROLLING_WINDOW_HOURS,
            token_limit: DEFAULT_TOKEN_LIMIT,
        }
    }
}

/// The identity of a session: its project path and its session id.
pub open spec fn same_identity(a: SessionData, b: SessionData) -> bool {
    a.project_path@ == b.project_path@ && a.session_id@ == b.session_id@
}

/// No two sessions share an identity.
pub open spec fn identities_unique(ps: Seq<ParsedSession>) -> bool {
    forall|i: int, j: int|
        0 <= i < j < ps.len() ==> !same_identity(
            #[trigger] ps[i].spec_summary(),
            #[trigger] ps[j].spec_summary(),
        )
}

/// The sessions after `p` is added: it replaces the session with its
/// identity, in that session's place, or else comes last.
pub open spec fn with_session(ps: Seq<ParsedSession>, p: ParsedSession) -> Seq<ParsedSession> {
    if exists|i: int| 0 <= i < ps.len() && same_identity(ps[i].spec_summary(), p.spec_summary()) {
        let i = choose|i: int| 0 <= i < ps.len() && same_identity(ps[i].spec_summary(), p.spec_summary());
        ps.update(i, p)
    } else {
        ps.push(p)
    }
}

/// The sessions read by one scan of the transcript directory, one per identity.
pub struct SessionSet {
    sessions: Vec<ParsedSession>,
}

impl View for SessionSet {
    type V = Seq<ParsedSession>;

    closed spec fn view(&self) -> Seq<ParsedSession> {
        self.sessions@
    }
}

impl SessionSet {
    /// Identities are unique, and every session's events carry no more usage
    /// than the session.
    pub open spec fn wf(&self) -> bool {
        identities_unique(self@) && all_wf(self@)
    }

    /// No sessions.
    pub fn new() -> (r: SessionSet)
        ensures
            r.wf(),
            r@ == Seq::<ParsedSession>::empty(),
    {
        SessionSet { sessions: Vec::new() }
    }

    /// The number of sessions.
    pub fn len(&self) -> (r: usize)
        ensures
            r == self@.len(),
    {
        self.sessions.len()
    }

    /// The sessions, in the order in which they were first added.
    pub fn sessions(&self) -> (r: &Vec<ParsedSession>)
        ensures
            r@ == self@,
    {
        &self.sessions
    }

    /// Adds a session read from a file; it replaces the session with the
    /// same identity, if there is one.
    pub fn insert(&mut self, p: ParsedSession)
        requires
            old(self).wf(),
            p.wf(),
        ensures
            final(self).wf(),
            final(self)@ == with_session(old(self)@, p),
    {
        let n = self.sessions.len();
        let mut j: usize = 0;
        while j < n && !(self.sessions[j].summary().project_path == p.summary().project_path
            && self.sessions[j].summary().session_id == p.summary().session_id)
            invariant
                n == self.sessions@.len(),
                0 <= j <= n,
                forall|k: int|
                    0 <= k < j ==> !same_identity(
                        #[trigger] self.sessions@[k].spec_summary(),
                        p.spec_summary(),
                    ),
            decreases n - j,
        {
            j = j + 1;
        }
        let ghost before = self.sessions@;
        if j < n {
            proof {
                assert(same_identity(before[j as int].spec_summary(), p.spec_summary()));
                let i = choose|i: int| 0 <= i < before.len() && same_identity(before[i].spec_summary(), p.spec_summary());
                if i != j {
                    if i < j {
                        assert(!same_identity(before[i].spec_summary(), before[j as int].spec_summary()));
                    } else {
                        assert(!same_identity(before[j as int].spec_summary(), before[i].spec_summary()));
                    }
                }
            }
            self.sessions.set(j, p);
        } else {
            self.sessions.push(p);
        }
        assert(identities_unique(self.sessions@)) by {
            assert forall|a: int, b: int| 0 <= a < b < self.sessions@.len() implies !same_identity(
                #[trigger] self.sessions@[a].spec_summary(),
                #[trigger] self.sessions@[b].spec_summary(),
            ) by {
                if j < n {
                    if a != j && b != j {
                        assert(self.sessions@[a] == before[a]);
                        assert(self.sessions@[b] == before[b]);
                    } else if a == j {
                        assert(self.sessions@[b] == before[b]);
                        assert(!same_identity(before[a].spec_summary(), before[b].spec_summary()));
                    } else {
                        assert(self.sessions@[a] == before[a]);
                        assert(!same_identity(before[a].spec_summary(), before[b].spec_summary()));
                    }
                } else if b == n {
                    assert(self.sessions@[a] == before[a]);
                } else {
                    assert(self.sessions@[a] == before[a]);
                    assert(self.sessions@[b] == before[b]);
                }
            }
        }
        assert(all_wf(self.sessions@)) by {
            assert forall|k: int| 0 <= k < self.sessions@.len() implies (#[trigger] self.sessions@[k]).wf() by {
                if k != j {
                    assert(self.sessions@[k] == before[k]);
                }
            }
        }
    }
}

/// The summaries of the sessions active at `now`, in the order of the sessions.
pub open spec fn active_list(ps: Seq<ParsedSession>, now: Timestamp) -> Seq<SessionData>
    decreases ps.len(),
{
    if ps.len() == 0 {
        Seq::empty()
    } else if session_active(ps.last(), now) {
        active_list(ps.drop_last(), now).push(ps.last().spec_summary())
    } else {
        active_list(ps.drop_last(), now)
    }
}

/// The instant of a session's last activity (an active session always has one).
pub open spec fn activity_key(s: SessionData) -> int {
    match s.last_activity {
        Some(t) => t.instant(),
        None => 0,
    }
}

/// Where `x` goes in a list ordered by descending last activity: after every
/// session whose last activity is at least as late.
pub open spec fn recency_position(sorted: Seq<SessionData>, x: SessionData) -> int
    decreases sorted.len(),
{
    if sorted.len() == 0 {
        0
    } else if activity_key(sorted[0]) < activity_key(x) {
        0
    } else {
        1 + recency_position(sorted.drop_first(), x)
    }
}

/// The sessions ordered by descending last activity; sessions with equal last
/// activity keep their order.
pub open spec fn sort_by_recency(s: Seq<SessionData>) -> Seq<SessionData>
    decreases s.len(),
{
    if s.len() == 0 {
        Seq::empty()
    } else {
        let sorted = sort_by_recency(s.drop_last());
        sorted.insert(recency_position(sorted, s.last()), s.last())
    }
}

proof fn lemma_recency_position(sorted: Seq<SessionData>, x: SessionData)
    ensures
        0 <= recency_position(sorted, x) <= sorted.len(),
        forall|k: int|
            0 <= k < recency_position(sorted, x) ==> activity_key(#[trigger] sorted[k])
                >= activity_key(x),
        recency_position(sorted, x) < sorted.len() ==> activity_key(sorted[recency_position(sorted, x)])
            < activity_key(x),
    decreases sorted.len(),
{
    if sorted.len() > 0 && activity_key(sorted[0]) >= activity_key(x) {
        let rest = sorted.drop_first();
        lemma_recency_position(rest, x);
        assert forall|k: int| 0 <= k < recency_position(sorted, x) implies activity_key(#[trigger] sorted[k])
            >= activity_key(x) by {
            if k > 0 {
                assert(sorted[k] == rest[k - 1]);
            }
        }
        if recency_position(sorted, x) < sorted.len() {
            assert(sorted[recency_position(sorted, x)] == rest[recency_position(rest, x)]);
        }
    }
}

/// The active sessions are listed most recently active first, and the list
/// holds the same sessions as before ordering.
pub proof fn lemma_sort_by_recency(s: Seq<SessionData>)
    ensures
        sort_by_recency(s).len() == s.len(),
        sort_by_recency(s).to_multiset() == s.to_multiset(),
        forall|i: int, j: int|
            0 <= i < j < s.len() ==> activity_key(#[trigger] sort_by_recency(s)[i])
                >= activity_key(#[trigger] sort_by_recency(s)[j]),
    decreases s.len(),
{
    if s.len() > 0 {
        let t = sort_by_recency(s.drop_last());
        let x = s.last();
        lemma_sort_by_recency(s.drop_last());
        lemma_recency_position(t, x);
        let p = recency_position(t, x);
        let r = t.insert(p, x);
        assert(r == sort_by_recency(s));
        vstd::seq_lib::to_multiset_insert(t, p, x);
        assert(s.drop_last().push(x) =~= s);
        vstd::seq_lib::to_multiset_build(s.drop_last(), x);
        assert(r.to_multiset() == s.to_multiset());
        assert forall|i: int, j: int| 0 <= i < j < r.len() implies activity_key(#[trigger] r[i])
            >= activity_key(#[trigger] r[j]) by {
            if j < p {
                assert(r[i] == t[i] && r[j] == t[j]);
            } else if j == p {
                assert(r[i] == t[i]);
            } else if i < p {
                assert(r[i] == t[i] && r[j] == t[j - 1]);
            } else if i == p {
                assert(r[j] == t[j - 1]);
                if j - 1 > p {
                    assert(activity_key(t[p]) >= activity_key(t[j - 1]));
                }
            } else {
                assert(r[i] == t[i - 1] && r[j] == t[j - 1]);
            }
        }
    } else {
        assert(s =~= Seq::<SessionData>::empty());
    }
}

/// The sessions active at `now`, most recently active first.
pub fn active_sessions_at(sessions: &Vec<ParsedSession>, now: Timestamp) -> (r: Vec<&SessionData>)
    ensures
        r@.map_values(|s: &SessionData| *s) == sort_by_recency(active_list(sessions@, now)),
{
    let mut out: Vec<&SessionData> = Vec::new();
    let mut keys: Vec<i128> = Vec::new();
    let n = sessions.len();
    for i in 0..n
        invariant
            n == sessions@.len(),
            out@.map_values(|s: &SessionData| *s) == sort_by_recency(
                active_list(sessions@.take(i as int), now),
            ),
            keys@.len() == out@.len(),
            forall|k: int| 0 <= k < keys@.len() ==> keys@[k] == activity_key(*(#[trigger] out@[k])),
    {
        let ghost before = sessions@.take(i as int);
        let ghost next = sessions@.take(i + 1);
        assert(next.drop_last() =~= before);
        assert(next.last() == sessions@[i as int]);
        let s = sessions[i].summary();
        let key = match s.last_activity {
            Some(la) => {
                if is_session_active(la, now) {
                    Some(la.unix_nanos())
                } else {
                    None
                }
            },
            None => None,
        };
        match key {
            Some(key) => {
                let ghost sv = out@.map_values(|s: &SessionData| *s);
                let ghost x = *s;
                let mut j: usize = 0;
                let m = keys.len();
                assert(sv.skip(0) =~= sv);
                while j < m && keys[j] >= key
                    invariant
                        m == keys@.len(),
                        m == sv.len(),
                        0 <= j <= m,
                        key == activity_key(x),
                        forall|k: int| 0 <= k < keys@.len() ==> keys@[k] == activity_key(#[trigger] sv[k]),
                        recency_position(sv, x) == j + recency_position(sv.skip(j as int), x),
                    decreases m - j,
                {
                    assert(sv.skip(j as int).drop_first() =~= sv.skip(j + 1));
                    assert(sv.skip(j as int)[0] == sv[j as int]);
                    j = j + 1;
                }
                assert(recency_position(sv, x) == j) by {
                    if j < m {
                        assert(sv.skip(j as int)[0] == sv[j as int]);
                    }
                }
                let ghost out_before = out@;
                out.insert(j, s);
                keys.insert(j, key);
                assert(out@.map_values(|s: &SessionData| *s) =~= sv.insert(j as int, x));
                assert(session_active(next.last(), now));
                let ghost prev = active_list(before, now);
                assert(active_list(next, now) == prev.push(x));
                assert(prev.push(x).drop_last() =~= prev);
                assert(sort_by_recency(prev.push(x)) == sv.insert(j as int, x));
                assert forall|k: int| 0 <= k < keys@.len() implies keys@[k] == activity_key(
                    *(#[trigger] out@[k]),
                ) by {
                    if k < j {
                        assert(out@[k] == out_before[k]);
                    } else if k > j {
                        assert(out@[k] == out_before[k - 1]);
                    }
                }
            },
            None => {
                assert(!session_active(next.last(), now));
                assert(active_list(next, now) == active_list(before, now));
            },
        }
    }
    assert(sessions@.take(n as int) =~= sessions@);
    out
}

/// The state store: the configuration, the sessions of the last successful
/// scan and the time of that scan.
pub struct AppState {
    pub config: Config,
    pub sessions: SessionSet,
    pub last_refresh: Option<Timestamp>,
}

impl AppState {
    /// A store that has not scanned yet.
    pub fn new(config: &Config) -> (r: AppState)
        ensures
            r.sessions.wf(),
            r.sessions@ == Seq::<ParsedSession>::empty(),
            r.last_refresh is None,
            r.config == *config,
    {
        let config = Config {
            data_dir: config.data_dir.clone(),
            projects_dir: config.projects_dir.clone(),
            history_file: config.history_file.clone(),
            window_hours: config.window_hours,
            token_limit: config.token_limit,
        };
        AppState { config, sessions: SessionSet::new(), last_refresh: None }
    }

    /// Installs the result of a completed scan in place of the previous one,
    /// and records when that happened.
    pub fn install(&mut self, scan: SessionSet)
        requires
            scan.wf(),
        ensures
            final(self).sessions == scan,
            final(self).last_refresh is Some,
            final(self).config == old(self).config,
    {
        self.sessions = scan;
        self.last_refresh = Some(current_time());
    }

    /// The sessions active now, most recently active first.
    pub fn get_active_sessions(&self) -> (r: Vec<&SessionData>)
        ensures
            exists|now: Timestamp|
                r@.map_values(|s: &SessionData| *s) == sort_by_recency(
                    #[trigger] active_list(self.sessions@, now),
                ),
    {
        let now = current_time();
        let r = active_sessions_at(self.sessions.sessions(), now);
        assert(r@.map_values(|s: &SessionData| *s) == sort_by_recency(active_list(self.sessions@, now)));
        r
    }

    /// The snapshot now; `None` where one of its counters would not fit its
    /// integer type.
    pub fn get_stats(&self) -> (r: Option<Stats>)
        requires
            self.sessions.wf(),
        ensures
            r is Some <==> stats_fit(self.sessions@),
            r matches Some(s) ==> exists|now: Timestamp|
                s.describes(self.sessions@, now, self.config.token_limit, self.config.window_hours),
    {
        let now = current_time();
        compute_stats(
            self.sessions.sessions(),
            now,
            self.config.token_limit,
            self.config.window_hours,
        )
    }
}

/// The snapshot is a function of the sessions read and of the instant: two
/// snapshots of the same sessions at the same instant agree in every value.
pub proof fn lemma_snapshot_deterministic(
    a: Stats,
    b: Stats,
    ps: Seq<ParsedSession>,
    now: Timestamp,
    limit: u64,
    window_hours: u32,
)
    requires
        a.describes(ps, now, limit, window_hours),
        b.describes(ps, now, limit, window_hours),
    ensures
        a.total_usage == b.total_usage,
        a.rolling_usage == b.rolling_usage,
        a.budget == b.budget,
        a.active_sessions == b.active_sessions,
        a.active_agents == b.active_agents,
        a.total_messages == b.total_messages,
        a.projects@.map_values(|p: crate::stats::ProjectStats| p@) == b.projects@.map_values(
            |p: crate::stats::ProjectStats| p@,
        ),
{
}

} // verus!
