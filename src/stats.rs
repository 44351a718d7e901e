use vstd::prelude::*;
use crate::budget::{
    BudgetInfo, lemma_sessions_window_within_events, rolling_window, sessions_events_usage,
    sessions_window_oldest, sessions_window_usage, window_start,
};
use crate::session::{ParsedSession, events_usage};
use crate::time::{Timestamp, is_recent, is_session_active};
use crate::usage::{Counters, TokenUsage};

verus! {

/// A project's rollup as mathematical values.
pub struct ProjectView {
    pub path: Seq<char>,
    pub usage: Counters,
    pub sessions: nat,
    pub messages: nat,
}

/// Usage, session count and message count of all sessions that share a
/// project path.
#[derive(Clone, Debug)]
pub struct ProjectStats {
    pub path: String,
    pub usage: TokenUsage,
    pub session_count: u32,
    pub message_count: u32,
}

impl View for ProjectStats {
    type V = ProjectView;

    open spec fn view(&self) -> ProjectView {
        ProjectView {
            path: self.path@,
            usage: self.usage@,
            sessions: self.session_count as nat,
            messages: self.message_count as nat,
        }
    }
}

impl ProjectStats {
    /// A project with no sessions yet.
    pub fn new(path: String) -> (r: ProjectStats)
        ensures
            r@ == (ProjectView { path: path@, usage: Counters::zero(), sessions: 0, messages: 0 }),
    {
        ProjectStats { path, usage: TokenUsage::zero(), session_count: 0, message_count: 0 }
    }
}

/// The snapshot that readers see.
#[derive(Clone, Debug)]
pub struct Stats {
    pub total_usage: TokenUsage,
    pub rolling_usage: TokenUsage,
    pub budget: BudgetInfo,
    pub active_sessions: u32,
    pub active_agents: u32,
    pub total_messages: u32,
    pub projects: Vec<ProjectStats>,
}

/// The lifetime usage of all sessions.
pub open spec fn sessions_usage(ps: Seq<ParsedSession>) -> Counters
    decreases ps.len(),
{
    if ps.len() == 0 {
        Counters::zero()
    } else {
        sessions_usage(ps.drop_last()).plus(ps.last().spec_summary().usage@)
    }
}

/// The number of messages of all sessions.
pub open spec fn sessions_messages(ps: Seq<ParsedSession>) -> nat
    decreases ps.len(),
{
    if ps.len() == 0 {
        0
    } else {
        sessions_messages(ps.drop_last()) + ps.last().spec_summary().message_count as nat
    }
}

/// A session is active at `now`: its last activity is known and recent.
pub open spec fn session_active(p: ParsedSession, now: Timestamp) -> bool {
    match p.spec_summary().last_activity {
        Some(la) => is_recent(la, now),
        None => false,
    }
}

/// The number of sessions active at `now` that are sub-agents (`agent`) or
/// top-level sessions (`!agent`).
pub open spec fn count_active(ps: Seq<ParsedSession>, now: Timestamp, agent: bool) -> nat
    decreases ps.len(),
{
    if ps.len() == 0 {
        0
    } else {
        count_active(ps.drop_last(), now, agent) + if session_active(ps.last(), now)
            && ps.last().spec_summary().is_agent == agent {
            1nat
        } else {
            0nat
        }
    }
}

/// The distinct project paths, in the order in which they first appear.
pub open spec fn project_paths(ps: Seq<ParsedSession>) -> Seq<Seq<char>>
    decreases ps.len(),
{
    if ps.len() == 0 {
        Seq::empty()
    } else {
        let prev = project_paths(ps.drop_last());
        let p = ps.last().spec_summary().project_path@;
        if prev.contains(p) {
            prev
        } else {
            prev.push(p)
        }
    }
}

/// The rollup of the sessions whose project path is `path`.
pub open spec fn rollup(ps: Seq<ParsedSession>, path: Seq<char>) -> ProjectView
    decreases ps.len(),
{
    if ps.len() == 0 {
        ProjectView { path, usage: Counters::zero(), sessions: 0, messages: 0 }
    } else {
        let prev = rollup(ps.drop_last(), path);
        let s = ps.last().spec_summary();
        if s.project_path@ == path {
            ProjectView {
                path,
                usage: prev.usage.plus(s.usage@),
                sessions: prev.sessions + 1,
                messages: prev.messages + s.message_count as nat,
            }
        } else {
            prev
        }
    }
}

/// One rollup per project path, in the order in which the paths first appear.
pub open spec fn project_rollups(ps: Seq<ParsedSession>) -> Seq<ProjectView> {
    project_paths(ps).map_values(|p: Seq<char>| rollup(ps, p))
}

/// Where `x` goes in a list ordered by descending total: after every element
/// whose total is at least its own.
pub open spec fn desc_position(sorted: Seq<ProjectView>, x: ProjectView) -> int
    decreases sorted.len(),
{
    if sorted.len() == 0 {
        0
    } else if sorted[0].usage.total() < x.usage.total() {
        0
    } else {
        1 + desc_position(sorted.drop_first(), x)
    }
}

/// The rollups ordered by descending total; rollups with equal totals keep
/// their order.
pub open spec fn sort_by_total_desc(s: Seq<ProjectView>) -> Seq<ProjectView>
    decreases s.len(),
{
    if s.len() == 0 {
        Seq::empty()
    } else {
        let sorted = sort_by_total_desc(s.drop_last());
        sorted.insert(desc_position(sorted, s.last()), s.last())
    }
}

/// The snapshot's counters fit their integer types.
pub open spec fn stats_fit(ps: Seq<ParsedSession>) -> bool {
    &&& sessions_usage(ps).fits_u64()
    &&& sessions_usage(ps).total() <= u64::MAX
    &&& sessions_messages(ps) <= u32::MAX
    &&& ps.len() <= u32::MAX
}

/// Every session's events carry no more usage than the session itself.
pub open spec fn all_wf(ps: Seq<ParsedSession>) -> bool {
    forall|i: int| 0 <= i < ps.len() ==> (#[trigger] ps[i]).wf()
}

impl Stats {
    /// This is the snapshot of the sessions `ps` at `now`, for a budget of
    /// `limit` tokens over a window of `window_hours` hours.
    pub open spec fn describes(self, ps: Seq<ParsedSession>, now: Timestamp, limit: u64, window_hours: u32) -> bool {
        let start = window_start(now, window_hours);
        &&& self.total_usage@ == sessions_usage(ps)
        &&& self.rolling_usage@ == sessions_window_usage(ps, start)
        &&& self.budget.describes(
            sessions_window_usage(ps, start).billable() as int,
            limit as int,
            sessions_window_oldest(ps, start),
            now,
            window_hours,
        )
        &&& self.active_sessions == count_active(ps, now, false)
        &&& self.active_agents == count_active(ps, now, true)
        &&& self.total_messages == sessions_messages(ps)
        &&& self.projects@.map_values(|p: ProjectStats| p@) == sort_by_total_desc(project_rollups(ps))
    }
}

proof fn lemma_sessions_prefix_le(ps: Seq<ParsedSession>, i: int)
    requires
        0 <= i <= ps.len(),
    ensures
        sessions_usage(ps.take(i)).le(sessions_usage(ps)),
        sessions_usage(ps.take(i)).total() <= sessions_usage(ps).total(),
        sessions_messages(ps.take(i)) <= sessions_messages(ps),
    decreases ps.len(),
{
    if i < ps.len() {
        lemma_sessions_prefix_le(ps.drop_last(), i);
        assert(ps.drop_last().take(i) =~= ps.take(i));
    } else {
        assert(ps.take(i) =~= ps);
    }
}

proof fn lemma_rollup_le(ps: Seq<ParsedSession>, path: Seq<char>)
    ensures
        rollup(ps, path).usage.le(sessions_usage(ps)),
        rollup(ps, path).usage.total() <= sessions_usage(ps).total(),
        rollup(ps, path).sessions <= ps.len(),
        rollup(ps, path).messages <= sessions_messages(ps),
        rollup(ps, path).path == path,
    decreases ps.len(),
{
    if ps.len() > 0 {
        lemma_rollup_le(ps.drop_last(), path);
    }
}

proof fn lemma_rollup_absent(ps: Seq<ParsedSession>, path: Seq<char>)
    requires
        !project_paths(ps).contains(path),
    ensures
        rollup(ps, path) == (ProjectView { path, usage: Counters::zero(), sessions: 0, messages: 0 }),
    decreases ps.len(),
{
    if ps.len() > 0 {
        let prev = project_paths(ps.drop_last());
        let p = ps.last().spec_summary().project_path@;
        if prev.contains(p) {
            assert(p != path);
        } else {
            assert(project_paths(ps)[prev.len() as int] == p);
        }
        assert forall|k: int| 0 <= k < prev.len() implies prev[k] != path by {
            assert(project_paths(ps)[k] == prev[k]);
        }
        lemma_rollup_absent(ps.drop_last(), path);
    }
}

proof fn lemma_paths_distinct(ps: Seq<ParsedSession>)
    ensures
        project_paths(ps).no_duplicates(),
    decreases ps.len(),
{
    if ps.len() > 0 {
        lemma_paths_distinct(ps.drop_last());
    }
}

proof fn lemma_count_active_le(ps: Seq<ParsedSession>, now: Timestamp, agent: bool)
    ensures
        count_active(ps, now, agent) <= ps.len(),
    decreases ps.len(),
{
    if ps.len() > 0 {
        lemma_count_active_le(ps.drop_last(), now, agent);
    }
}

proof fn lemma_sessions_events_le(ps: Seq<ParsedSession>)
    requires
        all_wf(ps),
    ensures
        sessions_events_usage(ps).le(sessions_usage(ps)),
    decreases ps.len(),
{
    if ps.len() > 0 {
        assert(ps.last() == ps[ps.len() - 1]);
        assert(all_wf(ps.drop_last())) by {
            assert forall|i: int| 0 <= i < ps.drop_last().len() implies (#[trigger] ps.drop_last()[i]).wf() by {
                assert(ps.drop_last()[i] == ps[i]);
            }
        }
        lemma_sessions_events_le(ps.drop_last());
    }
}

/// Rolling usage never exceeds lifetime usage: for sessions whose events
/// carry no more usage than the sessions themselves, the usage in any window
/// is at most the lifetime usage, counter by counter, and so in billable tokens.
pub proof fn lemma_rolling_within_lifetime(ps: Seq<ParsedSession>, start: int)
    requires
        all_wf(ps),
    ensures
        sessions_window_usage(ps, start).le(sessions_usage(ps)),
        sessions_window_usage(ps, start).billable() <= sessions_usage(ps).billable(),
{
    lemma_sessions_window_within_events(ps, start);
    lemma_sessions_events_le(ps);
}

/// Whether the snapshot's counters fit their integer types.
pub fn stats_fit_check(sessions: &Vec<ParsedSession>) -> (r: bool)
    ensures
        r == stats_fit(sessions@),
{
    let n = sessions.len();
    if n > u32::MAX as usize {
        return false;
    }
    let mut usage = TokenUsage::zero();
    let mut messages: u32 = 0;
    for i in 0..n
        invariant
            n == sessions@.len(),
            usage@ == sessions_usage(sessions@.take(i as int)),
            messages == sessions_messages(sessions@.take(i as int)),
    {
        let ghost next = sessions@.take(i + 1);
        assert(next.drop_last() =~= sessions@.take(i as int));
        let s = sessions[i].summary();
        match usage.checked_add(&s.usage) {
            Some(u) => {
                usage = u;
            },
            None => {
                proof {
                    lemma_sessions_prefix_le(sessions@, i + 1);
                }
                return false;
            },
        }
        if messages > u32::MAX - s.message_count {
            proof {
                lemma_sessions_prefix_le(sessions@, i + 1);
            }
            return false;
        }
        messages = messages + s.message_count;
    }
    assert(sessions@.take(n as int) =~= sessions@);
    let total = usage.input_tokens as u128 + usage.output_tokens as u128
        + usage.cache_creation_input_tokens as u128 + usage.cache_read_input_tokens as u128;
    total <= u64::MAX as u128
}

/// One rollup per project path, in the order in which the paths first appear.
fn group_projects(sessions: &Vec<ParsedSession>) -> (r: Vec<ProjectStats>)
    requires
        stats_fit(sessions@),
    ensures
        r@.map_values(|p: ProjectStats| p@) == project_rollups(sessions@),
{
    let mut groups: Vec<ProjectStats> = Vec::new();
    let n = sessions.len();
    for i in 0..n
        invariant
            n == sessions@.len(),
            stats_fit(sessions@),
            groups@.map_values(|p: ProjectStats| p@) == project_rollups(sessions@.take(i as int)),
    {
        let ghost before = sessions@.take(i as int);
        let ghost next = sessions@.take(i + 1);
        assert(next.drop_last() =~= before);
        assert(next.last() == sessions@[i as int]);
        let ghost paths = project_paths(before);
        let s = sessions[i].summary();
        let mut j: usize = 0;
        let m = groups.len();
        while j < m && !(groups[j].path == s.project_path)
            invariant
                m == groups@.len(),
                0 <= j <= m,
                forall|k: int| 0 <= k < j ==> groups@[k].path@ != s.project_path@,
            decreases m - j,
        {
            j = j + 1;
        }
        proof {
            lemma_paths_distinct(before);
            lemma_sessions_prefix_le(sessions@, i + 1);
            lemma_rollup_le(next, s.project_path@);
        }
        assert(groups@.map_values(|p: ProjectStats| p@).len() == m);
        assert(m == paths.len());
        assert forall|k: int| 0 <= k < m implies #[trigger] groups@[k]@ == rollup(before, paths[k])
            && groups@[k].path@ == paths[k] by {
            assert(groups@.map_values(|p: ProjectStats| p@)[k] == groups@[k]@);
            lemma_rollup_le(before, paths[k]);
        }
        if j < m {
            assert(groups@[j as int].path@ == s.project_path@);
            assert(groups@[j as int]@ == rollup(before, paths[j as int]));
            assert(paths[j as int] == s.project_path@);
            assert(paths.contains(s.project_path@));
            assert(project_paths(next) == paths);
            let g = &groups[j];
            let updated = ProjectStats {
                path: g.path.clone(),
                usage: g.usage.add(&s.usage),
                session_count: g.session_count + 1,
                message_count: g.message_count + s.message_count,
            };
            groups.set(j, updated);
            assert forall|k: int| 0 <= k < m implies #[trigger] groups@[k]@ == rollup(next, paths[k]) by {
                if k != j {
                    assert(paths[k] != paths[j as int]);
                }
            }
        } else {
            assert forall|k: int| 0 <= k < m implies paths[k] != s.project_path@ by {
                assert(groups@[k]@ == rollup(before, paths[k]));
            }
            assert(!paths.contains(s.project_path@));
            assert(project_paths(next) == paths.push(s.project_path@));
            proof {
                lemma_rollup_absent(before, s.project_path@);
            }
            let fresh = ProjectStats {
                path: s.project_path.clone(),
                usage: s.usage,
                session_count: 1,
                message_count: s.message_count,
            };
            groups.push(fresh);
            assert forall|k: int| 0 <= k < m implies #[trigger] groups@[k]@ == rollup(next, paths[k]) by {
                assert(paths[k] != s.project_path@);
            }
        }
        assert(groups@.map_values(|p: ProjectStats| p@) =~= project_rollups(next));
    }
    assert(sessions@.take(n as int) =~= sessions@);
    groups
}

/// The rollups ordered by descending total, rollups with equal totals in their
/// given order.
fn sort_projects(groups: &Vec<ProjectStats>) -> (r: Vec<ProjectStats>)
    requires
        forall|k: int| 0 <= k < groups@.len() ==> (#[trigger] groups@[k]@).usage.total() <= u64::MAX,
    ensures
        r@.map_values(|p: ProjectStats| p@) == sort_by_total_desc(
            groups@.map_values(|p: ProjectStats| p@),
        ),
{
    let ghost views = groups@.map_values(|p: ProjectStats| p@);
    let mut sorted: Vec<ProjectStats> = Vec::new();
    let mut keys: Vec<u64> = Vec::new();
    let n = groups.len();
    for i in 0..n
        invariant
            n == groups@.len(),
            views == groups@.map_values(|p: ProjectStats| p@),
            forall|k: int| 0 <= k < groups@.len() ==> (#[trigger] groups@[k]@).usage.total() <= u64::MAX,
            sorted@.map_values(|p: ProjectStats| p@) == sort_by_total_desc(views.take(i as int)),
            keys@.len() == sorted@.len(),
            forall|k: int| 0 <= k < keys@.len() ==> keys@[k] == (#[trigger] sorted@[k]@).usage.total(),
    {
        let ghost sv = sorted@.map_values(|p: ProjectStats| p@);
        let g = &groups[i];
        assert(groups@[i as int]@.usage.total() <= u64::MAX);
        let key = g.usage.total();
        let ghost x = g@;
        assert(views.take(i + 1).drop_last() =~= views.take(i as int));
        assert(views.take(i + 1).last() == x);
        let mut j: usize = 0;
        let m = keys.len();
        assert(sv.skip(0) =~= sv);
        while j < m && keys[j] >= key
            invariant
                m == keys@.len(),
                m == sv.len(),
                0 <= j <= m,
                key == x.usage.total(),
                forall|k: int| 0 <= k < keys@.len() ==> keys@[k] == (#[trigger] sv[k]).usage.total(),
                desc_position(sv, x) == j + desc_position(sv.skip(j as int), x),
            decreases m - j,
        {
            assert(sv.skip(j as int).drop_first() =~= sv.skip(j + 1));
            assert(sv.skip(j as int)[0] == sv[j as int]);
            j = j + 1;
        }
        assert(desc_position(sv, x) == j) by {
            if j < m {
                assert(sv.skip(j as int)[0] == sv[j as int]);
            }
        }
        let copy = ProjectStats {
            path: g.path.clone(),
            usage: g.usage,
            session_count: g.session_count,
            message_count: g.message_count,
        };
        let ghost sorted_before = sorted@;
        sorted.insert(j, copy);
        keys.insert(j, key);
        assert(sorted@.map_values(|p: ProjectStats| p@) =~= sv.insert(j as int, x));
        assert forall|k: int| 0 <= k < keys@.len() implies keys@[k] == (#[trigger] sorted@[k]@).usage.total() by {
            if k < j {
                assert(sorted@[k] == sorted_before[k]);
                assert(sv[k] == sorted_before[k]@);
            } else if k > j {
                assert(sorted@[k] == sorted_before[k - 1]);
                assert(sv[k - 1] == sorted_before[k - 1]@);
            }
        }
    }
    assert(views.take(n as int) =~= views);
    sorted
}

proof fn lemma_desc_position(sorted: Seq<ProjectView>, x: ProjectView)
    ensures
        0 <= desc_position(sorted, x) <= sorted.len(),
        forall|k: int|
            0 <= k < desc_position(sorted, x) ==> (#[trigger] sorted[k]).usage.total()
                >= x.usage.total(),
        desc_position(sorted, x) < sorted.len() ==> sorted[desc_position(sorted, x)].usage.total()
            < x.usage.total(),
    decreases sorted.len(),
{
    if sorted.len() > 0 && sorted[0].usage.total() >= x.usage.total() {
        let rest = sorted.drop_first();
        lemma_desc_position(rest, x);
        assert forall|k: int| 0 <= k < desc_position(sorted, x) implies (#[trigger] sorted[k]).usage.total()
            >= x.usage.total() by {
            if k > 0 {
                assert(sorted[k] == rest[k - 1]);
            }
        }
        if desc_position(sorted, x) < sorted.len() {
            assert(sorted[desc_position(sorted, x)] == rest[desc_position(rest, x)]);
        }
    }
}

/// The project list is ordered by descending total, and holds the same
/// rollups as before ordering.
pub proof fn lemma_sort_by_total_desc(s: Seq<ProjectView>)
    ensures
        sort_by_total_desc(s).len() == s.len(),
        sort_by_total_desc(s).to_multiset() == s.to_multiset(),
        forall|i: int, j: int|
            0 <= i < j < s.len() ==> (#[trigger] sort_by_total_desc(s)[i]).usage.total()
                >= (#[trigger] sort_by_total_desc(s)[j]).usage.total(),
    decreases s.len(),
{
    if s.len() > 0 {
        let t = sort_by_total_desc(s.drop_last());
        let x = s.last();
        lemma_sort_by_total_desc(s.drop_last());
        lemma_desc_position(t, x);
        let p = desc_position(t, x);
        let r = t.insert(p, x);
        assert(r == sort_by_total_desc(s));
        vstd::seq_lib::to_multiset_insert(t, p, x);
        assert(s.drop_last().push(x) =~= s);
        vstd::seq_lib::to_multiset_build(s.drop_last(), x);
        assert(r.to_multiset() == s.to_multiset());
        assert forall|i: int, j: int| 0 <= i < j < r.len() implies (#[trigger] r[i]).usage.total()
            >= (#[trigger] r[j]).usage.total() by {
            if j < p {
                assert(r[i] == t[i] && r[j] == t[j]);
            } else if j == p {
                assert(r[i] == t[i]);
            } else if i < p {
                assert(r[i] == t[i] && r[j] == t[j - 1]);
            } else if i == p {
                assert(r[j] == t[j - 1]);
                if j - 1 > p {
                    assert(t[p].usage.total() >= t[j - 1].usage.total());
                }
            } else {
                assert(r[i] == t[i - 1] && r[j] == t[j - 1]);
            }
        }
    } else {
        assert(s =~= Seq::<ProjectView>::empty());
    }
}

/// The snapshot of `sessions` at `now`, for a budget of `limit` tokens over a
/// window of `window_hours` hours; `None` where a counter of the snapshot
/// would not fit its integer type.
pub fn compute_stats(sessions: &Vec<ParsedSession>, now: Timestamp, limit: u64, window_hours: u32) -> (r:
    Option<Stats>)
    requires
        all_wf(sessions@),
    ensures
        r is Some <==> stats_fit(sessions@),
        r matches Some(s) ==> s.describes(sessions@, now, limit, window_hours),
{
    if !stats_fit_check(sessions) {
        return None;
    }
    let n = sessions.len();
    let mut total_usage = TokenUsage::zero();
    let mut total_messages: u32 = 0;
    let mut active_sessions: u32 = 0;
    let mut active_agents: u32 = 0;
    for i in 0..n
        invariant
            n == sessions@.len(),
            stats_fit(sessions@),
            total_usage@ == sessions_usage(sessions@.take(i as int)),
            total_messages == sessions_messages(sessions@.take(i as int)),
            active_sessions == count_active(sessions@.take(i as int), now, false),
            active_agents == count_active(sessions@.take(i as int), now, true),
    {
        let ghost next = sessions@.take(i + 1);
        assert(next.drop_last() =~= sessions@.take(i as int));
        assert(next.last() == sessions@[i as int]);
        proof {
            lemma_sessions_prefix_le(sessions@, i + 1);
            lemma_count_active_le(next, now, false);
            lemma_count_active_le(next, now, true);
        }
        let s = sessions[i].summary();
        total_usage.add_assign(&s.usage);
        total_messages = total_messages + s.message_count;
        let active = match s.last_activity {
            Some(la) => is_session_active(la, now),
            None => false,
        };
        if active {
            if s.is_agent {
                active_agents = active_agents + 1;
            } else {
                active_sessions = active_sessions + 1;
            }
        }
    }
    assert(sessions@.take(n as int) =~= sessions@);
    let groups = group_projects(sessions);
    assert forall|k: int| 0 <= k < groups@.len() implies (#[trigger] groups@[k]@).usage.total()
        <= u64::MAX by {
        assert(groups@.map_values(|p: ProjectStats| p@).len() == groups@.len());
        assert(groups@.map_values(|p: ProjectStats| p@)[k] == groups@[k]@);
        assert(project_rollups(sessions@)[k] == rollup(sessions@, project_paths(sessions@)[k]));
        lemma_rollup_le(sessions@, project_paths(sessions@)[k]);
    }
    let projects = sort_projects(&groups);
    let ghost start = window_start(now, window_hours);
    proof {
        lemma_rolling_within_lifetime(sessions@, start);
    }
    let (rolling_usage, oldest) = match rolling_window(sessions, now, window_hours) {
        Some(w) => w,
        None => {
            return None;
        },
    };
    let budget = BudgetInfo::at(rolling_usage.billable(), limit, oldest, now, window_hours);
    Some(
        Stats {
            total_usage,
            rolling_usage,
            budget,
            active_sessions,
            active_agents,
            total_messages,
            projects,
        },
    )
}

} // verus!
