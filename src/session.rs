use vstd::prelude::*;
use crate::time::{Timestamp, parse_rfc3339, rfc3339_instant};
use crate::usage::{Counters, TokenUsage};

verus! {

/// The message that a transcript record may carry.
#[derive(Clone, Debug)]
pub struct Message {
    pub role: Option<String>,
    pub usage: Option<TokenUsage>,
    pub model: Option<String>,
}

/// One record (one line) of a transcript.
#[derive(Clone, Debug)]
pub struct MessageEntry {
    pub entry_type: Option<String>,
    pub message: Option<Message>,
    pub timestamp: Option<String>,
    pub session_id: Option<String>,
}

/// What one record contributes to its session: whether it is a message,
/// the usage it carries and its instant, where these are present and readable.
#[derive(Clone, Copy, Debug, PartialEq, Eq, Structural)]
pub struct LineRecord {
    pub is_message: bool,
    pub usage: Option<TokenUsage>,
    pub timestamp: Option<Timestamp>,
}

/// A usage event at a known instant.
#[derive(Clone, Copy, Debug, PartialEq, Eq, Structural)]
pub struct TimestampedUsage {
    pub timestamp: Timestamp,
    pub usage: TokenUsage,
}

/// The summary of one transcript file.
#[derive(Clone, Debug)]
pub struct SessionData {
    pub session_id: String,
    pub project_path: String,
    pub usage: TokenUsage,
    pub message_count: u32,
    pub last_activity: Option<Timestamp>,
    pub is_agent: bool,
}

/// A transcript file read: its summary and its timestamped usage events. Only
/// `summarize_lines` and `summarize_session` make one, so its events never
/// carry more usage than its summary (`wf`).
#[derive(Clone, Debug)]
pub struct ParsedSession {
    summary: SessionData,
    events: Vec<TimestampedUsage>,
}

/// Why a transcript could not be summarised.
#[derive(Clone, Copy, Debug, PartialEq, Eq, Structural)]
pub enum SummaryError {
    /// A usage counter of the session does not fit in a `u64`, or its message
    /// count does not fit in a `u32`.
    CounterOverflow,
}

/// The record types that count as messages.
pub open spec fn is_message_type(t: Seq<char>) -> bool {
    t == "assistant"@ || t == "user"@
}

/// The record that a transcript line stands for.
pub open spec fn record_of(e: MessageEntry) -> LineRecord {
    LineRecord {
        is_message: match e.entry_type {
            Some(t) => is_message_type(t@),
            None => false,
        },
        usage: match e.message {
            Some(m) => m.usage,
            None => None,
        },
        timestamp: match e.timestamp {
            Some(ts) => rfc3339_instant(ts@),
            None => None,
        },
    }
}

/// The usage that a line adds to its session.
pub open spec fn line_usage(r: Option<LineRecord>) -> Counters {
    match r {
        Some(rec) => match rec.usage {
            Some(u) => u@,
            None => Counters::zero(),
        },
        None => Counters::zero(),
    }
}

/// The usage of a session: the sum over its readable lines.
pub open spec fn lines_usage(recs: Seq<Option<LineRecord>>) -> Counters
    decreases recs.len(),
{
    if recs.len() == 0 {
        Counters::zero()
    } else {
        lines_usage(recs.drop_last()).plus(line_usage(recs.last()))
    }
}

/// The number of message records among the readable lines.
pub open spec fn lines_messages(recs: Seq<Option<LineRecord>>) -> nat
    decreases recs.len(),
{
    if recs.len() == 0 {
        0
    } else {
        lines_messages(recs.drop_last()) + match recs.last() {
            Some(rec) => if rec.is_message {
                1nat
            } else {
                0nat
            },
            None => 0nat,
        }
    }
}

/// The event that a line gives: one where it carries both usage and an instant.
pub open spec fn line_events(r: Option<LineRecord>) -> Seq<TimestampedUsage> {
    match r {
        Some(rec) => match (rec.usage, rec.timestamp) {
            (Some(u), Some(t)) => seq![TimestampedUsage { timestamp: t, usage: u }],
            _ => Seq::empty(),
        },
        None => Seq::empty(),
    }
}

/// The events of a session, in the order of its lines.
pub open spec fn lines_events(recs: Seq<Option<LineRecord>>) -> Seq<TimestampedUsage>
    decreases recs.len(),
{
    if recs.len() == 0 {
        Seq::empty()
    } else {
        lines_events(recs.drop_last()) + line_events(recs.last())
    }
}

/// The latest of `acc` and `t`; a later instant replaces `acc` only when it
/// is strictly later.
pub open spec fn later(acc: Option<Timestamp>, t: Option<Timestamp>) -> Option<Timestamp> {
    match t {
        Some(t) => match acc {
            Some(a) => if t.instant() > a.instant() {
                Some(t)
            } else {
                acc
            },
            None => Some(t),
        },
        None => acc,
    }
}

/// The last activity of a session: the latest instant among its readable lines.
pub open spec fn lines_last_activity(recs: Seq<Option<LineRecord>>) -> Option<Timestamp>
    decreases recs.len(),
{
    if recs.len() == 0 {
        None
    } else {
        later(
            lines_last_activity(recs.drop_last()),
            match recs.last() {
                Some(rec) => rec.timestamp,
                None => None,
            },
        )
    }
}

/// The session's counters fit their integer types.
pub open spec fn lines_fit(recs: Seq<Option<LineRecord>>) -> bool {
    lines_usage(recs).fits_u64() && lines_messages(recs) <= u32::MAX
}

/// The name prefix that marks the transcript of a sub-agent.
pub open spec fn agent_prefix() -> Seq<char> {
    "agent-"@
}

/// The session id that a file stem gives, and whether it is a sub-agent's.
pub open spec fn session_identity(stem: Seq<char>) -> (Seq<char>, bool) {
    if agent_prefix().is_prefix_of(stem) {
        (stem.skip(agent_prefix().len() as int), true)
    } else {
        (stem, false)
    }
}

/// The project path that a project directory's name stands for: each hyphen
/// read back as a path separator.
pub open spec fn project_path_of(dir_name: Seq<char>) -> Seq<char> {
    dir_name.map_values(|c: char| if c == '-' { '/' } else { c })
}

/// The sum of the usages of a list of events.
pub open spec fn events_usage(evs: Seq<TimestampedUsage>) -> Counters
    decreases evs.len(),
{
    if evs.len() == 0 {
        Counters::zero()
    } else {
        events_usage(evs.drop_last()).plus(evs.last().usage@)
    }
}

impl ParsedSession {
    /// The summary of the file.
    pub closed spec fn spec_summary(self) -> SessionData {
        self.summary
    }

    /// The events of the file, in the order of its lines.
    pub closed spec fn spec_events(self) -> Seq<TimestampedUsage> {
        self.events@
    }

    /// The summary of the file.
    pub fn summary(&self) -> (r: &SessionData)
        ensures
            *r == self.spec_summary(),
    {
        &self.summary
    }

    /// The timestamped usage events of the file, in the order of its lines.
    pub fn events(&self) -> (r: &Vec<TimestampedUsage>)
        ensures
            r@ == self.spec_events(),
    {
        &self.events
    }

    /// The events of the session carry no more usage than the session itself.
    pub open spec fn wf(self) -> bool {
        events_usage(self.spec_events()).le(self.spec_summary().usage@)
    }

    /// This is the summary of a file named `stem` in the directory `dir_name`
    /// whose readable lines are `recs`.
    pub open spec fn describes(
        self,
        stem: Seq<char>,
        dir_name: Seq<char>,
        recs: Seq<Option<LineRecord>>,
    ) -> bool {
        &&& self.spec_summary().session_id@ == session_identity(stem).0
        &&& self.spec_summary().is_agent == session_identity(stem).1
        &&& self.spec_summary().project_path@ == project_path_of(dir_name)
        &&& self.spec_summary().usage@ == lines_usage(recs)
        &&& self.spec_summary().message_count == lines_messages(recs)
        &&& self.spec_summary().last_activity == lines_last_activity(recs)
        &&& self.spec_events() == lines_events(recs)
    }
}

/// Relies on `str::strip_prefix`: what follows `prefix` in `s`, where `s`
/// starts with it.
#[verifier::external_body]
fn strip_str_prefix(s: &str, prefix: &str) -> (r: Option<String>)
    ensures
        r is Some <==> prefix@.is_prefix_of(s@),
        r matches Some(rest) ==> rest@ == s@.skip(prefix@.len() as int),
{
    s.strip_prefix(prefix).map(|rest| rest.to_string())
}

/// Relies on `str::replace`: every `from` in `s` becomes the one character of `to`.
#[verifier::external_body]
fn replace_char(s: &str, from: char, to: &str) -> (r: String)
    requires
        to@.len() == 1,
    ensures
        r@ == s@.map_values(|c: char| if c == from { to@[0] } else { c }),
{
    s.replace(from, to)
}

/// The file extension of transcript files.
pub open spec fn transcript_extension() -> Seq<char> {
    "jsonl"@
}

/// Whether a file with the extension `ext` is a transcript.
pub fn is_transcript_extension(ext: &str) -> (r: bool)
    ensures
        r == (ext@ == transcript_extension()),
{
    let wanted = String::from_str("jsonl");
    String::from_str(ext) == wanted
}

/// Whether a record type counts as a message.
pub fn is_message_type_str(t: &String) -> (r: bool)
    ensures
        r == is_message_type(t@),
{
    let assistant = String::from_str("assistant");
    let user = String::from_str("user");
    *t == assistant || *t == user
}

impl MessageEntry {
    /// What this record contributes to its session.
    pub fn record(&self) -> (r: LineRecord)
        ensures
            r == record_of(*self),
    {
        let is_message = match &self.entry_type {
            Some(t) => is_message_type_str(t),
            None => false,
        };
        let usage = match &self.message {
            Some(m) => m.usage,
            None => None,
        };
        let timestamp = match &self.timestamp {
            Some(ts) => parse_rfc3339(ts.as_str()),
            None => None,
        };
        LineRecord { is_message, usage, timestamp }
    }
}

/// The session id and agent flag that a transcript's file stem gives.
pub fn session_identity_of(stem: &str) -> (r: (String, bool))
    ensures
        r.0@ == session_identity(stem@).0,
        r.1 == session_identity(stem@).1,
{
    match strip_str_prefix(stem, "agent-") {
        Some(rest) => (rest, true),
        None => (String::from_str(stem), false),
    }
}

/// The project path that a project directory's name stands for.
pub fn project_path_from_dir(dir_name: &str) -> (r: String)
    ensures
        r@ == project_path_of(dir_name@),
{
    proof {
        reveal_strlit("/");
    }
    let r = replace_char(dir_name, '-', "/");
    assert(r@ =~= project_path_of(dir_name@));
    r
}

/// The usage and message count of a prefix of the lines are at most those of
/// all the lines.
proof fn lemma_lines_prefix_le(recs: Seq<Option<LineRecord>>, i: int)
    requires
        0 <= i <= recs.len(),
    ensures
        lines_usage(recs.take(i)).le(lines_usage(recs)),
        lines_messages(recs.take(i)) <= lines_messages(recs),
    decreases recs.len(),
{
    if i < recs.len() {
        lemma_lines_prefix_le(recs.drop_last(), i);
        assert(recs.drop_last().take(i) =~= recs.take(i));
    } else {
        assert(recs.take(i) =~= recs);
    }
}

/// Appending one event adds its usage to the sum.
proof fn lemma_events_usage_push(evs: Seq<TimestampedUsage>, e: TimestampedUsage)
    ensures
        events_usage(evs.push(e)) == events_usage(evs).plus(e.usage@),
{
    assert(evs.push(e).drop_last() =~= evs);
}

/// The events of a session carry no more usage than the session's lines.
proof fn lemma_lines_events_le(recs: Seq<Option<LineRecord>>)
    ensures
        events_usage(lines_events(recs)).le(lines_usage(recs)),
    decreases recs.len(),
{
    if recs.len() > 0 {
        lemma_lines_events_le(recs.drop_last());
        let prev = lines_events(recs.drop_last());
        match recs.last() {
            Some(rec) => match (rec.usage, rec.timestamp) {
                (Some(u), Some(t)) => {
                    let e = TimestampedUsage { timestamp: t, usage: u };
                    assert(prev + seq![e] =~= prev.push(e));
                    lemma_events_usage_push(prev, e);
                },
                _ => {
                    assert(prev + Seq::<TimestampedUsage>::empty() =~= prev);
                },
            },
            None => {
                assert(prev + Seq::<TimestampedUsage>::empty() =~= prev);
            },
        }
    }
}

/// Summarises a transcript file named `file_stem` in the project directory
/// `dir_name`, from its lines in order; `None` stands for a line that could not
/// be read as a record, which is skipped.
pub fn summarize_lines(file_stem: &str, dir_name: &str, lines: &Vec<Option<LineRecord>>) -> (r:
    Result<ParsedSession, SummaryError>)
    ensures
        r is Ok <==> lines_fit(lines@),
        r matches Ok(p) ==> p.describes(file_stem@, dir_name@, lines@) && p.wf(),
        r matches Err(e) ==> e == SummaryError::CounterOverflow,
{
    let (session_id, is_agent) = session_identity_of(file_stem);
    let project_path = project_path_from_dir(dir_name);
    let mut usage = TokenUsage::zero();
    let mut message_count: u32 = 0;
    let mut last_activity: Option<Timestamp> = None;
    let mut events: Vec<TimestampedUsage> = Vec::new();
    let n = lines.len();
    for i in 0..n
        invariant
            n == lines@.len(),
            usage@ == lines_usage(lines@.take(i as int)),
            message_count == lines_messages(lines@.take(i as int)),
            last_activity == lines_last_activity(lines@.take(i as int)),
            events@ == lines_events(lines@.take(i as int)),
    {
        let ghost pre = lines@.take(i as int);
        let ghost next = lines@.take(i + 1);
        assert(next.drop_last() =~= pre);
        assert(next.last() == lines@[i as int]);
        match lines[i] {
            Some(rec) => {
                if rec.is_message {
                    if message_count == u32::MAX {
                        proof {
                            lemma_lines_prefix_le(lines@, i + 1);
                        }
                        return Err(SummaryError::CounterOverflow);
                    }
                    message_count = message_count + 1;
                }
                match rec.usage {
                    Some(u) => {
                        match usage.checked_add(&u) {
                            Some(sum) => {
                                usage = sum;
                            },
                            None => {
                                proof {
                                    lemma_lines_prefix_le(lines@, i + 1);
                                }
                                return Err(SummaryError::CounterOverflow);
                            },
                        }
                        match rec.timestamp {
                            Some(t) => {
                                let e = TimestampedUsage { timestamp: t, usage: u };
                                events.push(e);
                            },
                            None => {},
                        }
                    },
                    None => {},
                }
                match rec.timestamp {
                    Some(t) => {
                        let newer = match last_activity {
                            Some(a) => t.unix_nanos() > a.unix_nanos(),
                            None => true,
                        };
                        if newer {
                            last_activity = Some(t);
                        }
                    },
                    None => {},
                }
            },
            None => {},
        }
        assert(events@ =~= lines_events(next));
    }
    assert(lines@.take(n as int) =~= lines@);
    proof {
        lemma_lines_events_le(lines@);
    }
    Ok(
        ParsedSession {
            summary: SessionData {
                session_id,
                project_path,
                usage,
                message_count,
                last_activity,
                is_agent,
            },
            events,
        },
    )
}

/// The records that a list of transcript lines stands for.
pub open spec fn records_of(entries: Seq<Option<MessageEntry>>) -> Seq<Option<LineRecord>> {
    entries.map_values(
        |e: Option<MessageEntry>|
            match e {
                Some(m) => Some(record_of(m)),
                None => None,
            },
    )
}

/// Summarises a transcript file named `file_stem` in the project directory
/// `dir_name`, from its lines in order; `None` stands for a line that is empty
/// or not a well-formed record, which is skipped.
pub fn summarize_session(file_stem: &str, dir_name: &str, entries: &Vec<Option<MessageEntry>>) -> (r:
    Result<ParsedSession, SummaryError>)
    ensures
        r is Ok <==> lines_fit(records_of(entries@)),
        r matches Ok(p) ==> p.describes(file_stem@, dir_name@, records_of(entries@)) && p.wf(),
        r matches Err(e) ==> e == SummaryError::CounterOverflow,
{
    let mut lines: Vec<Option<LineRecord>> = Vec::new();
    for i in 0..entries.len()
        invariant
            lines@ =~= records_of(entries@).take(i as int),
    {
        let rec = match &entries[i] {
            Some(e) => Some(e.record()),
            None => None,
        };
        lines.push(rec);
    }
    assert(lines@ =~= records_of(entries@));
    summarize_lines(file_stem, dir_name, &lines)
}

} // verus!
