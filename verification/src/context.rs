//! Context export: events, agent sessions, streams and gaps of a period.
use vstd::prelude::*;
use vstd::string::*;

use crate::model::{AgentSession, EventType, SessionType, StoredEvent, Stream};
use crate::text;
use crate::time;
use crate::time::{Instant, Timestamp};
use crate::util;

verus! {

/// A gap between two events of direct user activity.
#[derive(Debug)]
pub struct GapExport {
    pub start: Timestamp,
    pub end: Timestamp,
    pub duration_minutes: i64,
    pub before_event_type: String,
    pub after_event_type: String,
}

/// Whether events of this type are direct user activity.
pub fn is_user_event(event_type: &EventType) -> (r: bool)
    ensures
        r == event_type.is_user(),
{
    match event_type {
        EventType::UserMessage => true,
        EventType::TmuxPaneFocus => true,
        EventType::TmuxScroll => true,
        EventType::WindowFocus => true,
        EventType::BrowserTab => true,
        _ => false,
    }
}

/// Whole milliseconds from one event to another.
pub open spec fn millis_between(before: StoredEvent, after: StoredEvent) -> int {
    time::truncated(after.timestamp@.since(before.timestamp@), 1_000_000)
}

/// The neighbours among `events` that lie at least `threshold` milliseconds apart.
pub open spec fn apart(events: Seq<StoredEvent>, threshold: int) -> Seq<(StoredEvent, StoredEvent)>
    decreases events.len(),
{
    if events.len() < 2 {
        Seq::empty()
    } else {
        let rest = apart(events.drop_last(), threshold);
        let before = events[events.len() - 2];
        let after = events.last();
        if millis_between(before, after) >= threshold {
            rest.push((before, after))
        } else {
            rest
        }
    }
}

/// The events of direct user activity.
pub open spec fn user_events(events: Seq<StoredEvent>) -> Seq<StoredEvent> {
    events.filter(|e: StoredEvent| e.event_type.is_user())
}

/// The gaps of at least `minutes` among the user events of `events`.
pub open spec fn user_gaps(events: Seq<StoredEvent>, minutes: int) -> Seq<
    (StoredEvent, StoredEvent),
> {
    apart(user_events(events), minutes * 60 * 1000)
}

impl GapExport {
    /// Whether this is the gap between the events of `pair`.
    pub open spec fn lies_between(self, pair: (StoredEvent, StoredEvent)) -> bool {
        &&& self.start == pair.0.timestamp
        &&& self.end == pair.1.timestamp
        &&& self.duration_minutes == time::truncated(millis_between(pair.0, pair.1), 60_000)
        &&& self.before_event_type@ == pair.0.event_type.name()
        &&& self.after_event_type@ == pair.1.event_type.name()
    }
}

/// Finds the gaps between user events that last at least `threshold_minutes`.
pub fn find_gaps(events: &Vec<StoredEvent>, threshold_minutes: u32) -> (r: Vec<GapExport>)
    ensures
        r@.len() == user_gaps(events@, threshold_minutes as int).len(),
        forall|i: int|
            0 <= i < r@.len() ==> (#[trigger] r@[i]).lies_between(
                user_gaps(events@, threshold_minutes as int)[i],
            ),
{
    let ghost pred = |e: StoredEvent| e.event_type.is_user();
    let threshold: i64 = threshold_minutes as i64 * 60 * 1000;
    let mut gaps: Vec<GapExport> = Vec::new();
    let mut last: Option<usize> = None;
    let mut i: usize = 0;
    proof {
        reveal(Seq::filter);
        assert(events@.take(0).filter(pred) =~= Seq::empty());
    }
    while i < events.len()
        invariant
            i <= events@.len(),
            threshold == threshold_minutes * 60 * 1000,
            pred == (|e: StoredEvent| e.event_type.is_user()),
            match last {
                Some(k) => k < events@.len() && events@.take(i as int).filter(pred).len() > 0
                    && events@[k as int] == events@.take(i as int).filter(pred).last(),
                None => events@.take(i as int).filter(pred).len() == 0,
            },
            gaps@.len() == apart(events@.take(i as int).filter(pred), threshold as int).len(),
            forall|k: int|
                0 <= k < gaps@.len() ==> (#[trigger] gaps@[k]).lies_between(
                    apart(events@.take(i as int).filter(pred), threshold as int)[k],
                ),
        decreases events@.len() - i,
    {
        let ghost before = events@.take(i as int).filter(pred);
        proof {
            reveal(Seq::filter);
            assert(events@.take(i + 1).drop_last() =~= events@.take(i as int));
        }
        if is_user_event(&events[i].event_type) {
            let ghost after = before.push(events@[i as int]);
            proof {
                assert(events@.take(i + 1).filter(pred) =~= after);
                assert(after.drop_last() =~= before);
            }
            if let Some(k) = last {
                let elapsed: i64 = events[i].timestamp.millis_since(&events[k].timestamp);
                proof {
                    assert(after[after.len() - 2] == events@[k as int]);
                }
                if elapsed >= threshold {
                    gaps.push(
                        GapExport {
                            start: events[k].timestamp,
                            end: events[i].timestamp,
                            duration_minutes: elapsed / 60_000,
                            before_event_type: events[k].event_type.as_str().to_owned(),
                            after_event_type: events[i].event_type.as_str().to_owned(),
                        },
                    );
                }
            }
            last = Some(i);
        }
        i += 1;
    }
    proof {
        assert(events@.take(i as int) =~= events@);
    }
    gaps
}

/// Bytes of a summary in compact output.
pub const COMPACT_SUMMARY_BYTES: usize = 120;

/// The period of an export.
#[derive(Clone, Copy, Debug)]
pub struct TimeRange {
    pub start: Timestamp,
    pub end: Timestamp,
}

/// An event as it is exported.
#[derive(Debug)]
pub struct EventExport {
    pub id: String,
    pub timestamp: Timestamp,
    pub event_type: String,
    pub source: String,
    pub cwd: Option<String>,
    pub git_project: Option<String>,
    pub git_workspace: Option<String>,
    pub session_id: Option<String>,
    pub tmux_session: Option<String>,
    pub pane_id: Option<String>,
    pub machine_id: Option<String>,
    pub stream_id: Option<String>,
}

/// An agent session as it is exported.
#[derive(Debug)]
pub struct AgentExport {
    pub session_id: String,
    pub parent_session_id: Option<String>,
    pub session_type: SessionType,
    pub source: String,
    pub project_path: String,
    pub project_name: String,
    pub start_time: Timestamp,
    pub end_time: Option<Timestamp>,
    pub summary: Option<String>,
    pub starting_prompt: Option<String>,
    pub user_prompts: Vec<String>,
    pub user_prompt_count: i32,
    pub assistant_message_count: i32,
    pub tool_call_count: i32,
}

/// A stream as it is exported.
#[derive(Debug)]
pub struct StreamExport {
    pub id: String,
    pub name: Option<String>,
    pub time_direct_ms: i64,
    pub time_delegated_ms: i64,
    pub first_event_at: Option<Timestamp>,
    pub last_event_at: Option<Timestamp>,
}

/// Everything that is exported.
#[derive(Debug)]
pub struct ContextOutput {
    pub time_range: TimeRange,
    pub events: Option<Vec<EventExport>>,
    pub agents: Option<Vec<AgentExport>>,
    pub streams: Option<Vec<StreamExport>>,
    pub gaps: Option<Vec<GapExport>>,
}

impl EventExport {
    /// Whether this exports the event `e`.
    pub open spec fn exports(self, e: StoredEvent) -> bool {
        &&& self.id == e.id
        &&& self.timestamp == e.timestamp
        &&& self.event_type@ == e.event_type.name()
        &&& self.source == e.source
        &&& self.cwd == e.cwd
        &&& self.git_project == e.git_project
        &&& self.git_workspace == e.git_workspace
        &&& self.session_id == e.session_id
        &&& self.tmux_session == e.tmux_session
        &&& self.pane_id == e.pane_id
        &&& self.machine_id == e.machine_id
        &&& self.stream_id == e.stream_id
    }
}

/// How many prompts are reported: as many as there are, as far as that can be.
pub open spec fn reported_count(n: nat) -> int {
    if n <= i32::MAX {
        n as int
    } else {
        i32::MAX as int
    }
}

impl AgentExport {
    /// Whether this exports all of the session `s` but its summary and prompts.
    pub open spec fn describes(self, s: AgentSession) -> bool {
        &&& self.session_id == s.session_id
        &&& self.parent_session_id == s.parent_session_id
        &&& self.session_type == s.session_type
        &&& self.source == s.source
        &&& self.project_path == s.project_path
        &&& self.project_name == s.project_name
        &&& self.start_time == s.start_time
        &&& self.end_time == s.end_time
        &&& self.starting_prompt == s.starting_prompt
        &&& self.user_prompt_count == reported_count(s.user_prompts@.len())
        &&& self.assistant_message_count == s.assistant_message_count
        &&& self.tool_call_count == s.tool_call_count
    }

    /// Whether this exports the session `s`; in compact form with the start of its
    /// summary and its first prompt.
    pub open spec fn exports(self, s: AgentSession, compact: bool) -> bool {
        &&& self.describes(s)
        &&& if compact {
            &&& text::opt_text(self.summary) == compact_summary(s.summary)
            &&& self.user_prompts@ == if s.user_prompts@.len() > 1 {
                s.user_prompts@.take(1)
            } else {
                s.user_prompts@
            }
        } else {
            self.summary == s.summary && self.user_prompts == s.user_prompts
        }
    }
}

/// A summary in compact form.
pub open spec fn compact_summary(summary: Option<String>) -> Option<Seq<char>> {
    match summary {
        Some(s) => if vstd::utf8::encode_utf8(s@).len() > COMPACT_SUMMARY_BYTES {
            Some(text::byte_prefix(s@, COMPACT_SUMMARY_BYTES as int))
        } else {
            Some(s@)
        },
        None => None,
    }
}

/// Whether a summary can be cut to its compact form.
pub open spec fn can_compact(s: AgentSession) -> bool {
    s.summary matches Some(summary) ==> (vstd::utf8::encode_utf8(summary@).len()
        > COMPACT_SUMMARY_BYTES ==> text::cuts_at(summary@, COMPACT_SUMMARY_BYTES as int))
}

impl StreamExport {
    /// Whether this exports the stream `s`.
    pub open spec fn exports(self, s: Stream) -> bool {
        &&& self.id == s.id
        &&& self.name == s.name
        &&& self.time_direct_ms == s.time_direct_ms
        &&& self.time_delegated_ms == s.time_delegated_ms
        &&& self.first_event_at == s.first_event_at
        &&& self.last_event_at == s.last_event_at
    }
}

/// Whether an event is exported: with `unclassified`, only where it has no stream.
pub open spec fn is_exported(e: StoredEvent, unclassified: bool) -> bool {
    unclassified ==> e.stream_id is None
}

/// Exports events; with `unclassified`, those without a stream.
pub fn export_events(events: Vec<StoredEvent>, unclassified: bool) -> (r: Vec<EventExport>)
    ensures
        ({
            let kept = events@.filter(|e: StoredEvent| is_exported(e, unclassified));
            &&& r@.len() == kept.len()
            &&& forall|i: int| 0 <= i < r@.len() ==> (#[trigger] r@[i]).exports(kept[i])
        }),
{
    let ghost all = events@;
    let ghost pred = |e: StoredEvent| is_exported(e, unclassified);
    let mut out: Vec<EventExport> = Vec::new();
    proof {
        reveal(Seq::filter);
        assert(all.take(0).filter(pred) =~= Seq::empty());
    }
    for e in it: events
        invariant
            it.seq() == all,
            pred == (|e: StoredEvent| is_exported(e, unclassified)),
            out@.len() == all.take(it.index()).filter(pred).len(),
            forall|i: int|
                0 <= i < out@.len() ==> (#[trigger] out@[i]).exports(
                    all.take(it.index()).filter(pred)[i],
                ),
    {
        let ghost n = it.index();
        proof {
            reveal(Seq::filter);
            assert(all.take(n + 1).drop_last() =~= all.take(n));
            assert(all.take(n + 1).last() == e);
        }
        if !unclassified || e.stream_id.is_none() {
            let event_type = e.event_type.as_str().to_owned();
            out.push(
                EventExport {
                    id: e.id,
                    timestamp: e.timestamp,
                    event_type,
                    source: e.source,
                    cwd: e.cwd,
                    git_project: e.git_project,
                    git_workspace: e.git_workspace,
                    session_id: e.session_id,
                    tmux_session: e.tmux_session,
                    pane_id: e.pane_id,
                    machine_id: e.machine_id,
                    stream_id: e.stream_id,
                },
            );
        }
    }
    proof {
        assert(all.take(all.len() as int) =~= all);
    }
    out
}

fn compact_text(summary: Option<String>) -> (r: Option<String>)
    requires
        summary matches Some(s) ==> (vstd::utf8::encode_utf8(s@).len() > COMPACT_SUMMARY_BYTES
            ==> text::cuts_at(s@, COMPACT_SUMMARY_BYTES as int)),
    ensures
        text::opt_text(r) == compact_summary(summary),
{
    match summary {
        Some(s) => if s.as_str().as_bytes().len() > COMPACT_SUMMARY_BYTES {
            Some(text::prefix_bytes(s.as_str(), COMPACT_SUMMARY_BYTES))
        } else {
            Some(s)
        },
        None => None,
    }
}

fn export_agent(s: AgentSession, compact: bool) -> (r: AgentExport)
    requires
        compact ==> can_compact(s),
    ensures
        r.exports(s, compact),
{
    let count: usize = s.user_prompts.len();
    let user_prompt_count: i32 = if count as u64 <= i32::MAX as u64 {
        count as i32
    } else {
        i32::MAX
    };
    let mut user_prompts = s.user_prompts;
    let summary: Option<String> = if compact {
        if count > 1 {
            user_prompts.truncate(1);
        }
        compact_text(s.summary)
    } else {
        s.summary
    };
    AgentExport {
        session_id: s.session_id,
        parent_session_id: s.parent_session_id,
        session_type: s.session_type,
        source: s.source,
        project_path: s.project_path,
        project_name: s.project_name,
        start_time: s.start_time,
        end_time: s.end_time,
        summary,
        starting_prompt: s.starting_prompt,
        user_prompts,
        user_prompt_count,
        assistant_message_count: s.assistant_message_count,
        tool_call_count: s.tool_call_count,
    }
}

/// Exports agent sessions, in compact form on request.
pub fn export_agents(sessions: Vec<AgentSession>, compact: bool) -> (r: Vec<AgentExport>)
    requires
        compact ==> (forall|i: int|
            0 <= i < sessions@.len() ==> can_compact(#[trigger] sessions@[i])),
    ensures
        r@.len() == sessions@.len(),
        forall|i: int|
            0 <= i < r@.len() ==> (#[trigger] r@[i]).exports(sessions@[i], compact),
{
    let ghost all = sessions@;
    let mut out: Vec<AgentExport> = Vec::new();
    for s in it: sessions
        invariant
            it.seq() == all,
            out@.len() == it.index(),
            compact ==> (forall|i: int| 0 <= i < all.len() ==> can_compact(#[trigger] all[i])),
            forall|i: int| 0 <= i < out@.len() ==> (#[trigger] out@[i]).exports(all[i], compact),
    {
        proof {
            assert(compact ==> can_compact(all[it.index()]));
        }
        out.push(export_agent(s, compact));
    }
    out
}

/// Whether every summary can be cut to its compact form.
pub fn can_export_compact(sessions: &Vec<AgentSession>) -> (r: bool)
    ensures
        r == (forall|i: int| 0 <= i < sessions@.len() ==> can_compact(#[trigger] sessions@[i])),
{
    let mut i: usize = 0;
    while i < sessions.len()
        invariant
            i <= sessions@.len(),
            forall|k: int| 0 <= k < i ==> can_compact(#[trigger] sessions@[k]),
        decreases sessions@.len() - i,
    {
        if let Some(summary) = &sessions[i].summary {
            if summary.as_str().as_bytes().len() > COMPACT_SUMMARY_BYTES
                && !summary.as_str().is_char_boundary(COMPACT_SUMMARY_BYTES) {
                proof {
                    assert(!can_compact(sessions@[i as int]));
                }
                return false;
            }
        }
        i += 1;
    }
    true
}

/// Exports streams.
pub fn export_streams(streams: Vec<Stream>) -> (r: Vec<StreamExport>)
    ensures
        r@.len() == streams@.len(),
        forall|i: int| 0 <= i < r@.len() ==> (#[trigger] r@[i]).exports(streams@[i]),
{
    let ghost all = streams@;
    let mut out: Vec<StreamExport> = Vec::new();
    for s in it: streams
        invariant
            it.seq() == all,
            out@.len() == it.index(),
            forall|i: int| 0 <= i < out@.len() ==> (#[trigger] out@[i]).exports(all[i]),
    {
        out.push(
            StreamExport {
                id: s.id,
                name: s.name,
                time_direct_ms: s.time_direct_ms,
                time_delegated_ms: s.time_delegated_ms,
                first_event_at: s.first_event_at,
                last_event_at: s.last_event_at,
            },
        );
    }
    out
}

/// Why a period cannot be exported.
#[derive(Debug)]
pub enum PeriodRefused {
    /// The end is no point in time.
    InvalidEnd,
    /// The start is no point in time.
    InvalidStart,
    /// The start comes after the end; the message says so.
    Reversed(String),
}

/// The message for a period that starts after its end.
pub open spec fn reversed_message(start: Instant, end: Instant) -> Seq<char> {
    "start time ("@ + time::formatted_text(start.secs, start.nanos, time::second_format())
        + ") is after end time ("@ + time::formatted_text(
        end.secs,
        end.nanos,
        time::second_format(),
    ) + ")"@
}

/// Resolves the period of an export at the time `now`: it ends now where no end is
/// given, starts a day before its end where no start is, and does not start after
/// its end.
pub fn resolve_period(start: Option<&str>, end: Option<&str>, now: &Timestamp) -> (r: Result<
    TimeRange,
    PeriodRefused,
>)
    requires
        start is None ==> util::leaves_a_day(text::opt_str(end), now@),
    ensures
        match util::period_at(text::opt_str(start), text::opt_str(end), now@) {
            Err(util::PeriodError::InvalidEnd) => r matches Err(PeriodRefused::InvalidEnd),
            Err(util::PeriodError::InvalidStart) => r matches Err(PeriodRefused::InvalidStart),
            Ok(period) => if period.0.at_most(period.1) {
                r matches Ok(range) && range.start@ == period.0 && range.end@ == period.1
            } else {
                r matches Err(PeriodRefused::Reversed(message)) && message@ == reversed_message(
                    period.0,
                    period.1,
                )
            },
        },
{
    match util::resolve_time_range(start, end, now) {
        Err(error) => match error {
            util::PeriodError::InvalidEnd => Err(PeriodRefused::InvalidEnd),
            util::PeriodError::InvalidStart => Err(PeriodRefused::InvalidStart),
        },
        Ok((start, end)) => {
            if start.at_most(&end) {
                return Ok(TimeRange { start, end });
            }
            let mut message = "start time (".to_owned();
            message.append(start.to_second_text().as_str());
            message.append(") is after end time (");
            message.append(end.to_second_text().as_str());
            message.append(")");
            Err(PeriodRefused::Reversed(message))
        },
    }
}

/// What is asked for: each part only where it is given.
pub struct ContextRequest {
    pub events: Option<Vec<StoredEvent>>,
    pub agents: Option<Vec<AgentSession>>,
    pub streams: Option<Vec<Stream>>,
    /// The events among which gaps are sought, and how many minutes a gap lasts.
    pub gaps: Option<(Vec<StoredEvent>, u32)>,
    /// Leave out events that have a stream.
    pub unclassified: bool,
    /// Cut summaries and prompts.
    pub summary: bool,
}

/// Puts the export of a period together.
pub fn build_context(time_range: TimeRange, request: ContextRequest) -> (r: ContextOutput)
    requires
        request.summary ==> (request.agents matches Some(sessions) ==> (forall|i: int|
            0 <= i < sessions@.len() ==> can_compact(#[trigger] sessions@[i]))),
    ensures
        r.time_range == time_range,
        match request.events {
            Some(events) => r.events matches Some(out) && ({
                let kept = events@.filter(
                    |e: StoredEvent| is_exported(e, request.unclassified),
                );
                &&& out@.len() == kept.len()
                &&& forall|i: int| 0 <= i < out@.len() ==> (#[trigger] out@[i]).exports(kept[i])
            }),
            None => r.events is None,
        },
        match request.agents {
            Some(sessions) => r.agents matches Some(out) && out@.len() == sessions@.len()
                && (forall|i: int|
                0 <= i < out@.len() ==> (#[trigger] out@[i]).exports(
                    sessions@[i],
                    request.summary,
                )),
            None => r.agents is None,
        },
        match request.streams {
            Some(streams) => r.streams matches Some(out) && out@.len() == streams@.len()
                && (forall|i: int|
                0 <= i < out@.len() ==> (#[trigger] out@[i]).exports(streams@[i])),
            None => r.streams is None,
        },
        match request.gaps {
            Some(asked) => r.gaps matches Some(out) && out@.len() == user_gaps(
                asked.0@,
                asked.1 as int,
            ).len() && (forall|i: int|
                0 <= i < out@.len() ==> (#[trigger] out@[i]).lies_between(
                    user_gaps(asked.0@, asked.1 as int)[i],
                )),
            None => r.gaps is None,
        },
{
    let events: Option<Vec<EventExport>> = match request.events {
        Some(events) => Some(export_events(events, request.unclassified)),
        None => None,
    };
    let agents: Option<Vec<AgentExport>> = match request.agents {
        Some(sessions) => Some(export_agents(sessions, request.summary)),
        None => None,
    };
    let streams: Option<Vec<StreamExport>> = match request.streams {
        Some(streams) => Some(export_streams(streams)),
        None => None,
    };
    let gaps: Option<Vec<GapExport>> = match &request.gaps {
        Some(asked) => Some(find_gaps(&asked.0, asked.1)),
        None => None,
    };
    ContextOutput { time_range, events, agents, streams, gaps }
}

/// Every gap lies between two user events and lasts at least as long as asked for.
pub proof fn gaps_are_gaps(events: Seq<StoredEvent>, minutes: int, i: int)
    requires
        0 <= i < user_gaps(events, minutes).len(),
    ensures
        user_gaps(events, minutes)[i].0.event_type.is_user(),
        user_gaps(events, minutes)[i].1.event_type.is_user(),
        millis_between(user_gaps(events, minutes)[i].0, user_gaps(events, minutes)[i].1)
            >= minutes * 60 * 1000,
{
    let pred = |e: StoredEvent| e.event_type.is_user();
    let kept = events.filter(pred);
    assert forall|k: int| 0 <= k < kept.len() implies (#[trigger] kept[k]).event_type.is_user() by {
        events.lemma_filter_pred(pred, k);
        assert(pred(kept[k]));
    }
    apart_are_members(kept, minutes * 60 * 1000, i);
}

proof fn apart_are_found(events: Seq<StoredEvent>, threshold: int, i: int)
    requires
        0 < i < events.len(),
        millis_between(events[i - 1], events[i]) >= threshold,
    ensures
        apart(events, threshold).contains((events[i - 1], events[i])),
    decreases events.len(),
{
    let rest = apart(events.drop_last(), threshold);
    let all = apart(events, threshold);
    if i == events.len() - 1 {
        assert(all.last() == (events[i - 1], events[i]));
    } else {
        apart_are_found(events.drop_last(), threshold, i);
        let k = choose|k: int| 0 <= k < rest.len() && rest[k] == (events[i - 1], events[i]);
        assert(all[k] == rest[k]);
    }
}

/// Wherever two user events follow each other after at least as long as asked for,
/// that is a gap. Events of other kinds in between do not end it.
pub proof fn every_gap_is_found(events: Seq<StoredEvent>, minutes: int, i: int)
    requires
        0 < i < user_events(events).len(),
        millis_between(user_events(events)[i - 1], user_events(events)[i]) >= minutes * 60 * 1000,
    ensures
        user_gaps(events, minutes).contains((user_events(events)[i - 1], user_events(events)[i])),
{
    apart_are_found(user_events(events), minutes * 60 * 1000, i);
}

proof fn apart_are_members(events: Seq<StoredEvent>, threshold: int, i: int)
    requires
        0 <= i < apart(events, threshold).len(),
        forall|k: int| 0 <= k < events.len() ==> (#[trigger] events[k]).event_type.is_user(),
    ensures
        apart(events, threshold)[i].0.event_type.is_user(),
        apart(events, threshold)[i].1.event_type.is_user(),
        millis_between(apart(events, threshold)[i].0, apart(events, threshold)[i].1) >= threshold,
    decreases events.len(),
{
    let rest = apart(events.drop_last(), threshold);
    if i < rest.len() {
        assert forall|k: int| 0 <= k < events.len() - 1 implies (
        #[trigger] events.drop_last()[k]).event_type.is_user() by {
            assert(events[k].event_type.is_user());
        }
        apart_are_members(events.drop_last(), threshold, i);
    } else {
        assert(events[events.len() - 2].event_type.is_user());
        assert(events[events.len() - 1].event_type.is_user());
    }
}

/// Direct activity is what a person does themselves: sending a message, giving a pane or
/// a window the focus, scrolling, changing a browser's tab. The events of it are kept in
/// their order, and no other is.
pub proof fn direct_activity_is_kept(a: Seq<StoredEvent>, b: Seq<StoredEvent>, event: StoredEvent)
    ensures
        user_events(a + b) == user_events(a) + user_events(b),
        event.event_type is UserMessage || event.event_type is TmuxPaneFocus || event.event_type
            is TmuxScroll || event.event_type is WindowFocus || event.event_type is BrowserTab
            ==> user_events(seq![event]) == seq![event],
        !(event.event_type is UserMessage || event.event_type is TmuxPaneFocus || event.event_type
            is TmuxScroll || event.event_type is WindowFocus || event.event_type is BrowserTab)
            ==> user_events(seq![event]).len() == 0,
{
    let pred = |e: StoredEvent| e.event_type.is_user();
    Seq::filter_distributes_over_add(a, b, pred);
    reveal(Seq::filter);
    assert(seq![event].drop_last() =~= Seq::empty());
    assert(Seq::<StoredEvent>::empty().filter(pred) =~= Seq::empty());
    assert(seq![event].last() == event);
    assert(user_events(seq![event]) =~= if pred(event) {
        seq![event]
    } else {
        Seq::empty()
    });
}

proof fn apart_are_neighbours(events: Seq<StoredEvent>, threshold: int, k: int) -> (i: int)
    requires
        0 <= k < apart(events, threshold).len(),
    ensures
        0 < i < events.len(),
        apart(events, threshold)[k] == (events[i - 1], events[i]),
    decreases events.len(),
{
    let rest = apart(events.drop_last(), threshold);
    if k < rest.len() {
        apart_are_neighbours(events.drop_last(), threshold, k)
    } else {
        events.len() - 1
    }
}

/// A gap starts with one user event and ends with the next: its ends are their times, and
/// it names the types of both, the earlier first. It lasts at least as many minutes as
/// asked for, and is told to last the whole minutes between them. `i` is where the later
/// of the two stands among the user events.
pub proof fn gaps_tell_of_their_ends(
    gap: GapExport,
    events: Seq<StoredEvent>,
    minutes: int,
    k: int,
) -> (i: int)
    requires
        minutes >= 0,
        0 <= k < user_gaps(events, minutes).len(),
        gap.lies_between(user_gaps(events, minutes)[k]),
    ensures
        0 < i < user_events(events).len(),
        gap.start@ == user_events(events)[i - 1].timestamp@,
        gap.end@ == user_events(events)[i].timestamp@,
        gap.before_event_type@ == user_events(events)[i - 1].event_type.name(),
        gap.after_event_type@ == user_events(events)[i].event_type.name(),
        gap.duration_minutes >= minutes,
        gap.start@.at_most(gap.end@) && 0 <= gap.start@.nanos < 1_000_000_000 && 0
            <= gap.end@.nanos < 1_000_000_000 ==> ({
            let lasts = time::epoch_nanos(gap.end@) - time::epoch_nanos(gap.start@);
            gap.duration_minutes * 60_000_000_000 <= lasts < (gap.duration_minutes + 1)
                * 60_000_000_000
        }),
{
    let kept = user_events(events);
    let i = apart_are_neighbours(kept, minutes * 60 * 1000, k);
    gaps_are_gaps(events, minutes, k);
    let millis = millis_between(kept[i - 1], kept[i]);
    let nanos = kept[i].timestamp@.since(kept[i - 1].timestamp@);
    assert(millis >= minutes * 60 * 1000 >= 0);
    assert(gap.duration_minutes == millis / 60_000);
    if gap.start@.at_most(gap.end@) && 0 <= gap.start@.nanos < 1_000_000_000 && 0 <= gap.end@.nanos
        < 1_000_000_000 {
        time::instants_follow_the_clock(gap.start@, gap.end@);
        time::instants_follow_the_clock(gap.end@, gap.start@);
        assert(millis == nanos / 1_000_000);
    }
    i
}

/// Gaps come in the order of the events, and events that follow take none away.
pub proof fn gaps_come_in_order(events: Seq<StoredEvent>, later: StoredEvent, threshold: int)
    ensures
        apart(events.push(later), threshold).len() >= apart(events, threshold).len(),
        apart(events.push(later), threshold).take(apart(events, threshold).len() as int) == apart(
            events,
            threshold,
        ),
        apart(events.push(later), threshold).len() > apart(events, threshold).len() ==> apart(
            events.push(later),
            threshold,
        ).last().1 == later,
{
    assert(events.push(later).drop_last() =~= events);
    if events.len() == 0 {
        assert(apart(events, threshold) =~= Seq::empty());
    }
    assert(apart(events.push(later), threshold).take(apart(events, threshold).len() as int)
        =~= apart(events, threshold));
}

/// What is exported of an event is the event's own: each part stands where it stood.
pub proof fn exported_events_keep_what_they_tell(out: EventExport, e: StoredEvent)
    requires
        out.exports(e),
    ensures
        out.id@ == e.id@,
        out.timestamp@ == e.timestamp@,
        out.event_type@ == e.event_type.name(),
        out.source@ == e.source@,
        text::opt_text(out.cwd) == text::opt_text(e.cwd),
        text::opt_text(out.git_project) == text::opt_text(e.git_project),
        text::opt_text(out.git_workspace) == text::opt_text(e.git_workspace),
        text::opt_text(out.session_id) == text::opt_text(e.session_id),
        text::opt_text(out.tmux_session) == text::opt_text(e.tmux_session),
        text::opt_text(out.pane_id) == text::opt_text(e.pane_id),
        text::opt_text(out.machine_id) == text::opt_text(e.machine_id),
        text::opt_text(out.stream_id) == text::opt_text(e.stream_id),
{
}

/// Every event is exported, and where only those without a stream are asked for, exactly
/// those.
pub proof fn only_classified_events_are_left_out(e: StoredEvent)
    ensures
        is_exported(e, false),
        is_exported(e, true) <==> e.stream_id is None,
{
}

/// What is exported of a session is the session's own. In compact form its summary is
/// the start of what it was, in no more bytes than allowed and whole where it fits, and
/// of its prompts the first is left; all prompts are counted all the same.
pub proof fn exported_sessions_keep_what_they_tell(
    out: AgentExport,
    s: AgentSession,
    compact: bool,
)
    requires
        out.exports(s, compact),
        compact ==> can_compact(s),
    ensures
        out.session_id@ == s.session_id@,
        text::opt_text(out.parent_session_id) == text::opt_text(s.parent_session_id),
        out.session_type == s.session_type,
        out.source@ == s.source@,
        out.project_path@ == s.project_path@,
        out.project_name@ == s.project_name@,
        out.start_time@ == s.start_time@,
        time::opt_instant(out.end_time) == time::opt_instant(s.end_time),
        text::opt_text(out.starting_prompt) == text::opt_text(s.starting_prompt),
        s.user_prompts@.len() <= i32::MAX ==> out.user_prompt_count == s.user_prompts@.len(),
        out.assistant_message_count == s.assistant_message_count,
        out.tool_call_count == s.tool_call_count,
        !compact ==> text::opt_text(out.summary) == text::opt_text(s.summary)
            && out.user_prompts@ == s.user_prompts@,
        compact && s.user_prompts@.len() <= 1 ==> out.user_prompts@ == s.user_prompts@,
        compact && s.user_prompts@.len() > 1 ==> out.user_prompts@ == seq![s.user_prompts@[0]],
        out.summary is None <==> s.summary is None,
        compact && s.summary is Some ==> ({
            let whole = s.summary->0@;
            let shown = out.summary->0@;
            &&& shown.len() <= whole.len() && shown == whole.take(shown.len() as int)
            &&& vstd::utf8::encode_utf8(shown).len() <= 120
            &&& vstd::utf8::encode_utf8(whole).len() <= 120 ==> shown == whole
            &&& vstd::utf8::encode_utf8(whole).len() > 120 ==> vstd::utf8::encode_utf8(shown).len()
                == 120
        }),
{
    if compact {
        if s.user_prompts@.len() > 1 {
            assert(s.user_prompts@.take(1) =~= seq![s.user_prompts@[0]]);
        }
        if let Some(summary) = s.summary {
            let whole = summary@;
            if vstd::utf8::encode_utf8(whole).len() > COMPACT_SUMMARY_BYTES {
                text::cuts_give_prefixes(whole, COMPACT_SUMMARY_BYTES as int);
            } else {
                assert(whole.take(whole.len() as int) =~= whole);
            }
        }
    }
}

/// What is exported of a stream is the stream's own.
pub proof fn exported_streams_keep_what_they_tell(out: StreamExport, s: Stream)
    requires
        out.exports(s),
    ensures
        out.id@ == s.id@,
        text::opt_text(out.name) == text::opt_text(s.name),
        out.time_direct_ms == s.time_direct_ms,
        out.time_delegated_ms == s.time_delegated_ms,
        time::opt_instant(out.first_event_at) == time::opt_instant(s.first_event_at),
        time::opt_instant(out.last_event_at) == time::opt_instant(s.last_event_at),
{
}

/// The message for a period that starts after its end gives its start first and its end
/// last, each to the second.
pub proof fn reversed_periods_are_told_with_their_ends(start: Instant, end: Instant)
    ensures
        ({
            let told = reversed_message(start, end);
            let from = "start time ("@ + time::formatted_text(
                start.secs,
                start.nanos,
                "%Y-%m-%dT%H:%M:%SZ"@,
            );
            let until = time::formatted_text(end.secs, end.nanos, "%Y-%m-%dT%H:%M:%SZ"@) + ")"@;
            &&& told.take(from.len() as int) == from
            &&& told.skip(told.len() - until.len()) == until
        }),
{
    let told = reversed_message(start, end);
    let from = "start time ("@ + time::formatted_text(
        start.secs,
        start.nanos,
        "%Y-%m-%dT%H:%M:%SZ"@,
    );
    let until = time::formatted_text(end.secs, end.nanos, "%Y-%m-%dT%H:%M:%SZ"@) + ")"@;
    assert(told.take(from.len() as int) =~= from);
    assert(told.skip(told.len() - until.len()) =~= until);
}

} // verus!
