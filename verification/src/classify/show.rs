//! What is shown for classification: the sessions, clusters, window runs, streams
//! and gaps of a period.
use vstd::hash_map::StringHashMap;
use vstd::prelude::*;
use vstd::string::*;

use crate::classify;
use crate::classify::todos::{LinkedTodo, SessionTodoIndex};
use crate::classify::{cluster_events, Cluster, EventCluster};
use crate::classify_auto::window_runs;
use crate::classify_auto::window_runs::{synthesize_window_runs, Run, WindowRun};
use crate::context;
use crate::context::find_gaps;
use crate::model::{AgentSession, SessionType, StoredEvent, Stream};
use crate::order;
use crate::order::{Ranked, TextKey, TextRank};
use crate::text;
use crate::time;
use crate::time::Timestamp;

verus! {

/// Bytes of a starting prompt that are shown.
pub const PROMPT_BYTES: usize = 200;

/// A session as it is shown for classification.
#[derive(Debug)]
pub struct SessionSummary {
    pub session_id: String,
    pub source: String,
    pub session_type: String,
    pub project_path: Option<String>,
    pub project_name: Option<String>,
    pub start_time: String,
    pub end_time: Option<String>,
    pub duration_minutes: Option<i64>,
    pub summary: Option<String>,
    pub starting_prompt: Option<String>,
    pub tool_call_count: i32,
    pub user_prompt_count: usize,
    pub stream_id: Option<String>,
    pub proposed_stream: Option<String>,
    pub linked_todo: Option<LinkedTodo>,
}

/// A stream as it is referred to.
#[derive(Debug)]
pub struct StreamRef {
    pub id: String,
    pub slug: Option<String>,
    pub name: Option<String>,
}

/// A gap between user activity.
#[derive(Debug)]
pub struct GapInfo {
    pub start: String,
    pub end: String,
    pub duration_minutes: i64,
}

/// The period shown.
#[derive(Debug)]
pub struct TimeRange {
    pub start: String,
    pub end: String,
}

/// How much is shown, and how much of it has no stream.
#[derive(Clone, Copy, Debug, PartialEq, Eq, Structural)]
pub struct ClassifyStats {
    pub total_sessions: usize,
    pub unclassified_sessions: usize,
    pub total_event_clusters: usize,
    pub unclassified_event_clusters: usize,
}

/// Everything that is shown for classification.
#[derive(Debug)]
pub struct ClassifyOutput {
    pub time_range: TimeRange,
    pub streams: Vec<StreamRef>,
    pub sessions: Vec<SessionSummary>,
    pub event_clusters: Vec<EventCluster>,
    pub window_runs: Vec<WindowRun>,
    pub gaps: Option<Vec<GapInfo>>,
    pub stats: ClassifyStats,
}

/// The stream of the first event in a directory that has one.
pub open spec fn first_stream(events: Seq<StoredEvent>, cwd: Seq<char>) -> Option<Seq<char>>
    decreases events.len(),
{
    if events.len() == 0 {
        None
    } else {
        let before = first_stream(events.drop_last(), cwd);
        let e = events.last();
        if before is Some {
            before
        } else if text::opt_text(e.cwd) == Some(cwd) {
            text::opt_text(e.stream_id)
        } else {
            None
        }
    }
}

/// The name of the stream with an id, empty where it has none; of several streams
/// with one id, that of the last.
pub open spec fn stream_name(streams: Seq<Stream>, id: Seq<char>) -> Option<Seq<char>>
    decreases streams.len(),
{
    if streams.len() == 0 {
        None
    } else if streams.last().id@ == id {
        match streams.last().name {
            Some(name) => Some(name@),
            None => Some(Seq::empty()),
        }
    } else {
        stream_name(streams.drop_last(), id)
    }
}

/// The stream that events in the directory of a session are in.
pub open spec fn session_stream(s: AgentSession, events: Seq<StoredEvent>) -> Option<Seq<char>> {
    first_stream(events, s.project_path@)
}

/// The text of an optional instant.
pub open spec fn opt_rfc3339(t: Option<Timestamp>) -> Option<Seq<char>> {
    match t {
        Some(t) => Some(time::rfc3339_text(t@.secs, t@.nanos)),
        None => None,
    }
}

/// The whole minutes that a session lasted, once it has ended.
pub open spec fn session_minutes(s: AgentSession) -> Option<int> {
    match s.end_time {
        Some(end) => Some(
            time::truncated(end@.since(s.start_time@), 60 * time::SECOND_NANOS),
        ),
        None => None,
    }
}

/// The starting prompt that is shown: only for a session without a summary, and
/// shortened.
pub open spec fn shown_prompt(s: AgentSession) -> Option<Seq<char>> {
    match (s.summary, s.starting_prompt) {
        (None, Some(prompt)) => Some(text::shortened(prompt@, PROMPT_BYTES as int)),
        _ => None,
    }
}

impl SessionSummary {
    /// Whether this shows the session `s` of a period with these events and
    /// streams.
    pub open spec fn shows(
        self,
        s: AgentSession,
        events: Seq<StoredEvent>,
        streams: Seq<Stream>,
        links: Map<Seq<char>, LinkedTodo>,
    ) -> bool {
        let stream = session_stream(s, events);
        &&& self.session_id@ == s.session_id@
        &&& self.source@ == s.source@
        &&& self.session_type@ == s.session_type.name()
        &&& text::opt_text(self.project_path) == Some(s.project_path@)
        &&& text::opt_text(self.project_name) == Some(s.project_name@)
        &&& self.start_time@ == time::rfc3339_text(s.start_time@.secs, s.start_time@.nanos)
        &&& text::opt_text(self.end_time) == opt_rfc3339(s.end_time)
        &&& match session_minutes(s) {
            Some(minutes) => self.duration_minutes matches Some(shown) && shown == minutes,
            None => self.duration_minutes is None,
        }
        &&& text::opt_text(self.summary) == text::opt_text(s.summary)
        &&& text::opt_text(self.starting_prompt) == shown_prompt(s)
        &&& self.tool_call_count == s.tool_call_count
        &&& self.user_prompt_count == s.user_prompts@.len()
        &&& text::opt_text(self.stream_id) == stream
        &&& text::opt_text(self.proposed_stream) == match stream {
            Some(id) => stream_name(streams, id),
            None => None,
        }
        &&& if links.contains_key(s.session_id@) {
            self.linked_todo == Some(links[s.session_id@])
        } else {
            self.linked_todo is None
        }
    }
}

/// Whether a session is shown: subagents are not, and with `unclassified` none is
/// whose directory has a stream.
pub open spec fn is_shown(s: AgentSession, events: Seq<StoredEvent>, unclassified: bool) -> bool {
    s.session_type != SessionType::Subagent && (unclassified ==> session_stream(s, events) is None)
}

/// The sessions that are shown.
pub open spec fn shown_sessions(
    sessions: Seq<AgentSession>,
    events: Seq<StoredEvent>,
    unclassified: bool,
) -> Seq<AgentSession> {
    sessions.filter(|s: AgentSession| is_shown(s, events, unclassified))
}

/// Whether every starting prompt that is shown can be shortened where it is cut.
pub open spec fn prompts_fit(sessions: Seq<AgentSession>) -> bool {
    forall|i: int|
        0 <= i < sessions.len() && (#[trigger] sessions[i]).session_type != SessionType::Subagent
            && sessions[i].summary is None ==> (sessions[i].starting_prompt matches Some(prompt)
            ==> text::can_shorten(prompt@, PROMPT_BYTES as int))
}

/// The events that belong to no session.
pub open spec fn sessionless(events: Seq<StoredEvent>) -> Seq<StoredEvent> {
    events.filter(|e: StoredEvent| e.session_id is None)
}

/// The clusters that are shown.
pub open spec fn shown_clusters(events: Seq<StoredEvent>, unclassified: bool) -> Seq<Cluster> {
    let clusters = classify::event_clusters(sessionless(events));
    if unclassified {
        clusters.filter(|c: Cluster| c.stream is None)
    } else {
        clusters
    }
}

/// The window runs that are shown.
pub open spec fn shown_runs(events: Seq<StoredEvent>, unclassified: bool) -> Seq<Run> {
    let runs = window_runs::window_runs(sessionless(events));
    if unclassified {
        runs.filter(|r: Run| r.stream is None)
    } else {
        runs
    }
}

/// Whether some event is assigned to the stream with an id.
pub open spec fn is_referenced(events: Seq<StoredEvent>, id: Seq<char>) -> bool {
    exists|i: int|
        0 <= i < events.len() && text::opt_text((#[trigger] events[i]).stream_id) == Some(id)
}

/// The streams that events are assigned to, in the order of their ids.
pub open spec fn referenced_streams(events: Seq<StoredEvent>, streams: Seq<Stream>) -> Seq<Stream> {
    let kept = streams.filter(|s: Stream| is_referenced(events, s.id@));
    order::stably_sorted(kept, kept.map_values(|s: Stream| TextKey(s.id@)))
}

impl StreamRef {
    /// Whether this refers to the stream `s`.
    pub open spec fn refers_to(self, s: Stream) -> bool {
        &&& self.id@ == s.id@
        &&& text::opt_text(self.slug) == text::opt_text(s.slug)
        &&& text::opt_text(self.name) == text::opt_text(s.name)
    }
}

/// Refers to the streams that events are assigned to, in the order of their ids.
pub fn streams_referenced_by_events(events: &Vec<StoredEvent>, all_streams: &Vec<Stream>) -> (r:
    Vec<StreamRef>)
    ensures
        r@.len() == referenced_streams(events@, all_streams@).len(),
        forall|i: int|
            0 <= i < r@.len() ==> (#[trigger] r@[i]).refers_to(
                referenced_streams(events@, all_streams@)[i],
            ),
{
    let mut ids: StringHashMap<bool> = StringHashMap::new();
    let mut i: usize = 0;
    while i < events.len()
        invariant
            i <= events@.len(),
            forall|id: Seq<char>| #[trigger]
                ids@.contains_key(id) <==> is_referenced(events@.take(i as int), id),
        decreases events@.len() - i,
    {
        let ghost before = events@.take(i as int);
        let ghost after = events@.take(i + 1);
        let ghost known = ids@;
        if let Some(id) = &events[i].stream_id {
            ids.insert(id.clone(), true);
        }
        proof {
            assert forall|id: Seq<char>| #[trigger] ids@.contains_key(id) <==> is_referenced(
                after,
                id,
            ) by {
                if is_referenced(before, id) {
                    let k = choose|k: int|
                        0 <= k < before.len() && text::opt_text((#[trigger] before[k]).stream_id)
                            == Some(id);
                    assert(after[k] == before[k]);
                }
                if is_referenced(after, id) && !is_referenced(before, id) {
                    let k = choose|k: int|
                        0 <= k < after.len() && text::opt_text((#[trigger] after[k]).stream_id)
                            == Some(id);
                    assert(k < i ==> before[k] == after[k]);
                }
                assert(after[i as int] == events@[i as int]);
            }
        }
        i += 1;
    }
    proof {
        assert(events@.take(i as int) =~= events@);
    }
    let ghost pred = |s: Stream| is_referenced(events@, s.id@);
    let mut kept: Vec<usize> = Vec::new();
    let mut ranks: Vec<TextRank> = Vec::new();
    let mut j: usize = 0;
    proof {
        reveal(Seq::filter);
        assert(all_streams@.take(0).filter(pred) =~= Seq::empty());
    }
    while j < all_streams.len()
        invariant
            j <= all_streams@.len(),
            pred == (|s: Stream| is_referenced(events@, s.id@)),
            forall|id: Seq<char>| #[trigger]
                ids@.contains_key(id) <==> is_referenced(events@, id),
            kept@.len() == ranks@.len(),
            all_streams@.take(j as int).filter(pred).len() == kept@.len(),
            forall|k: int|
                0 <= k < kept@.len() ==> #[trigger] kept@[k] < all_streams@.len()
                    && all_streams@.take(j as int).filter(pred)[k] == all_streams@[kept@[k] as int],
            forall|k: int|
                0 <= k < ranks@.len() ==> (#[trigger] ranks@[k]).key() == TextKey(
                    all_streams@.take(j as int).filter(pred)[k].id@,
                ),
        decreases all_streams@.len() - j,
    {
        proof {
            reveal(Seq::filter);
            assert(all_streams@.take(j + 1).drop_last() =~= all_streams@.take(j as int));
        }
        if ids.contains_key(all_streams[j].id.as_str()) {
            kept.push(j);
            ranks.push(TextRank { chars: text::chars_of(all_streams[j].id.as_str()) });
        }
        j += 1;
    }
    let ghost chosen = all_streams@.filter(pred);
    proof {
        assert(all_streams@.take(j as int) =~= all_streams@);
        assert(order::keys_of(ranks@) =~= chosen.map_values(|s: Stream| TextKey(s.id@)));
    }
    let positions = order::sort_positions(&ranks);
    let ghost sorted = referenced_streams(events@, all_streams@);
    proof {
        assert(sorted =~= order::as_ints(positions@).map_values(|k: int| chosen[k]));
    }
    let mut out: Vec<StreamRef> = Vec::new();
    let mut a: usize = 0;
    while a < positions.len()
        invariant
            a <= positions@.len(),
            out@.len() == a,
            sorted == order::as_ints(positions@).map_values(|k: int| chosen[k]),
            chosen.len() == kept@.len(),
            forall|k: int| 0 <= k < positions@.len() ==> #[trigger] positions@[k] < kept@.len(),
            forall|k: int|
                0 <= k < kept@.len() ==> #[trigger] kept@[k] < all_streams@.len() && chosen[k]
                    == all_streams@[kept@[k] as int],
            forall|k: int| 0 <= k < out@.len() ==> (#[trigger] out@[k]).refers_to(sorted[k]),
        decreases positions@.len() - a,
    {
        let stream = &all_streams[kept[positions[a]]];
        proof {
            assert(sorted[a as int] == *stream);
        }
        out.push(
            StreamRef {
                id: stream.id.clone(),
                slug: stream.slug.clone(),
                name: stream.name.clone(),
            },
        );
        a += 1;
    }
    out
}

/// The stream of each directory that has one.
fn streams_by_cwd(events: &Vec<StoredEvent>) -> (r: StringHashMap<String>)
    ensures
        forall|cwd: Seq<char>| #[trigger]
            r@.contains_key(cwd) <==> first_stream(events@, cwd) is Some,
        forall|cwd: Seq<char>| #[trigger]
            r@.contains_key(cwd) ==> first_stream(events@, cwd) == Some(r@[cwd]@),
{
    let mut map: StringHashMap<String> = StringHashMap::new();
    let mut i: usize = 0;
    while i < events.len()
        invariant
            i <= events@.len(),
            forall|cwd: Seq<char>| #[trigger]
                map@.contains_key(cwd) <==> first_stream(events@.take(i as int), cwd) is Some,
            forall|cwd: Seq<char>| #[trigger]
                map@.contains_key(cwd) ==> first_stream(events@.take(i as int), cwd) == Some(
                    map@[cwd]@,
                ),
        decreases events@.len() - i,
    {
        let event = &events[i];
        let ghost before = map@;
        proof {
            assert(events@.take(i + 1).drop_last() =~= events@.take(i as int));
            assert(events@.take(i + 1).last() == *event);
        }
        if let Some(cwd) = &event.cwd {
            if let Some(stream_id) = &event.stream_id {
                if !map.contains_key(cwd.as_str()) {
                    map.insert(cwd.clone(), stream_id.clone());
                }
            }
        }
        i += 1;
    }
    proof {
        assert(events@.take(i as int) =~= events@);
    }
    map
}

fn name_of_stream(streams: &Vec<Stream>, id: &str) -> (r: Option<String>)
    ensures
        text::opt_text(r) == stream_name(streams@, id@),
{
    let mut i: usize = streams.len();
    proof {
        assert(streams@.take(i as int) =~= streams@);
    }
    while i > 0
        invariant
            i <= streams@.len(),
            stream_name(streams@, id@) == stream_name(streams@.take(i as int), id@),
        decreases i,
    {
        proof {
            assert(streams@.take(i as int).drop_last() =~= streams@.take(i - 1));
            assert(streams@.take(i as int).last() == streams@[i - 1]);
        }
        if text::same(streams[i - 1].id.as_str(), id) {
            return match &streams[i - 1].name {
                Some(name) => Some(name.clone()),
                None => Some(String::new()),
            };
        }
        i -= 1;
    }
    None
}

/// Shortens a text to `max_len` bytes.
pub fn truncate(s: &str, max_len: usize) -> (r: String)
    requires
        text::can_shorten(s@, max_len as int),
    ensures
        r@ == text::shortened(s@, max_len as int),
{
    if s.as_bytes().len() <= max_len {
        s.to_owned()
    } else {
        let cut: usize = if max_len > 3 {
            max_len - 3
        } else {
            0
        };
        let mut out = text::prefix_bytes(s, cut);
        out.append("...");
        out
    }
}

/// Whether every starting prompt that is shown can be shortened where it is cut.
pub fn can_show(sessions: &Vec<AgentSession>) -> (r: bool)
    ensures
        r == prompts_fit(sessions@),
{
    let mut i: usize = 0;
    while i < sessions.len()
        invariant
            i <= sessions@.len(),
            prompts_fit(sessions@.take(i as int)),
        decreases sessions@.len() - i,
    {
        let s = &sessions[i];
        if s.session_type != SessionType::Subagent && s.summary.is_none() {
            if let Some(prompt) = &s.starting_prompt {
                if !text::is_shortenable(prompt.as_str(), PROMPT_BYTES) {
                    return false;
                }
            }
        }
        proof {
            let after = sessions@.take(i + 1);
            assert forall|k: int|
                0 <= k < after.len() && (#[trigger] after[k]).session_type != SessionType::Subagent
                    && after[k].summary is None implies (after[k].starting_prompt matches Some(
                prompt,
            ) ==> text::can_shorten(prompt@, PROMPT_BYTES as int)) by {
                if k < i {
                    assert(sessions@.take(i as int)[k] == after[k]);
                }
            }
        }
        i += 1;
    }
    proof {
        assert(sessions@.take(i as int) =~= sessions@);
    }
    true
}

fn summarize(
    s: &AgentSession,
    stream_id: Option<String>,
    streams: &Vec<Stream>,
    index: &SessionTodoIndex,
    Ghost(events): Ghost<Seq<StoredEvent>>,
) -> (r: SessionSummary)
    requires
        text::opt_text(stream_id) == session_stream(*s, events),
        s.summary is None ==> (s.starting_prompt matches Some(prompt) ==> text::can_shorten(
            prompt@,
            PROMPT_BYTES as int,
        )),
    ensures
        r.shows(*s, events, streams@, index.links()),
{
    let duration_minutes: Option<i64> = match &s.end_time {
        Some(end) => Some(end.minutes_since(&s.start_time)),
        None => None,
    };
    let end_time: Option<String> = match &s.end_time {
        Some(end) => Some(end.to_rfc3339()),
        None => None,
    };
    let starting_prompt: Option<String> = if s.summary.is_none() {
        match &s.starting_prompt {
            Some(prompt) => Some(truncate(prompt.as_str(), PROMPT_BYTES)),
            None => None,
        }
    } else {
        None
    };
    let proposed_stream: Option<String> = match &stream_id {
        Some(id) => name_of_stream(streams, id.as_str()),
        None => None,
    };
    let linked_todo: Option<LinkedTodo> = match index.get(s.session_id.as_str()) {
        Some(link) => Some(
            LinkedTodo {
                id: link.id.clone(),
                text: link.text.clone(),
                stream_slug: link.stream_slug.clone(),
            },
        ),
        None => None,
    };
    SessionSummary {
        session_id: s.session_id.clone(),
        source: s.source.as_str().to_owned(),
        session_type: s.session_type.as_str().to_owned(),
        project_path: Some(s.project_path.clone()),
        project_name: Some(s.project_name.clone()),
        start_time: s.start_time.to_rfc3339(),
        end_time,
        duration_minutes,
        summary: s.summary.clone(),
        starting_prompt,
        tool_call_count: s.tool_call_count,
        user_prompt_count: s.user_prompts.len(),
        stream_id,
        proposed_stream,
        linked_todo,
    }
}

/// Whether `shown` shows the sessions `sessions`, one each.
pub open spec fn show_sessions(
    shown: Seq<SessionSummary>,
    sessions: Seq<AgentSession>,
    events: Seq<StoredEvent>,
    streams: Seq<Stream>,
    links: Map<Seq<char>, LinkedTodo>,
) -> bool {
    &&& shown.len() == sessions.len()
    &&& forall|i: int|
        0 <= i < sessions.len() ==> (#[trigger] shown[i]).shows(sessions[i], events, streams, links)
}

fn summarize_sessions(
    sessions: &Vec<AgentSession>,
    events: &Vec<StoredEvent>,
    streams: &Vec<Stream>,
    index: &SessionTodoIndex,
    unclassified: bool,
) -> (r: Vec<SessionSummary>)
    requires
        prompts_fit(sessions@),
    ensures
        show_sessions(
            r@,
            shown_sessions(sessions@, events@, unclassified),
            events@,
            streams@,
            index.links(),
        ),
{
    let by_cwd = streams_by_cwd(events);
    let ghost pred = |s: AgentSession| is_shown(s, events@, unclassified);
    let mut out: Vec<SessionSummary> = Vec::new();
    let mut i: usize = 0;
    proof {
        reveal(Seq::filter);
        assert(sessions@.take(0).filter(pred) =~= Seq::empty());
    }
    while i < sessions.len()
        invariant
            i <= sessions@.len(),
            prompts_fit(sessions@),
            pred == (|s: AgentSession| is_shown(s, events@, unclassified)),
            forall|cwd: Seq<char>| #[trigger]
                by_cwd@.contains_key(cwd) <==> first_stream(events@, cwd) is Some,
            forall|cwd: Seq<char>| #[trigger]
                by_cwd@.contains_key(cwd) ==> first_stream(events@, cwd) == Some(by_cwd@[cwd]@),
            show_sessions(
                out@,
                sessions@.take(i as int).filter(pred),
                events@,
                streams@,
                index.links(),
            ),
        decreases sessions@.len() - i,
    {
        let s = &sessions[i];
        proof {
            reveal(Seq::filter);
            assert(sessions@.take(i + 1).drop_last() =~= sessions@.take(i as int));
            assert(sessions@.take(i + 1).last() == *s);
        }
        if s.session_type != SessionType::Subagent {
            let stream_id: Option<String> = match by_cwd.get(s.project_path.as_str()) {
                Some(id) => Some(id.clone()),
                None => None,
            };
            if !unclassified || stream_id.is_none() {
                out.push(summarize(s, stream_id, streams, index, Ghost(events@)));
            }
        }
        i += 1;
    }
    proof {
        assert(sessions@.take(i as int) =~= sessions@);
    }
    out
}

/// The events that belong to no session.
fn sessionless_events(events: &Vec<StoredEvent>) -> (r: Vec<&StoredEvent>)
    ensures
        r@.unref() == sessionless(events@),
{
    let ghost pred = |e: StoredEvent| e.session_id is None;
    let mut out: Vec<&StoredEvent> = Vec::new();
    let mut i: usize = 0;
    proof {
        reveal(Seq::filter);
        assert(events@.take(0).filter(pred) =~= Seq::empty());
    }
    while i < events.len()
        invariant
            i <= events@.len(),
            pred == (|e: StoredEvent| e.session_id is None),
            out@.unref() == events@.take(i as int).filter(pred),
        decreases events@.len() - i,
    {
        let ghost before = out@.unref();
        proof {
            reveal(Seq::filter);
            assert(events@.take(i + 1).drop_last() =~= events@.take(i as int));
        }
        if events[i].session_id.is_none() {
            out.push(&events[i]);
            proof {
                assert(out@.unref() =~= before.push(events@[i as int]));
            }
        }
        i += 1;
    }
    proof {
        assert(events@.take(i as int) =~= events@);
    }
    out
}

fn clusters_to_show(events: &Vec<&StoredEvent>, unclassified: bool) -> (r: Vec<EventCluster>)
    ensures
        classify::show_clusters(
            r@,
            ({
                let clusters = classify::event_clusters(events@.unref());
                if unclassified {
                    clusters.filter(|c: Cluster| c.stream is None)
                } else {
                    clusters
                }
            }),
        ),
{
    let clusters = cluster_events(events);
    if !unclassified {
        return clusters;
    }
    let ghost all = classify::event_clusters(events@.unref());
    let ghost shown = clusters@;
    let mut marks: Vec<bool> = Vec::new();
    let mut i: usize = 0;
    while i < clusters.len()
        invariant
            i <= clusters@.len(),
            marks@.len() == i,
            classify::show_clusters(clusters@, all),
            forall|k: int| 0 <= k < i ==> #[trigger] marks@[k] == (all[k].stream is None),
        decreases clusters@.len() - i,
    {
        proof {
            assert(clusters@[i as int].shows(all[i as int]));
        }
        marks.push(clusters[i].stream_id.is_none());
        i += 1;
    }
    proof {
        let rel = |a: EventCluster, b: Cluster| a.shows(b);
        order::chosen_pairs(shown, all, marks@, rel);
        order::chosen_filters(all, marks@, |c: Cluster| c.stream is None);
        assert forall|k: int| 0 <= k < order::chosen(shown, marks@).len() implies (
        #[trigger] order::chosen(shown, marks@)[k]).shows(order::chosen(all, marks@)[k]) by {
            assert(rel(order::chosen(shown, marks@)[k], order::chosen(all, marks@)[k]));
        }
    }
    order::keep_marked(clusters, &marks)
}

fn runs_to_show(events: &Vec<&StoredEvent>, unclassified: bool) -> (r: Vec<WindowRun>)
    ensures
        window_runs::show_runs(
            r@,
            ({
                let runs = window_runs::window_runs(events@.unref());
                if unclassified {
                    runs.filter(|r: Run| r.stream is None)
                } else {
                    runs
                }
            }),
        ),
{
    let runs = synthesize_window_runs(events);
    if !unclassified {
        return runs;
    }
    let ghost all = window_runs::window_runs(events@.unref());
    let ghost shown = runs@;
    let mut marks: Vec<bool> = Vec::new();
    let mut i: usize = 0;
    while i < runs.len()
        invariant
            i <= runs@.len(),
            marks@.len() == i,
            window_runs::show_runs(runs@, all),
            forall|k: int| 0 <= k < i ==> #[trigger] marks@[k] == (all[k].stream is None),
        decreases runs@.len() - i,
    {
        proof {
            assert(runs@[i as int].shows(all[i as int]));
        }
        marks.push(runs[i].stream_id.is_none());
        i += 1;
    }
    proof {
        let rel = |a: WindowRun, b: Run| a.shows(b);
        order::chosen_pairs(shown, all, marks@, rel);
        order::chosen_filters(all, marks@, |r: Run| r.stream is None);
        assert forall|k: int| 0 <= k < order::chosen(shown, marks@).len() implies (
        #[trigger] order::chosen(shown, marks@)[k]).shows(order::chosen(all, marks@)[k]) by {
            assert(rel(order::chosen(shown, marks@)[k], order::chosen(all, marks@)[k]));
        }
    }
    order::keep_marked(runs, &marks)
}

impl GapInfo {
    /// Whether this is the gap between the events of `pair`.
    pub open spec fn lies_between(self, pair: (StoredEvent, StoredEvent)) -> bool {
        &&& self.start@ == time::rfc3339_text(pair.0.timestamp@.secs, pair.0.timestamp@.nanos)
        &&& self.end@ == time::rfc3339_text(pair.1.timestamp@.secs, pair.1.timestamp@.nanos)
        &&& self.duration_minutes == time::truncated(
            context::millis_between(pair.0, pair.1),
            60_000,
        )
    }
}

fn gaps_to_show(events: &Vec<StoredEvent>, threshold_minutes: u32) -> (r: Vec<GapInfo>)
    ensures
        r@.len() == context::user_gaps(events@, threshold_minutes as int).len(),
        forall|i: int|
            0 <= i < r@.len() ==> (#[trigger] r@[i]).lies_between(
                context::user_gaps(events@, threshold_minutes as int)[i],
            ),
{
    let gaps = find_gaps(events, threshold_minutes);
    let ghost pairs = context::user_gaps(events@, threshold_minutes as int);
    let mut out: Vec<GapInfo> = Vec::new();
    let mut i: usize = 0;
    while i < gaps.len()
        invariant
            i <= gaps@.len(),
            out@.len() == i,
            gaps@.len() == pairs.len(),
            forall|k: int| 0 <= k < gaps@.len() ==> (#[trigger] gaps@[k]).lies_between(pairs[k]),
            forall|k: int| 0 <= k < i ==> (#[trigger] out@[k]).lies_between(pairs[k]),
        decreases gaps@.len() - i,
    {
        proof {
            assert(gaps@[i as int].lies_between(pairs[i as int]));
        }
        out.push(
            GapInfo {
                start: gaps[i].start.to_rfc3339(),
                end: gaps[i].end.to_rfc3339(),
                duration_minutes: gaps[i].duration_minutes,
            },
        );
        i += 1;
    }
    out
}

/// How many of the shown sessions have no stream.
pub open spec fn sessions_without_stream(sessions: Seq<SessionSummary>) -> nat
    decreases sessions.len(),
{
    if sessions.len() == 0 {
        0
    } else {
        sessions_without_stream(sessions.drop_last()) + if sessions.last().stream_id is None {
            1nat
        } else {
            0nat
        }
    }
}

/// How many of the shown clusters have no stream.
pub open spec fn clusters_without_stream(clusters: Seq<EventCluster>) -> nat
    decreases clusters.len(),
{
    if clusters.len() == 0 {
        0
    } else {
        clusters_without_stream(clusters.drop_last()) + if clusters.last().stream_id is None {
            1nat
        } else {
            0nat
        }
    }
}

fn count_sessions_without_stream(sessions: &Vec<SessionSummary>) -> (r: usize)
    ensures
        r == sessions_without_stream(sessions@),
{
    let mut n: usize = 0;
    let mut i: usize = 0;
    while i < sessions.len()
        invariant
            n <= i <= sessions@.len(),
            n == sessions_without_stream(sessions@.take(i as int)),
        decreases sessions@.len() - i,
    {
        proof {
            assert(sessions@.take(i + 1).drop_last() =~= sessions@.take(i as int));
        }
        if sessions[i].stream_id.is_none() {
            n += 1;
        }
        i += 1;
    }
    proof {
        assert(sessions@.take(i as int) =~= sessions@);
    }
    n
}

fn count_clusters_without_stream(clusters: &Vec<EventCluster>) -> (r: usize)
    ensures
        r == clusters_without_stream(clusters@),
{
    let mut n: usize = 0;
    let mut i: usize = 0;
    while i < clusters.len()
        invariant
            n <= i <= clusters@.len(),
            n == clusters_without_stream(clusters@.take(i as int)),
        decreases clusters@.len() - i,
    {
        proof {
            assert(clusters@.take(i + 1).drop_last() =~= clusters@.take(i as int));
        }
        if clusters[i].stream_id.is_none() {
            n += 1;
        }
        i += 1;
    }
    proof {
        assert(clusters@.take(i as int) =~= clusters@);
    }
    n
}

/// The statistics of what is shown.
pub open spec fn stats_fit(output: ClassifyOutput) -> bool {
    &&& output.stats.total_sessions == output.sessions@.len()
    &&& output.stats.unclassified_sessions == sessions_without_stream(output.sessions@)
    &&& output.stats.total_event_clusters == output.event_clusters@.len()
    &&& output.stats.unclassified_event_clusters == clusters_without_stream(output.event_clusters@)
}

/// What is asked for.
#[derive(Clone, Copy, Debug)]
pub struct ShowOptions {
    pub start: Timestamp,
    pub end: Timestamp,
    /// Leave out what has a stream.
    pub unclassified: bool,
    /// Minutes from which a gap is shown; `None` shows no gaps.
    pub gap_threshold: Option<u32>,
}

/// Puts together what is shown for the sessions, events and streams of a period.
pub fn build_output(
    sessions: &Vec<AgentSession>,
    events: &Vec<StoredEvent>,
    streams: &Vec<Stream>,
    index: &SessionTodoIndex,
    options: &ShowOptions,
) -> (r: ClassifyOutput)
    requires
        prompts_fit(sessions@),
    ensures
        r.time_range.start@ == time::rfc3339_text(options.start@.secs, options.start@.nanos),
        r.time_range.end@ == time::rfc3339_text(options.end@.secs, options.end@.nanos),
        r.streams@.len() == referenced_streams(events@, streams@).len(),
        forall|i: int|
            0 <= i < r.streams@.len() ==> (#[trigger] r.streams@[i]).refers_to(
                referenced_streams(events@, streams@)[i],
            ),
        show_sessions(
            r.sessions@,
            shown_sessions(sessions@, events@, options.unclassified),
            events@,
            streams@,
            index.links(),
        ),
        classify::show_clusters(
            r.event_clusters@,
            shown_clusters(events@, options.unclassified),
        ),
        window_runs::show_runs(r.window_runs@, shown_runs(events@, options.unclassified)),
        match options.gap_threshold {
            Some(minutes) => r.gaps matches Some(gaps) && gaps@.len() == context::user_gaps(
                events@,
                minutes as int,
            ).len() && (forall|i: int|
                0 <= i < gaps@.len() ==> (#[trigger] gaps@[i]).lies_between(
                    context::user_gaps(events@, minutes as int)[i],
                )),
            None => r.gaps is None,
        },
        stats_fit(r),
{
    let summaries = summarize_sessions(sessions, events, streams, index, options.unclassified);
    let loose = sessionless_events(events);
    let clusters = clusters_to_show(&loose, options.unclassified);
    let runs = runs_to_show(&loose, options.unclassified);
    let gaps: Option<Vec<GapInfo>> = match options.gap_threshold {
        Some(minutes) => Some(gaps_to_show(events, minutes)),
        None => None,
    };
    let stats = ClassifyStats {
        total_sessions: summaries.len(),
        unclassified_sessions: count_sessions_without_stream(&summaries),
        total_event_clusters: clusters.len(),
        unclassified_event_clusters: count_clusters_without_stream(&clusters),
    };
    ClassifyOutput {
        time_range: TimeRange {
            start: options.start.to_rfc3339(),
            end: options.end.to_rfc3339(),
        },
        streams: streams_referenced_by_events(events, streams),
        sessions: summaries,
        event_clusters: clusters,
        window_runs: runs,
        gaps,
        stats,
    }
}

/// With `unclassified`, nothing that is shown has a stream, and all that is shown
/// counts as unclassified.
pub proof fn unclassified_shows_nothing_classified(
    output: ClassifyOutput,
    sessions: Seq<AgentSession>,
    events: Seq<StoredEvent>,
    streams: Seq<Stream>,
    links: Map<Seq<char>, LinkedTodo>,
)
    requires
        show_sessions(
            output.sessions@,
            shown_sessions(sessions, events, true),
            events,
            streams,
            links,
        ),
        classify::show_clusters(output.event_clusters@, shown_clusters(events, true)),
        window_runs::show_runs(output.window_runs@, shown_runs(events, true)),
        stats_fit(output),
    ensures
        forall|i: int|
            0 <= i < output.sessions@.len() ==> (#[trigger] output.sessions@[i]).stream_id is None,
        forall|i: int|
            0 <= i < output.event_clusters@.len() ==> (
            #[trigger] output.event_clusters@[i]).stream_id is None,
        forall|i: int|
            0 <= i < output.window_runs@.len() ==> (
            #[trigger] output.window_runs@[i]).stream_id is None,
        output.stats.unclassified_sessions == output.stats.total_sessions,
        output.stats.unclassified_event_clusters == output.stats.total_event_clusters,
{
    let shown = shown_sessions(sessions, events, true);
    let pred = |s: AgentSession| is_shown(s, events, true);
    assert forall|i: int| 0 <= i < output.sessions@.len() implies (
    #[trigger] output.sessions@[i]).stream_id is None by {
        sessions.lemma_filter_pred(pred, i);
        assert(pred(shown[i]));
        assert(output.sessions@[i].shows(shown[i], events, streams, links));
    }
    let clusters = classify::event_clusters(sessionless(events));
    let loose = |c: Cluster| c.stream is None;
    assert forall|i: int| 0 <= i < output.event_clusters@.len() implies (
    #[trigger] output.event_clusters@[i]).stream_id is None by {
        clusters.lemma_filter_pred(loose, i);
        assert(loose(shown_clusters(events, true)[i]));
        assert(output.event_clusters@[i].shows(shown_clusters(events, true)[i]));
    }
    let runs = window_runs::window_runs(sessionless(events));
    let free = |r: Run| r.stream is None;
    assert forall|i: int| 0 <= i < output.window_runs@.len() implies (
    #[trigger] output.window_runs@[i]).stream_id is None by {
        runs.lemma_filter_pred(free, i);
        assert(free(shown_runs(events, true)[i]));
        assert(output.window_runs@[i].shows(shown_runs(events, true)[i]));
    }
    all_sessions_count(output.sessions@);
    all_clusters_count(output.event_clusters@);
}

proof fn all_sessions_count(sessions: Seq<SessionSummary>)
    requires
        forall|i: int| 0 <= i < sessions.len() ==> (#[trigger] sessions[i]).stream_id is None,
    ensures
        sessions_without_stream(sessions) == sessions.len(),
    decreases sessions.len(),
{
    if sessions.len() > 0 {
        assert forall|i: int| 0 <= i < sessions.len() - 1 implies sessions.drop_last()[i]
            == #[trigger] sessions[i] by {}
        all_sessions_count(sessions.drop_last());
        assert(sessions[sessions.len() - 1].stream_id is None);
    }
}

proof fn all_clusters_count(clusters: Seq<EventCluster>)
    requires
        forall|i: int| 0 <= i < clusters.len() ==> (#[trigger] clusters[i]).stream_id is None,
    ensures
        clusters_without_stream(clusters) == clusters.len(),
    decreases clusters.len(),
{
    if clusters.len() > 0 {
        assert forall|i: int| 0 <= i < clusters.len() - 1 implies clusters.drop_last()[i]
            == #[trigger] clusters[i] by {}
        all_clusters_count(clusters.drop_last());
        assert(clusters[clusters.len() - 1].stream_id is None);
    }
}

/// The stream of a directory is that of the first event there that has one, and there is
/// none exactly where no event there has one. `k` is where that event stands.
pub proof fn directories_have_their_first_stream(events: Seq<StoredEvent>, cwd: Seq<char>) -> (k:
    int)
    ensures
        first_stream(events, cwd) is None <==> (forall|i: int|
            0 <= i < events.len() && text::opt_text((#[trigger] events[i]).cwd) == Some(cwd)
                ==> events[i].stream_id is None),
        first_stream(events, cwd) matches Some(id) ==> 0 <= k < events.len() && text::opt_text(
            events[k].cwd,
        ) == Some(cwd) && text::opt_text(events[k].stream_id) == Some(id) && (forall|i: int|
            0 <= i < k && text::opt_text((#[trigger] events[i]).cwd) == Some(cwd)
                ==> events[i].stream_id is None),
    decreases events.len(),
{
    if events.len() == 0 {
        0
    } else {
        let earlier = events.drop_last();
        let last = events.len() - 1;
        let k = directories_have_their_first_stream(earlier, cwd);
        assert forall|i: int| 0 <= i < last implies earlier[i] == #[trigger] events[i] by {}
        if first_stream(earlier, cwd) is Some {
            assert(text::opt_text(events[k].cwd) == Some(cwd) && events[k].stream_id is Some);
            k
        } else {
            assert forall|i: int|
                0 <= i < last && text::opt_text((#[trigger] events[i]).cwd) == Some(
                    cwd,
                ) implies events[i].stream_id is None by {
                assert(earlier[i] == events[i]);
            }
            if first_stream(events, cwd) is Some {
                assert(text::opt_text(events[last].cwd) == Some(cwd));
            }
            last
        }
    }
}

/// A stream is named by the last one with its id, with an empty name where that has none;
/// an id that no stream has gives no name. `k` is where that stream stands.
pub proof fn streams_are_named_by_the_last(streams: Seq<Stream>, id: Seq<char>) -> (k: int)
    ensures
        stream_name(streams, id) is None <==> (forall|i: int|
            0 <= i < streams.len() ==> (#[trigger] streams[i]).id@ != id),
        stream_name(streams, id) matches Some(name) ==> 0 <= k < streams.len() && streams[k].id@
            == id && (forall|i: int| k < i < streams.len() ==> (#[trigger] streams[i]).id@ != id)
            && match streams[k].name {
            Some(own) => name == own@,
            None => name.len() == 0,
        },
    decreases streams.len(),
{
    if streams.len() == 0 {
        0
    } else {
        let last = streams.len() - 1;
        let earlier = streams.drop_last();
        assert forall|i: int| 0 <= i < last implies earlier[i] == #[trigger] streams[i] by {}
        if streams[last].id@ == id {
            last
        } else {
            let k = streams_are_named_by_the_last(earlier, id);
            if stream_name(earlier, id) is Some {
                assert(streams[k].id@ == id);
            } else {
                assert forall|i: int| 0 <= i < streams.len() implies (#[trigger] streams[i]).id@
                    != id by {
                    if i < last {
                        assert(earlier[i].id@ != id);
                    }
                }
            }
            k
        }
    }
}

/// What is shown of a session is the session's own: its ids and names, its start and its
/// end, how long it lasted, its counts. Its stream is that of its directory, under the
/// name of that stream. A prompt is shown only where there is no summary.
pub proof fn shown_sessions_tell_of_themselves(
    shown: SessionSummary,
    s: AgentSession,
    events: Seq<StoredEvent>,
    streams: Seq<Stream>,
    links: Map<Seq<char>, LinkedTodo>,
)
    requires
        shown.shows(s, events, streams, links),
    ensures
        shown.session_id@ == s.session_id@,
        shown.source@ == s.source@,
        shown.session_type@ == s.session_type.name(),
        text::opt_text(shown.project_path) == Some(s.project_path@),
        text::opt_text(shown.project_name) == Some(s.project_name@),
        shown.start_time@ == time::rfc3339_text(s.start_time@.secs, s.start_time@.nanos),
        shown.end_time is Some <==> s.end_time is Some,
        shown.duration_minutes is Some <==> s.end_time is Some,
        s.end_time matches Some(end) ==> shown.end_time->0@ == time::rfc3339_text(
            end@.secs,
            end@.nanos,
        ),
        s.end_time matches Some(end) ==> (s.start_time@.at_most(end@) && 0 <= s.start_time@.nanos
            < 1_000_000_000 && 0 <= end@.nanos < 1_000_000_000 ==> ({
            let lasted = time::epoch_nanos(end@) - time::epoch_nanos(s.start_time@);
            let minutes = shown.duration_minutes->0;
            minutes * 60_000_000_000 <= lasted < (minutes + 1) * 60_000_000_000
        })),
        text::opt_text(shown.summary) == text::opt_text(s.summary),
        s.summary is Some || s.starting_prompt is None ==> shown.starting_prompt is None,
        s.summary is None ==> (s.starting_prompt matches Some(prompt) ==> text::opt_text(
            shown.starting_prompt,
        ) == Some(text::shortened(prompt@, 200))),
        shown.tool_call_count == s.tool_call_count,
        shown.user_prompt_count == s.user_prompts@.len(),
        text::opt_text(shown.stream_id) == first_stream(events, s.project_path@),
        shown.stream_id is None ==> shown.proposed_stream is None,
        shown.stream_id matches Some(id) ==> text::opt_text(shown.proposed_stream) == stream_name(
            streams,
            id@,
        ),
        shown.linked_todo is Some <==> links.contains_key(s.session_id@),
        shown.linked_todo matches Some(todo) ==> todo == links[s.session_id@],
{
    if let Some(end) = s.end_time {
        if s.start_time@.at_most(end@) && 0 <= s.start_time@.nanos < 1_000_000_000 && 0
            <= end@.nanos < 1_000_000_000 {
            time::instants_follow_the_clock(s.start_time@, end@);
            time::instants_follow_the_clock(end@, s.start_time@);
        }
    }
}

/// A session is shown exactly where no other session started it, and, where only what has
/// no stream is asked for, its directory has none. Those shown keep their order.
pub proof fn sessions_are_shown_in_order(
    a: Seq<AgentSession>,
    b: Seq<AgentSession>,
    s: AgentSession,
    events: Seq<StoredEvent>,
    unclassified: bool,
)
    ensures
        shown_sessions(a + b, events, unclassified) == shown_sessions(a, events, unclassified)
            + shown_sessions(b, events, unclassified),
        shown_sessions(seq![s], events, unclassified) == (if s.session_type is Subagent || (
        unclassified && first_stream(events, s.project_path@) is Some) {
            Seq::empty()
        } else {
            seq![s]
        }),
{
    let pred = |s: AgentSession| is_shown(s, events, unclassified);
    Seq::filter_distributes_over_add(a, b, pred);
    reveal(Seq::filter);
    assert(seq![s].drop_last() =~= Seq::empty());
    assert(Seq::<AgentSession>::empty().filter(pred) =~= Seq::empty());
    assert(seq![s].last() == s);
    assert(shown_sessions(seq![s], events, unclassified) =~= if pred(s) {
        seq![s]
    } else {
        Seq::empty()
    });
}

/// The events of no session are those that name none, in their order.
pub proof fn sessionless_events_name_no_session(
    a: Seq<StoredEvent>,
    b: Seq<StoredEvent>,
    e: StoredEvent,
)
    ensures
        sessionless(a + b) == sessionless(a) + sessionless(b),
        sessionless(seq![e]) == (if e.session_id is None {
            seq![e]
        } else {
            Seq::empty()
        }),
{
    let pred = |e: StoredEvent| e.session_id is None;
    Seq::filter_distributes_over_add(a, b, pred);
    reveal(Seq::filter);
    assert(seq![e].drop_last() =~= Seq::empty());
    assert(Seq::<StoredEvent>::empty().filter(pred) =~= Seq::empty());
    assert(seq![e].last() == e);
    assert(sessionless(seq![e]) =~= if pred(e) {
        seq![e]
    } else {
        Seq::empty()
    });
}

/// Every cluster and every window run of the events of no session is shown; where only
/// what has no stream is asked for, every one that has none.
pub proof fn whatever_has_no_stream_is_shown(
    events: Seq<StoredEvent>,
    unclassified: bool,
    k: int,
)
    ensures
        ({
            let clusters = classify::event_clusters(sessionless(events));
            0 <= k < clusters.len() && (clusters[k].stream is None || !unclassified)
                ==> shown_clusters(events, unclassified).contains(clusters[k])
        }),
        ({
            let runs = window_runs::window_runs(sessionless(events));
            0 <= k < runs.len() && (runs[k].stream is None || !unclassified) ==> shown_runs(
                events,
                unclassified,
            ).contains(runs[k])
        }),
        !unclassified ==> shown_clusters(events, unclassified) == classify::event_clusters(
            sessionless(events),
        ) && shown_runs(events, unclassified) == window_runs::window_runs(sessionless(events)),
{
    let clusters = classify::event_clusters(sessionless(events));
    let loose = |c: Cluster| c.stream is None;
    if 0 <= k < clusters.len() && clusters[k].stream is None {
        clusters.lemma_filter_contains(loose, k);
    }
    let runs = window_runs::window_runs(sessionless(events));
    let free = |r: Run| r.stream is None;
    if 0 <= k < runs.len() && runs[k].stream is None {
        runs.lemma_filter_contains(free, k);
    }
}

/// The streams that are referred to are those that some event is assigned to, all of them
/// and no other, in the order of their ids.
pub proof fn referenced_streams_stand_in_order(
    events: Seq<StoredEvent>,
    streams: Seq<Stream>,
    s: Stream,
    a: int,
    b: int,
)
    ensures
        referenced_streams(events, streams).contains(s) <==> streams.contains(s) && (exists|i: int|
            0 <= i < events.len() && text::opt_text((#[trigger] events[i]).stream_id) == Some(
                s.id@,
            )),
        0 <= a < b < referenced_streams(events, streams).len() ==> order::text_leq(
            referenced_streams(events, streams)[a].id@,
            referenced_streams(events, streams)[b].id@,
        ),
{
    let pred = |s: Stream| is_referenced(events, s.id@);
    let kept = streams.filter(pred);
    let keys = kept.map_values(|s: Stream| TextKey(s.id@));
    order::sorted_items_stand_in_order(kept, keys);
    streams.filter_lemma(pred);
    if kept.contains(s) {
        let k = choose|k: int| 0 <= k < kept.len() && kept[k] == s;
        streams.lemma_filter_pred(pred, k);
        assert(pred(kept[k]));
        streams.lemma_filter_contains_rev(pred, s);
    }
    if streams.contains(s) && is_referenced(events, s.id@) {
        let k = choose|k: int| 0 <= k < streams.len() && streams[k] == s;
        streams.lemma_filter_contains(pred, k);
    }
    if 0 <= a < b < kept.len() {
        let positions = order::stable_positions(keys);
        assert(order::text_leq(keys[positions[a]].0, keys[positions[b]].0));
    }
}

/// A reference to a stream gives its id, its slug and its name.
pub proof fn references_tell_their_stream(r: StreamRef, s: Stream)
    requires
        r.refers_to(s),
    ensures
        r.id@ == s.id@,
        text::opt_text(r.slug) == text::opt_text(s.slug),
        text::opt_text(r.name) == text::opt_text(s.name),
{
}

/// A gap that is shown starts at the time of the one user event and ends at that of the
/// next, and lasts the whole minutes between them, which are no fewer than asked for.
pub proof fn shown_gaps_tell_of_their_ends(
    gap: GapInfo,
    events: Seq<StoredEvent>,
    minutes: int,
    k: int,
)
    requires
        minutes >= 0,
        0 <= k < context::user_gaps(events, minutes).len(),
        gap.lies_between(context::user_gaps(events, minutes)[k]),
    ensures
        ({
            let (before, after) = context::user_gaps(events, minutes)[k];
            let (start, end) = (before.timestamp@, after.timestamp@);
            &&& gap.start@ == time::rfc3339_text(start.secs, start.nanos)
            &&& gap.end@ == time::rfc3339_text(end.secs, end.nanos)
            &&& gap.duration_minutes >= minutes
            &&& start.at_most(end) && 0 <= start.nanos < 1_000_000_000 && 0 <= end.nanos
                < 1_000_000_000 ==> gap.duration_minutes * 60_000_000_000 <= time::epoch_nanos(end)
                - time::epoch_nanos(start) < (gap.duration_minutes + 1) * 60_000_000_000
        }),
{
    context::gaps_are_gaps(events, minutes, k);
    let (before, after) = context::user_gaps(events, minutes)[k];
    let (start, end) = (before.timestamp@, after.timestamp@);
    let millis = context::millis_between(before, after);
    assert(gap.duration_minutes == millis / 60_000);
    if start.at_most(end) && 0 <= start.nanos < 1_000_000_000 && 0 <= end.nanos < 1_000_000_000 {
        time::instants_follow_the_clock(start, end);
        time::instants_follow_the_clock(end, start);
        assert(millis == end.since(start) / 1_000_000);
    }
}

/// What has no stream counts once, and nothing else counts.
pub proof fn whatever_has_no_stream_counts_once(
    sessions: (Seq<SessionSummary>, SessionSummary),
    clusters: (Seq<EventCluster>, EventCluster),
)
    ensures
        sessions_without_stream(sessions.0.push(sessions.1)) == sessions_without_stream(sessions.0)
            + (if sessions.1.stream_id is None {
            1nat
        } else {
            0
        }),
        clusters_without_stream(clusters.0.push(clusters.1)) == clusters_without_stream(clusters.0)
            + (if clusters.1.stream_id is None {
            1nat
        } else {
            0
        }),
        sessions_without_stream(Seq::empty()) == 0 && clusters_without_stream(Seq::empty()) == 0,
{
    assert(sessions.0.push(sessions.1).drop_last() =~= sessions.0);
    assert(clusters.0.push(clusters.1).drop_last() =~= clusters.0);
}

} // verus!
