//! Indexing of agent sessions: which are read again, what events they give, and what
//! is reported of a pass.
use vstd::prelude::*;
use vstd::string::*;

use crate::json;
use crate::json::JsonView;
use crate::model::{AgentSession, EventType, SessionType, StoredEvent};
use crate::text;
use crate::time::{Instant, Timestamp};

verus! {

broadcast use vstd::seq_lib::group_seq_properties;

/// How far before its cursor a scan reaches.
pub const SCAN_OVERLAP_MINUTES: i64 = 5;

/// Whether a pass reads again what changed, or everything.
#[derive(Clone, Copy, Debug, PartialEq, Eq, Structural)]
pub enum ScanMode {
    /// Sessions touched since the scan cursor.
    Incremental,
    /// Every session.
    Full,
}

impl Default for ScanMode {
    fn default() -> (r: Self)
        ensures
            r == ScanMode::Incremental,
    {
        ScanMode::Incremental
    }
}

/// From when on sessions are read again: the cursor less the overlap, or `None` for
/// everything.
pub open spec fn since_of(cursor: Option<Timestamp>, mode: ScanMode) -> Option<Instant> {
    match (mode, cursor) {
        (ScanMode::Incremental, Some(at)) => Some(at@.minus(SCAN_OVERLAP_MINUTES * 60)),
        _ => None,
    }
}

/// From when on sessions are read again.
pub fn scan_since(cursor: Option<Timestamp>, mode: ScanMode) -> (r: Option<Timestamp>)
    requires
        since_of(cursor, mode) matches Some(since) ==> since.valid(),
    ensures
        match since_of(cursor, mode) {
            Some(since) => r matches Some(t) && t@ == since,
            None => r is None,
        },
{
    match mode {
        ScanMode::Full => None,
        ScanMode::Incremental => match cursor {
            Some(at) => at.minus(SCAN_OVERLAP_MINUTES as u64 * 60),
            None => None,
        },
    }
}

/// What a store gave.
pub struct ScanOutcome {
    pub sessions: Vec<AgentSession>,
    /// Whether the store could be read in full.
    pub complete: bool,
}

/// The sessions found on this machine.
pub struct ScannedSessions {
    pub sessions: Vec<AgentSession>,
    pub claude: usize,
    pub opencode: usize,
    pub omp: usize,
    pub scanned_claude: bool,
    pub scanned_opencode: bool,
    pub scanned_omp: bool,
    /// Whether every store that is there could be read in full.
    pub complete: bool,
}

/// The sessions of a store; none where it is not there.
pub open spec fn sessions_of(outcome: Option<ScanOutcome>) -> Seq<AgentSession> {
    match outcome {
        Some(o) => o.sessions@,
        None => Seq::empty(),
    }
}

/// Whether a store was read in full. One that is not there was.
pub open spec fn was_complete(outcome: Option<ScanOutcome>) -> bool {
    outcome matches Some(o) ==> o.complete
}

fn present(outcome: Option<ScanOutcome>) -> (r: ScanOutcome)
    ensures
        r.sessions@ == sessions_of(outcome),
        r.complete == was_complete(outcome),
{
    match outcome {
        Some(o) => o,
        None => ScanOutcome { sessions: Vec::new(), complete: true },
    }
}

/// Puts together what the stores gave, each `None` where it is not there.
pub fn combine_scans(
    claude: Option<ScanOutcome>,
    opencode: Option<ScanOutcome>,
    omp: Option<ScanOutcome>,
) -> (r: ScannedSessions)
    ensures
        r.sessions@ == sessions_of(claude) + sessions_of(opencode) + sessions_of(omp),
        r.claude == sessions_of(claude).len(),
        r.opencode == sessions_of(opencode).len(),
        r.omp == sessions_of(omp).len(),
        r.scanned_claude == (claude is Some),
        r.scanned_opencode == (opencode is Some),
        r.scanned_omp == (omp is Some),
        r.complete == (was_complete(claude) && was_complete(opencode) && was_complete(omp)),
{
    let scanned_claude = claude.is_some();
    let scanned_opencode = opencode.is_some();
    let scanned_omp = omp.is_some();
    let claude = present(claude);
    let opencode = present(opencode);
    let omp = present(omp);
    let complete = claude.complete && opencode.complete && omp.complete;
    let claude_count: usize = claude.sessions.len();
    let opencode_count: usize = opencode.sessions.len();
    let omp_count: usize = omp.sessions.len();
    let mut sessions = claude.sessions;
    let mut second = opencode.sessions;
    let mut third = omp.sessions;
    sessions.append(&mut second);
    sessions.append(&mut third);
    ScannedSessions {
        sessions,
        claude: claude_count,
        opencode: opencode_count,
        omp: omp_count,
        scanned_claude,
        scanned_opencode,
        scanned_omp,
        complete,
    }
}

/// Where the scan cursor moves: to the start of a scan that was complete, and
/// nowhere after one that was not, so that nothing it missed is passed over.
pub fn next_cursor(scan_started_at: Timestamp, complete: bool) -> (r: Option<Timestamp>)
    ensures
        r == if complete {
            Some(scan_started_at)
        } else {
            None::<Timestamp>
        },
{
    if complete {
        Some(scan_started_at)
    } else {
        None
    }
}

/// No session falls between two scans: what changes once a scan has begun lies within
/// what the next one reads, whose start is the cursor then.
pub proof fn scans_overlap(scan_started_at: Timestamp, changed_at: Instant, mode: ScanMode)
    requires
        scan_started_at@.at_most(changed_at),
    ensures
        since_of(Some(scan_started_at), mode) matches Some(since) ==> since.before(changed_at),
{
}

/// An event of a session, as far as events of one session differ.
pub struct SessionEventView {
    pub suffix: Seq<char>,
    pub at: Instant,
    pub event_type: EventType,
    pub action: Option<Seq<char>>,
    pub data: Seq<char>,
}

/// What the data of the event that a session started holds: the project's name.
pub open spec fn project_content(name: Seq<char>) -> JsonView {
    JsonView::Object(map!["project_name"@ => JsonView::Text(name)])
}

/// The event that a session started.
pub open spec fn started_event(session: AgentSession) -> SessionEventView {
    SessionEventView {
        suffix: "session_start"@,
        at: session.start_time@,
        event_type: EventType::AgentSession,
        action: Some("started"@),
        data: json::written_json(project_content(session.project_name@)),
    }
}

/// The events that a session ended; none where it has not.
pub open spec fn ended_events(session: AgentSession) -> Seq<SessionEventView> {
    match session.end_time {
        Some(at) => seq![
            SessionEventView {
                suffix: "session_end"@,
                at: at@,
                event_type: EventType::AgentSession,
                action: Some("ended"@),
                data: "{}"@,
            },
        ],
        None => Seq::empty(),
    }
}

/// The event of a message that a person sent.
pub open spec fn message_event(at: Timestamp) -> SessionEventView {
    SessionEventView {
        suffix: "user_message-"@ + text::signed_decimal(at@.millis()),
        at: at@,
        event_type: EventType::UserMessage,
        action: None,
        data: "{}"@,
    }
}

/// The event of a tool's use, the session's `i`-th.
pub open spec fn tool_event(at: Timestamp, i: int) -> SessionEventView {
    SessionEventView {
        suffix: "tool_use-"@ + text::signed_decimal(at@.millis()) + "-"@ + text::decimal(i as nat),
        at: at@,
        event_type: EventType::AgentToolUse,
        action: None,
        data: "{}"@,
    }
}

/// The events of the messages in a session: a person's messages only, since those of
/// a session that another program drives are no attention.
pub open spec fn message_events(session: AgentSession) -> Seq<SessionEventView> {
    if session.session_type.human_driven() {
        Seq::new(
            session.user_message_timestamps@.len(),
            |i: int| message_event(session.user_message_timestamps@[i]),
        )
    } else {
        Seq::empty()
    }
}

/// The events of the tools used in a session.
pub open spec fn tool_events(session: AgentSession) -> Seq<SessionEventView> {
    Seq::new(
        session.tool_call_timestamps@.len(),
        |i: int| tool_event(session.tool_call_timestamps@[i], i),
    )
}

/// The events of a session.
pub open spec fn session_events(session: AgentSession) -> Seq<SessionEventView> {
    seq![started_event(session)] + message_events(session) + tool_events(session) + ended_events(
        session,
    )
}

/// Whether a stored event is one of a session's events.
pub open spec fn is_event_of(
    e: StoredEvent,
    session: AgentSession,
    machine_id: Option<Seq<char>>,
    view: SessionEventView,
) -> bool {
    &&& e.id@ == session.session_id@ + "-"@ + view.suffix
    &&& e.timestamp@ == view.at
    &&& e.event_type == view.event_type
    &&& e.source@ == session.source@
    &&& text::opt_text(e.machine_id) == machine_id
    &&& e.schema_version == 1
    &&& e.pane_id is None
    &&& e.tmux_session is None
    &&& e.window_index is None
    &&& e.git_project is None
    &&& e.git_workspace is None
    &&& e.status is None
    &&& e.idle_duration_ms is None
    &&& e.window_app_id is None
    &&& e.window_title is None
    &&& text::opt_text(e.action) == view.action
    &&& text::opt_text(e.cwd) == Some(session.project_path@)
    &&& text::opt_text(e.session_id) == Some(session.session_id@)
    &&& e.stream_id is None
    &&& e.assignment_source is None
    &&& e.data@ == view.data
}

fn project_data(name: &str) -> (r: String)
    ensures
        r@ == json::written_json(project_content(name@)),
        json::keeps_texts(r@, project_content(name@)),
{
    let mut value = json::text_or_null(None);
    json::put_text(&mut value, "project_name", name);
    json::write_json(&value).unwrap()
}

fn make_event(
    session: &AgentSession,
    machine_id: Option<&str>,
    suffix: &str,
    timestamp: Timestamp,
    event_type: EventType,
    action: Option<&str>,
    data: String,
) -> (r: StoredEvent)
    ensures
        is_event_of(
            r,
            *session,
            text::opt_str(machine_id),
            (SessionEventView {
                suffix: suffix@,
                at: timestamp@,
                event_type,
                action: text::opt_str(action),
                data: data@,
            }),
        ),
{
    let mut id = session.session_id.as_str().to_owned();
    id.append("-");
    id.append(suffix);
    StoredEvent {
        id,
        timestamp,
        event_type,
        source: session.source.as_str().to_owned(),
        machine_id: match machine_id {
            Some(machine_id) => Some(machine_id.to_owned()),
            None => None,
        },
        schema_version: 1,
        pane_id: None,
        tmux_session: None,
        window_index: None,
        git_project: None,
        git_workspace: None,
        status: None,
        idle_duration_ms: None,
        window_app_id: None,
        window_title: None,
        action: match action {
            Some(action) => Some(action.to_owned()),
            None => None,
        },
        cwd: Some(session.project_path.clone()),
        session_id: Some(session.session_id.clone()),
        stream_id: None,
        assignment_source: None,
        data,
    }
}

/// Whether stored events are a session's events, one for one.
pub open spec fn are_events_of(
    events: Seq<StoredEvent>,
    session: AgentSession,
    machine_id: Option<Seq<char>>,
    views: Seq<SessionEventView>,
) -> bool {
    &&& events.len() == views.len()
    &&& forall|i: int|
        0 <= i < events.len() ==> is_event_of(#[trigger] events[i], session, machine_id, views[i])
}

/// Makes the events of a session.
pub fn create_session_events(session: &AgentSession, machine_id: Option<&str>) -> (r: Vec<
    StoredEvent,
>)
    ensures
        are_events_of(r@, *session, text::opt_str(machine_id), session_events(*session)),
        json::keeps_texts(r@[0].data@, project_content(session.project_name@)),
{
    let ghost machine = text::opt_str(machine_id);
    let ghost first = seq![started_event(*session)];
    let mut events: Vec<StoredEvent> = Vec::new();
    let data = project_data(session.project_name.as_str());
    events.push(
        make_event(
            session,
            machine_id,
            "session_start",
            session.start_time,
            EventType::AgentSession,
            Some("started"),
            data,
        ),
    );
    let ghost messages = message_events(*session);
    if session.session_type.is_human_driven() {
        let stamps: &Vec<Timestamp> = &session.user_message_timestamps;
        let mut i: usize = 0;
        while i < stamps.len()
            invariant
                i <= stamps@.len(),
                stamps == session.user_message_timestamps,
                session.session_type.human_driven(),
                machine == text::opt_str(machine_id),
                messages == message_events(*session),
                are_events_of(events@, *session, machine, first + messages.take(i as int)),
            decreases stamps@.len() - i,
        {
            let mut suffix = "user_message-".to_owned();
            text::push_signed(&mut suffix, stamps[i].timestamp_millis());
            events.push(
                make_event(
                    session,
                    machine_id,
                    suffix.as_str(),
                    stamps[i],
                    EventType::UserMessage,
                    None,
                    "{}".to_owned(),
                ),
            );
            proof {
                assert(messages[i as int] == message_event(stamps@[i as int]));
                assert(first + messages.take(i + 1) =~= (first + messages.take(i as int)).push(
                    messages[i as int],
                ));
            }
            i += 1;
        }
        proof {
            assert(messages.take(i as int) =~= messages);
        }
    } else {
        proof {
            assert(first + messages =~= first);
        }
    }
    let ghost so_far = first + messages;
    let ghost tools = tool_events(*session);
    let stamps: &Vec<Timestamp> = &session.tool_call_timestamps;
    let mut i: usize = 0;
    proof {
        assert(so_far + tools.take(0) =~= so_far);
    }
    while i < stamps.len()
        invariant
            i <= stamps@.len(),
            stamps == session.tool_call_timestamps,
            machine == text::opt_str(machine_id),
            tools == tool_events(*session),
            are_events_of(events@, *session, machine, so_far + tools.take(i as int)),
        decreases stamps@.len() - i,
    {
        let mut suffix = "tool_use-".to_owned();
        text::push_signed(&mut suffix, stamps[i].timestamp_millis());
        suffix.append("-");
        text::push_decimal(&mut suffix, i as u64);
        events.push(
            make_event(
                session,
                machine_id,
                suffix.as_str(),
                stamps[i],
                EventType::AgentToolUse,
                None,
                "{}".to_owned(),
            ),
        );
        proof {
            assert(tools[i as int] == tool_event(stamps@[i as int], i as int));
            assert(so_far + tools.take(i + 1) =~= (so_far + tools.take(i as int)).push(
                tools[i as int],
            ));
        }
        i += 1;
    }
    proof {
        assert(tools.take(i as int) =~= tools);
    }
    let ghost so_far = so_far + tools;
    if let Some(end_time) = session.end_time {
        events.push(
            make_event(
                session,
                machine_id,
                "session_end",
                end_time,
                EventType::AgentSession,
                Some("ended"),
                "{}".to_owned(),
            ),
        );
        proof {
            assert(so_far + ended_events(*session) =~= so_far.push(ended_events(*session)[0]));
        }
    } else {
        proof {
            assert(so_far + ended_events(*session) =~= so_far);
        }
    }
    events
}

/// A session gives one event for a person's message only where a person drives it.
pub proof fn only_people_send_messages(session: AgentSession, i: int)
    requires
        0 <= i < session_events(session).len(),
        session_events(session)[i].event_type is UserMessage,
    ensures
        session.session_type.human_driven(),
        1 <= i <= session.user_message_timestamps@.len(),
        session_events(session)[i] == message_event(session.user_message_timestamps@[i - 1]),
{
    let messages = message_events(session);
    let tools = tool_events(session);
    if i > messages.len() && i <= messages.len() + tools.len() {
        assert(session_events(session)[i] == tools[i - 1 - messages.len()]);
    }
}

/// The times of the messages that a session gives events for.
pub open spec fn message_stamps(session: AgentSession) -> Seq<Timestamp> {
    if session.session_type.human_driven() {
        session.user_message_timestamps@
    } else {
        Seq::empty()
    }
}

/// The times of the messages that a session gives events for.
pub fn message_times(session: &AgentSession) -> (r: Vec<Timestamp>)
    ensures
        r@ == message_stamps(*session),
{
    let mut out: Vec<Timestamp> = Vec::new();
    if !session.session_type.is_human_driven() {
        return out;
    }
    let stamps: &Vec<Timestamp> = &session.user_message_timestamps;
    let mut i: usize = 0;
    while i < stamps.len()
        invariant
            i <= stamps@.len(),
            out@ == stamps@.take(i as int),
        decreases stamps@.len() - i,
    {
        out.push(stamps[i]);
        proof {
            assert(out@ =~= stamps@.take(i + 1));
        }
        i += 1;
    }
    proof {
        assert(stamps@.take(i as int) =~= stamps@);
    }
    out
}

/// The last hyphen before digits stands right before them.
proof fn last_hyphen(start: Seq<char>, digits: Seq<char>, to: int)
    requires
        text::all_digits(digits, 10),
        start.len() < to <= start.len() + 1 + digits.len(),
    ensures
        text::seek_back(start + "-"@ + digits, '-', to) == start.len(),
    decreases to,
{
    reveal_strlit("-");
    let whole = start + "-"@ + digits;
    if to == start.len() + 1 {
        assert(whole[to - 1] == '-');
    } else {
        let i = to - 1 - start.len() - 1;
        assert(whole[to - 1] == digits[i]);
        assert(text::is_digit(digits[i], 10));
        last_hyphen(start, digits, to - 1);
    }
}

/// The tool calls of a session have ids of their own, even where two were made at one
/// time: none of their events is taken for another and dropped.
pub proof fn tool_calls_have_ids_of_their_own(session: AgentSession, i: int, j: int)
    requires
        0 <= i < j < tool_events(session).len(),
    ensures
        tool_events(session)[i].suffix != tool_events(session)[j].suffix,
{
    let first = tool_events(session)[i].suffix;
    let second = tool_events(session)[j].suffix;
    let starts = (
        "tool_use-"@ + text::signed_decimal(session.tool_call_timestamps@[i]@.millis()),
        "tool_use-"@ + text::signed_decimal(session.tool_call_timestamps@[j]@.millis()),
    );
    let numbers = (text::decimal(i as nat), text::decimal(j as nat));
    text::digits_read_back(i as nat);
    text::digits_read_back(j as nat);
    reveal_strlit("-");
    last_hyphen(starts.0, numbers.0, first.len() as int);
    last_hyphen(starts.1, numbers.1, second.len() as int);
    assert(first.skip(starts.0.len() as int + 1) =~= numbers.0);
    assert(second.skip(starts.1.len() as int + 1) =~= numbers.1);
}

/// The number of messages that a session gives events for: those of a session that a
/// person drives, and none of any other.
pub open spec fn message_count(session: AgentSession) -> int {
    match session.session_type {
        SessionType::User | SessionType::Continuation => session.user_message_timestamps@.len()
            as int,
        _ => 0,
    }
}

/// A session gives one event that it started, at its start time, then one per message
/// that a person sent and one per tool call, each at its own time and in their order.
/// Where it has ended the last event says so, at its end time; where it has not, none
/// does. Every one carries the session's id, its project's directory, its source and the
/// machine.
pub proof fn sessions_are_told_from_start_to_end(
    events: Seq<StoredEvent>,
    session: AgentSession,
    machine_id: Option<Seq<char>>,
)
    requires
        are_events_of(events, session, machine_id, session_events(session)),
    ensures
        events.len() == 1 + message_count(session) + session.tool_call_timestamps@.len() + (
        if session.end_time is Some {
            1int
        } else {
            0
        }),
        events[0].event_type is AgentSession,
        text::opt_text(events[0].action) == Some("started"@),
        events[0].timestamp@ == session.start_time@,
        events[0].id@ == session.session_id@ + "-session_start"@,
        session.end_time matches Some(end) ==> ({
            let last = events[events.len() - 1];
            &&& last.event_type is AgentSession
            &&& text::opt_text(last.action) == Some("ended"@)
            &&& last.timestamp@ == end@
            &&& last.id@ == session.session_id@ + "-session_end"@
        }),
        forall|i: int|
            0 <= i < message_count(session) ==> ({
                let event = #[trigger] events[1 + i];
                &&& event.event_type is UserMessage
                &&& event.action is None
                &&& event.timestamp@ == session.user_message_timestamps@[i]@
            }),
        forall|i: int|
            0 <= i < session.tool_call_timestamps@.len() ==> ({
                let event = #[trigger] events[1 + message_count(session) + i];
                &&& event.event_type is AgentToolUse
                &&& event.action is None
                &&& event.timestamp@ == session.tool_call_timestamps@[i]@
            }),
        forall|k: int|
            0 <= k < events.len() ==> ({
                let event = #[trigger] events[k];
                &&& text::opt_text(event.session_id) == Some(session.session_id@)
                &&& text::opt_text(event.cwd) == Some(session.project_path@)
                &&& event.source@ == session.source@
                &&& text::opt_text(event.machine_id) == machine_id
                &&& event.stream_id is None && event.assignment_source is None
                &&& event.id@.len() > session.session_id@.len()
                &&& event.id@.take(session.session_id@.len() as int) == session.session_id@
            }),
{
    let views = session_events(session);
    let messages = message_events(session);
    let tools = tool_events(session);
    assert(messages.len() == message_count(session));
    assert(is_event_of(events[0], session, machine_id, views[0]));
    reveal_strlit("-");
    reveal_strlit("session_start");
    reveal_strlit("-session_start");
    assert("-"@ + "session_start"@ =~= "-session_start"@);
    assert(session.session_id@ + "-"@ + "session_start"@ =~= session.session_id@
        + "-session_start"@);
    if let Some(end) = session.end_time {
        let last = events.len() - 1;
        assert(views[last] == ended_events(session)[0]);
        assert(is_event_of(events[last], session, machine_id, views[last]));
        reveal_strlit("session_end");
        reveal_strlit("-session_end");
        assert("-"@ + "session_end"@ =~= "-session_end"@);
        assert(session.session_id@ + "-"@ + "session_end"@ =~= session.session_id@
            + "-session_end"@);
    }
    assert forall|i: int| 0 <= i < message_count(session) implies ({
        let event = #[trigger] events[1 + i];
        &&& event.event_type is UserMessage
        &&& event.action is None
        &&& event.timestamp@ == session.user_message_timestamps@[i]@
    }) by {
        assert(views[1 + i] == messages[i]);
        assert(is_event_of(events[1 + i], session, machine_id, views[1 + i]));
    }
    assert forall|i: int| 0 <= i < session.tool_call_timestamps@.len() implies ({
        let event = #[trigger] events[1 + message_count(session) + i];
        &&& event.event_type is AgentToolUse
        &&& event.action is None
        &&& event.timestamp@ == session.tool_call_timestamps@[i]@
    }) by {
        let k = 1 + message_count(session) + i;
        assert(views[k] == tools[i]);
        assert(is_event_of(events[k], session, machine_id, views[k]));
    }
    assert forall|k: int| 0 <= k < events.len() implies ({
        let event = #[trigger] events[k];
        &&& text::opt_text(event.session_id) == Some(session.session_id@)
        &&& text::opt_text(event.cwd) == Some(session.project_path@)
        &&& event.source@ == session.source@
        &&& text::opt_text(event.machine_id) == machine_id
        &&& event.stream_id is None && event.assignment_source is None
        &&& event.id@.len() > session.session_id@.len()
        &&& event.id@.take(session.session_id@.len() as int) == session.session_id@
    }) by {
        assert(is_event_of(events[k], session, machine_id, views[k]));
        assert(events[k].id@.take(session.session_id@.len() as int) =~= session.session_id@);
    }
}

/// The times of the messages are those that the events of the messages have, in their
/// order; where no person drives the session there are none.
pub proof fn message_times_are_those_of_the_events(
    times: Seq<Timestamp>,
    events: Seq<StoredEvent>,
    session: AgentSession,
    machine_id: Option<Seq<char>>,
)
    requires
        times == message_stamps(session),
        are_events_of(events, session, machine_id, session_events(session)),
    ensures
        times.len() == message_count(session),
        forall|i: int|
            0 <= i < times.len() ==> (#[trigger] times[i])@ == events[1 + i].timestamp@
                && events[1 + i].event_type is UserMessage,
{
    sessions_are_told_from_start_to_end(events, session, machine_id);
    assert forall|i: int| 0 <= i < times.len() implies (#[trigger] times[i])@ == events[1
        + i].timestamp@ && events[1 + i].event_type is UserMessage by {
        assert(events[1 + i].event_type is UserMessage);
    }
}

/// A scan for what changed reaches five minutes back behind its cursor, to the
/// nanosecond; without a cursor, and where everything is to be read, it reaches back
/// without end.
pub proof fn scans_reach_back_five_minutes(cursor: Option<Timestamp>, mode: ScanMode)
    ensures
        since_of(cursor, mode) is Some <==> mode is Incremental && cursor is Some,
        since_of(cursor, mode) matches Some(since) ==> cursor->0@.nanos < 1_000_000_000 ==> {
            &&& since.secs == cursor->0@.secs - 300
            &&& since.nanos == cursor->0@.nanos
        },
{
}

/// What the stores gave is all there is, in their order: one that is not there gives no
/// sessions and leaves nothing unread.
pub proof fn absent_stores_leave_nothing_unread(outcome: Option<ScanOutcome>)
    ensures
        outcome is None ==> sessions_of(outcome).len() == 0 && was_complete(outcome),
        outcome matches Some(o) ==> sessions_of(outcome) == o.sessions@ && was_complete(outcome)
            == o.complete,
{
}

/// The event that a session started carries the name of its project, where its data is
/// read again.
pub proof fn started_events_carry_the_project(data: Seq<char>, name: Seq<char>, back: JsonView)
    requires
        json::keeps_texts(data, project_content(name)),
        json::parsed_json(data) == Some(back),
    ensures
        back.text_at("project_name"@) == Some(name),
{
    reveal_strlit("project_name");
    reveal_strlit("$serde_json::private::RawValue");
    assert("project_name"@.len() == 12 && "$serde_json::private::RawValue"@.len() == 30);
    assert(project_content(name).member(json::reserved_key()) is None);
    assert(project_content(name).text_at("project_name"@) == Some(name));
}

/// The events of a session but its start carry no data, and their ids tell what they are:
/// a message by its time, a tool call by its time and its place.
pub proof fn session_events_are_named_by_what_they_are(at: Timestamp, i: int, session: AgentSession)
    requires
        i >= 0,
    ensures
        message_event(at).suffix == "user_message-"@ + text::signed_decimal(at@.millis()),
        tool_event(at, i).suffix == "tool_use-"@ + text::signed_decimal(at@.millis()) + "-"@
            + text::decimal(i as nat),
        message_event(at).data == "{}"@ && tool_event(at, i).data == "{}"@,
        ended_events(session).len() > 0 ==> ended_events(session)[0].data == "{}"@,
{
}

} // verus!
