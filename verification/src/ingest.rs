//! Capture: what is recorded of terminal focus and of agent sessions.
use vstd::prelude::*;
use vstd::string::*;

use crate::ids;
use crate::ingest::debounce::{check_debounce, Debounce};
use crate::text;
use crate::time;
use crate::time::{Instant, Timestamp};

pub mod debounce;
pub mod pane_session;
pub mod pane_sweep;
pub mod pass;
pub mod report;
pub mod sessions;

pub use crate::ingest::pane_sweep::PaneSweepOutcome;
pub use crate::ingest::report::{IngestPaths, IngestReport};
pub use crate::ingest::sessions::{ScanMode, SCAN_OVERLAP_MINUTES};

verus! {

/// A pane event as it is written to the events file.
#[derive(Clone, Debug)]
pub struct IngestEvent {
    pub id: String,
    pub timestamp: String,
    pub source: String,
    pub event_type: String,
    /// The directory in which the event occurred.
    pub cwd: Option<String>,
    /// The agent session running in the pane, where one was identified.
    pub session_id: Option<String>,
    pub pane_id: String,
    pub tmux_session: String,
    pub window_index: Option<u32>,
    pub git_project: Option<String>,
    pub git_workspace: Option<String>,
}

/// The project that a directory belongs to.
#[derive(Clone, Debug)]
pub struct ProjectIdentity {
    pub project_name: String,
    pub workspace_name: Option<String>,
}

/// The source of an event that names none.
pub fn default_source() -> (r: String)
    ensures
        r@ == "remote.tmux"@,
{
    "remote.tmux".to_owned()
}

/// A pane and where it is.
pub struct PaneView {
    pub pane_id: Seq<char>,
    pub tmux_session: Seq<char>,
    pub window_index: Option<u32>,
    pub cwd: Seq<char>,
}

/// The id of a pane event.
pub open spec fn pane_event_id(
    machine_id: Seq<char>,
    event_type: Seq<char>,
    at: Instant,
    pane_id: Seq<char>,
) -> Seq<char> {
    machine_id + ":remote.tmux:"@ + event_type + ":"@ + time::formatted_text(
        at.secs,
        at.nanos,
        time::milli_format(),
    ) + ":"@ + pane_id
}

impl IngestEvent {
    /// Whether this records that something happened in a pane. In the years from zero
    /// to 9999 its time is read back to the millisecond.
    pub open spec fn records(
        self,
        machine_id: Seq<char>,
        event_type: Seq<char>,
        pane: PaneView,
        session_id: Option<String>,
        identity: Option<ProjectIdentity>,
        at: Instant,
    ) -> bool {
        &&& self.id@ == pane_event_id(machine_id, event_type, at, pane.pane_id)
        &&& self.timestamp@ == time::formatted_text(at.secs, at.nanos, time::milli_format())
        &&& time::is_plain_second(at.secs) ==> time::reads_as(self.timestamp@, at.to_the_milli())
        &&& self.source@ == "remote.tmux"@
        &&& self.event_type@ == event_type
        &&& text::opt_text(self.cwd) == Some(pane.cwd)
        &&& self.session_id == session_id
        &&& self.pane_id@ == pane.pane_id
        &&& self.tmux_session@ == pane.tmux_session
        &&& self.window_index == pane.window_index
        &&& self.git_project == match identity {
            Some(i) => Some(i.project_name),
            None => None,
        }
        &&& self.git_workspace == match identity {
            Some(i) => i.workspace_name,
            None => None,
        }
    }

    fn pane_event(
        machine_id: &str,
        event_type: &str,
        pane_id: String,
        tmux_session: String,
        window_index: Option<u32>,
        cwd: String,
        session_id: Option<String>,
        timestamp: &Timestamp,
        identity: Option<ProjectIdentity>,
    ) -> (r: Self)
        ensures
            r.records(
                machine_id@,
                event_type@,
                (PaneView {
                    pane_id: pane_id@,
                    tmux_session: tmux_session@,
                    window_index,
                    cwd: cwd@,
                }),
                session_id,
                identity,
                timestamp@,
            ),
    {
        let timestamp = timestamp.to_milli_text();
        let mut id = machine_id.to_owned();
        id.append(":remote.tmux:");
        id.append(event_type);
        id.append(":");
        id.append(timestamp.as_str());
        id.append(":");
        id.append(pane_id.as_str());
        let (git_project, git_workspace): (Option<String>, Option<String>) = match identity {
            Some(i) => (Some(i.project_name), i.workspace_name),
            None => (None, None),
        };
        IngestEvent {
            id,
            timestamp,
            source: default_source(),
            event_type: event_type.to_owned(),
            cwd: Some(cwd),
            session_id,
            pane_id,
            tmux_session,
            window_index,
            git_project,
            git_workspace,
        }
    }

    /// The event that a pane got the focus. Its id depends on the machine, the time
    /// and the pane alone.
    pub fn pane_focus(
        machine_id: &str,
        pane_id: String,
        tmux_session: String,
        window_index: Option<u32>,
        cwd: String,
        session_id: Option<String>,
        timestamp: &Timestamp,
        identity: Option<ProjectIdentity>,
    ) -> (r: Self)
        ensures
            r.records(
                machine_id@,
                "tmux_pane_focus"@,
                (PaneView {
                    pane_id: pane_id@,
                    tmux_session: tmux_session@,
                    window_index,
                    cwd: cwd@,
                }),
                session_id,
                identity,
                timestamp@,
            ),
    {
        IngestEvent::pane_event(
            machine_id,
            "tmux_pane_focus",
            pane_id,
            tmux_session,
            window_index,
            cwd,
            session_id,
            timestamp,
            identity,
        )
    }

    /// The event that the user scrolled in a pane. Its id depends on the machine, the
    /// time and the pane alone.
    pub fn scroll(
        machine_id: &str,
        pane_id: String,
        tmux_session: String,
        window_index: Option<u32>,
        cwd: String,
        timestamp: &Timestamp,
        identity: Option<ProjectIdentity>,
    ) -> (r: Self)
        ensures
            r.records(
                machine_id@,
                "tmux_scroll"@,
                (PaneView {
                    pane_id: pane_id@,
                    tmux_session: tmux_session@,
                    window_index,
                    cwd: cwd@,
                }),
                None,
                identity,
                timestamp@,
            ),
    {
        IngestEvent::pane_event(
            machine_id,
            "tmux_scroll",
            pane_id,
            tmux_session,
            window_index,
            cwd,
            None,
            timestamp,
            identity,
        )
    }
}

/// What `jj` said of a directory.
#[derive(Clone, Debug)]
pub struct JjIdentity {
    /// The address of the remote named `origin`.
    pub remote_url: Option<String>,
    pub workspace_count: usize,
    pub root: String,
}

/// The first line that names `origin`, as its position; the number of lines where
/// none does.
pub open spec fn origin_line(lines: Seq<Seq<char>>, from: int) -> int
    decreases lines.len() - from,
{
    if from >= lines.len() {
        lines.len() as int
    } else if text::contains_text(lines[from], "origin"@) {
        from
    } else {
        origin_line(lines, from + 1)
    }
}

/// The address in a listing of remotes: the second word of the first line that names
/// `origin`.
pub open spec fn origin_url(listing: Seq<char>) -> Option<Seq<char>> {
    let lines = text::lines(listing);
    let k = origin_line(lines, 0);
    if k < lines.len() && text::words(lines[k], false).len() > 1 {
        Some(text::words(lines[k], false)[1])
    } else {
        None
    }
}

/// Reads the address of the remote `origin` from a listing of remotes.
pub fn read_origin_url(listing: &str) -> (r: Option<String>)
    ensures
        text::opt_text(r) == origin_url(listing@),
{
    let lines = text::lines_of(listing);
    let ghost all = text::texts(lines@);
    let mut i: usize = 0;
    while i < lines.len()
        invariant
            i <= lines@.len(),
            all == text::texts(lines@),
            all == text::lines(listing@),
            origin_line(all, 0) == origin_line(all, i as int),
        decreases lines@.len() - i,
    {
        proof {
            assert(all[i as int] == lines@[i as int]@);
        }
        if text::contains(lines[i].as_str(), "origin") {
            let words = text::words_of(lines[i].as_str(), false);
            proof {
                assert(text::texts(words@) == text::words(all[i as int], false));
            }
            if words.len() > 1 {
                proof {
                    assert(text::texts(words@)[1] == words@[1]@);
                }
                return Some(words[1].clone());
            }
            return None;
        }
        i += 1;
    }
    None
}

/// Reads what `jj` said of a directory: its remotes, its workspaces and its root.
/// What it did not say is one workspace and the directory itself.
pub fn read_jj_identity(
    remotes: Option<&str>,
    workspaces: Option<&str>,
    root: Option<&str>,
    cwd: &str,
) -> (r: JjIdentity)
    ensures
        text::opt_text(r.remote_url) == match remotes {
            Some(listing) => origin_url(listing@),
            None => None,
        },
        r.workspace_count == match workspaces {
            Some(listing) => text::lines(listing@).len(),
            None => 1,
        },
        r.root@ == match root {
            Some(said) => if text::trimmed(said@).len() > 0 {
                text::trimmed(said@)
            } else {
                cwd@
            },
            None => cwd@,
        },
{
    let remote_url: Option<String> = match remotes {
        Some(listing) => read_origin_url(listing),
        None => None,
    };
    let workspace_count: usize = match workspaces {
        Some(listing) => {
            let lines = text::lines_of(listing);
            proof {
                assert(text::texts(lines@).len() == lines@.len());
            }
            lines.len()
        },
        None => 1,
    };
    let root: String = match root {
        Some(said) => if text::is_blank(said) {
            cwd.to_owned()
        } else {
            text::trim(said)
        },
        None => cwd.to_owned(),
    };
    JjIdentity { remote_url, workspace_count, root }
}

/// Bytes that the events file may hold: a file of this size is kept, and a larger one
/// is rotated.
pub const MAX_EVENTS_FILE_SIZE: u64 = 1_048_576;

/// Whether the events file is rotated before the next event is written.
pub fn needs_rotation(size: u64) -> (r: bool)
    ensures
        r == (size > MAX_EVENTS_FILE_SIZE),
{
    size > MAX_EVENTS_FILE_SIZE
}

/// What is done with a pane event.
#[derive(Debug)]
pub enum IngestStep {
    /// Nothing: the pane's last event was a moment ago.
    Debounced,
    /// The event is appended, and `debounce` is kept.
    Write { event: IngestEvent, debounce: String },
}

/// Milliseconds as an unsigned number of 64 bits, wrapped around where they are
/// negative.
pub open spec fn wrapped_millis(ms: int) -> int {
    if ms < 0 {
        ms + 0x1_0000_0000_0000_0000
    } else {
        ms
    }
}

fn wrap_millis(ms: i64) -> (r: u64)
    ensures
        r == wrapped_millis(ms as int),
{
    if ms < 0 {
        (ms as i128 + 0x1_0000_0000_0000_0000) as u64
    } else {
        ms as u64
    }
}

/// Whether a step is the right one for an event of a pane.
pub open spec fn is_step_for(
    step: IngestStep,
    machine_id: Seq<char>,
    event_type: Seq<char>,
    pane: PaneView,
    session_id: Option<String>,
    identity: Option<ProjectIdentity>,
    at: Instant,
    debounce: Seq<char>,
) -> bool {
    let now = wrapped_millis(at.millis());
    if debounce::is_debounced(debounce, pane.pane_id, now) {
        step is Debounced
    } else {
        step matches IngestStep::Write { event, debounce: kept } && event.records(
            machine_id,
            event_type,
            pane,
            session_id,
            identity,
            at,
        ) && kept@ == debounce::recorded(debounce, pane.pane_id, now as nat)
    }
}

/// Why a pane's events are refused: it has no id, or its session no name.
pub open spec fn pane_refusal(pane_id: Seq<char>, session_name: Seq<char>) -> Option<Seq<char>> {
    if pane_id.len() == 0 {
        Some("pane_id cannot be empty"@)
    } else if session_name.len() == 0 {
        Some("session_name cannot be empty"@)
    } else {
        None
    }
}

/// Says why a pane's events are refused, where they are.
pub fn refuse_pane(pane_id: &str, session_name: &str) -> (r: Option<String>)
    ensures
        text::opt_text(r) == pane_refusal(pane_id@, session_name@),
{
    if pane_id.unicode_len() == 0 {
        Some("pane_id cannot be empty".to_owned())
    } else if session_name.unicode_len() == 0 {
        Some("session_name cannot be empty".to_owned())
    } else {
        None
    }
}

fn write_pane_event(event: IngestEvent, at: &Timestamp, debounce: &str) -> (r: IngestStep)
    ensures
        ({
            let now = wrapped_millis(at@.millis());
            if debounce::is_debounced(debounce@, event.pane_id@, now) {
                r is Debounced
            } else {
                r matches IngestStep::Write { event: written, debounce: kept } && written == event
                    && kept@ == debounce::recorded(debounce@, event.pane_id@, now as nat)
            }
        }),
{
    let now_ms: u64 = wrap_millis(at.timestamp_millis());
    match check_debounce(debounce, event.pane_id.as_str(), now_ms) {
        Debounce::Skip => IngestStep::Debounced,
        Debounce::Record(kept) => IngestStep::Write { event, debounce: kept },
    }
}

/// Decides what is done with the focus of a pane at `now`, where `debounce` has been
/// kept. `session_id` is the agent session that runs in the pane, `identity` the
/// project of its directory.
pub fn ingest_pane_focus(
    machine_id: &str,
    pane_id: &str,
    session_name: &str,
    window_index: Option<u32>,
    cwd: &str,
    session_id: Option<String>,
    now: &Timestamp,
    identity: Option<ProjectIdentity>,
    debounce: &str,
) -> (r: Result<IngestStep, String>)
    ensures
        match pane_refusal(pane_id@, session_name@) {
            Some(message) => r matches Err(e) && e@ == message,
            None => r matches Ok(step) && is_step_for(
                step,
                machine_id@,
                "tmux_pane_focus"@,
                (PaneView {
                    pane_id: pane_id@,
                    tmux_session: session_name@,
                    window_index,
                    cwd: cwd@,
                }),
                session_id,
                identity,
                now@,
                debounce@,
            ),
        },
{
    if let Some(message) = refuse_pane(pane_id, session_name) {
        return Err(message);
    }
    let event = IngestEvent::pane_focus(
        machine_id,
        pane_id.to_owned(),
        session_name.to_owned(),
        window_index,
        cwd.to_owned(),
        session_id,
        now,
        identity,
    );
    Ok(write_pane_event(event, now, debounce))
}

/// Decides what is done with scrolling in a pane at `now`, where `debounce` has been
/// kept. Scrolling and focus are debounced together.
pub fn ingest_scroll(
    machine_id: &str,
    pane_id: &str,
    session_name: &str,
    window_index: Option<u32>,
    cwd: &str,
    now: &Timestamp,
    identity: Option<ProjectIdentity>,
    debounce: &str,
) -> (r: Result<IngestStep, String>)
    ensures
        match pane_refusal(pane_id@, session_name@) {
            Some(message) => r matches Err(e) && e@ == message,
            None => r matches Ok(step) && is_step_for(
                step,
                machine_id@,
                "tmux_scroll"@,
                (PaneView {
                    pane_id: pane_id@,
                    tmux_session: session_name@,
                    window_index,
                    cwd: cwd@,
                }),
                None,
                identity,
                now@,
                debounce@,
            ),
        },
{
    if let Some(message) = refuse_pane(pane_id, session_name) {
        return Err(message);
    }
    let event = IngestEvent::scroll(
        machine_id,
        pane_id.to_owned(),
        session_name.to_owned(),
        window_index,
        cwd.to_owned(),
        now,
        identity,
    );
    Ok(write_pane_event(event, now, debounce))
}

/// Two events recorded for a pane, one after the other, lie a window apart, whichever
/// of focus and scrolling they are: where the first was written, the second is written
/// only from the end of the window on, also where the clock has stepped back.
pub proof fn written_events_lie_apart(
    first: IngestStep,
    second: IngestStep,
    machine_id: Seq<char>,
    kinds: (Seq<char>, Seq<char>),
    panes: (PaneView, PaneView),
    at: (Instant, Instant),
    identities: (Option<ProjectIdentity>, Option<ProjectIdentity>),
    sessions: (Option<String>, Option<String>),
    debounce: Seq<char>,
)
    requires
        panes.0.pane_id == panes.1.pane_id,
        !panes.0.pane_id.contains('\n'),
        0 <= at.0.millis() <= u64::MAX,
        0 <= at.1.millis(),
        is_step_for(
            first,
            machine_id,
            kinds.0,
            panes.0,
            sessions.0,
            identities.0,
            at.0,
            debounce,
        ),
        first is Write,
        is_step_for(
            second,
            machine_id,
            kinds.1,
            panes.1,
            sessions.1,
            identities.1,
            at.1,
            first->debounce@,
        ),
    ensures
        second is Write <==> at.1.millis() - at.0.millis() >= debounce::DEBOUNCE_WINDOW_MS,
{
    debounce::recording_debounces(
        debounce,
        panes.0.pane_id,
        at.0.millis() as nat,
        at.1.millis(),
    );
}

/// The id of a pane event tells its machine: what is imported elsewhere is stored as
/// this machine's.
pub proof fn pane_events_tell_their_machine(
    machine_id: Seq<char>,
    event_type: Seq<char>,
    at: Instant,
    pane_id: Seq<char>,
)
    requires
        ids::reads_as_id(machine_id),
    ensures
        ids::machine_of(pane_event_id(machine_id, event_type, at, pane_id)) == Some(machine_id),
{
    reveal_strlit(":remote.tmux:");
    let id = pane_event_id(machine_id, event_type, at, pane_id);
    assert(id.take(36) =~= machine_id);
    assert(id[36] == ":remote.tmux:"@[0]);
    ids::machines_read_back(id, machine_id);
}

/// Events of two panes at one time have ids of their own, and so have the focus and
/// the scrolling of one pane.
pub proof fn pane_events_have_ids_of_their_own(
    machine_id: Seq<char>,
    event_type: Seq<char>,
    at: Instant,
    panes: (Seq<char>, Seq<char>),
)
    ensures
        panes.0 != panes.1 ==> pane_event_id(machine_id, event_type, at, panes.0)
            != pane_event_id(machine_id, event_type, at, panes.1),
        pane_event_id(machine_id, "tmux_pane_focus"@, at, panes.0) != pane_event_id(
            machine_id,
            "tmux_scroll"@,
            at,
            panes.0,
        ),
{
    let start = machine_id + ":remote.tmux:"@ + event_type + ":"@ + time::formatted_text(
        at.secs,
        at.nanos,
        time::milli_format(),
    ) + ":"@;
    let first = pane_event_id(machine_id, event_type, at, panes.0);
    let second = pane_event_id(machine_id, event_type, at, panes.1);
    assert(first.skip(start.len() as int) =~= panes.0);
    assert(second.skip(start.len() as int) =~= panes.1);
    reveal_strlit("tmux_pane_focus");
    reveal_strlit("tmux_scroll");
    let focus = pane_event_id(machine_id, "tmux_pane_focus"@, at, panes.0);
    let scroll = pane_event_id(machine_id, "tmux_scroll"@, at, panes.0);
    let k = (machine_id + ":remote.tmux:"@).len() as int + 5;
    assert(focus[k] == 'p');
    assert(scroll[k] == 's');
}

/// What is written for a pane tells what happened where: the pane and its session, its
/// window, the directory, the agent session that runs there, the project and the
/// workspace of the directory, and the time to the millisecond. Its id starts with the
/// machine and ends with the pane.
pub proof fn pane_events_tell_what_happened(
    step: IngestStep,
    machine_id: Seq<char>,
    event_type: Seq<char>,
    pane: PaneView,
    session_id: Option<String>,
    identity: Option<ProjectIdentity>,
    at: Instant,
    debounce: Seq<char>,
)
    requires
        is_step_for(step, machine_id, event_type, pane, session_id, identity, at, debounce),
        step is Write,
    ensures
        ({
            let event = step->event;
            &&& event.pane_id@ == pane.pane_id
            &&& event.tmux_session@ == pane.tmux_session
            &&& event.window_index == pane.window_index
            &&& text::opt_text(event.cwd) == Some(pane.cwd)
            &&& text::opt_text(event.session_id) == text::opt_text(session_id)
            &&& event.event_type@ == event_type
            &&& event.source@ == "remote.tmux"@
            &&& identity is None ==> event.git_project is None && event.git_workspace is None
            &&& identity matches Some(of) ==> text::opt_text(event.git_project) == Some(
                of.project_name@,
            ) && text::opt_text(event.git_workspace) == text::opt_text(of.workspace_name)
            &&& time::is_plain_second(at.secs) ==> (time::rfc3339_instant(event.timestamp@) matches Some(
                parts,
            ) && parts.0 == at.secs && parts.1 == at.nanos / 1_000_000 * 1_000_000)
            &&& event.id@.len() > machine_id.len() + pane.pane_id.len()
            &&& event.id@.take(machine_id.len() as int) == machine_id
            &&& event.id@.skip(event.id@.len() - pane.pane_id.len()) == pane.pane_id
        }),
{
    let event = step->event;
    reveal_strlit(":remote.tmux:");
    assert(event.id@.take(machine_id.len() as int) =~= machine_id);
    assert(event.id@.skip(event.id@.len() - pane.pane_id.len()) =~= pane.pane_id);
}

/// The address of a listing is on its first line that names `origin`, as the second word
/// there; where no line does so, or the line has no second word, there is none.
pub proof fn addresses_stand_on_the_first_origin_line(listing: Seq<char>, k: int)
    requires
        0 <= k < text::lines(listing).len(),
        text::contains_text(text::lines(listing)[k], "origin"@),
        forall|i: int|
            0 <= i < k ==> !text::contains_text(#[trigger] text::lines(listing)[i], "origin"@),
    ensures
        origin_url(listing) is Some <==> text::words(text::lines(listing)[k], false).len() >= 2,
        origin_url(listing) matches Some(url) ==> url == text::words(
            text::lines(listing)[k],
            false,
        )[1],
{
    origin_line_is_first(text::lines(listing), 0, k);
}

proof fn origin_line_is_first(lines: Seq<Seq<char>>, from: int, k: int)
    requires
        0 <= from <= k < lines.len(),
        text::contains_text(lines[k], "origin"@),
        forall|i: int| from <= i < k ==> !text::contains_text(#[trigger] lines[i], "origin"@),
    ensures
        origin_line(lines, from) == k,
    decreases k - from,
{
    if from < k {
        assert(!text::contains_text(lines[from], "origin"@));
        origin_line_is_first(lines, from + 1, k);
    }
}

/// Without a line that names `origin` there is no address.
pub proof fn no_origin_gives_no_address(listing: Seq<char>)
    requires
        forall|i: int|
            0 <= i < text::lines(listing).len() ==> !text::contains_text(
                #[trigger] text::lines(listing)[i],
                "origin"@,
            ),
    ensures
        origin_url(listing) is None,
{
    no_line_names_origin(text::lines(listing), 0);
}

proof fn no_line_names_origin(lines: Seq<Seq<char>>, from: int)
    requires
        0 <= from <= lines.len(),
        forall|i: int|
            0 <= i < lines.len() ==> !text::contains_text(#[trigger] lines[i], "origin"@),
    ensures
        origin_line(lines, from) == lines.len(),
    decreases lines.len() - from,
{
    if from < lines.len() {
        assert(!text::contains_text(lines[from], "origin"@));
        no_line_names_origin(lines, from + 1);
    }
}

/// A pane's events are taken exactly where the pane has an id and its session a name, and
/// of the two the id is missed first.
pub proof fn panes_are_named(pane_id: Seq<char>, session_name: Seq<char>)
    ensures
        pane_refusal(pane_id, session_name) is None <==> pane_id.len() > 0 && session_name.len()
            > 0,
        pane_id.len() == 0 ==> pane_refusal(pane_id, session_name) == Some(
            "pane_id cannot be empty"@,
        ),
        pane_id.len() > 0 && session_name.len() == 0 ==> pane_refusal(pane_id, session_name)
            == Some("session_name cannot be empty"@),
{
}

/// Times since the epoch are compared as they are, and earlier ones come behind all
/// others, in their order.
pub proof fn milliseconds_wrap_around(ms: int, other: int)
    requires
        i64::MIN <= ms <= i64::MAX,
        i64::MIN <= other <= i64::MAX,
    ensures
        0 <= wrapped_millis(ms) <= u64::MAX,
        ms >= 0 ==> wrapped_millis(ms) == ms,
        ms < 0 && other >= 0 ==> wrapped_millis(ms) > wrapped_millis(other),
        wrapped_millis(ms) - wrapped_millis(other) == ms - other || (ms < 0) != (other < 0),
{
}

} // verus!
