//! Export of recorded events: lines of the tmux log as they are, and events made
//! from the entries of agent session logs.
use vstd::hash_set::StringHashSet;
use vstd::prelude::*;
use vstd::string::*;

use crate::ids;
use crate::json;
use crate::json::JsonView;
use crate::text;

pub mod logs;

pub use crate::export::logs::ClaudeManifest;

verus! {

broadcast use vstd::seq_lib::group_seq_properties;

/// Whose logs are read: the machine that keeps them, and the name of the agent that
/// wrote them.
#[derive(Clone, Debug)]
pub struct Recorder {
    pub machine_id: String,
    pub agent: String,
}

/// The ids of the sessions whose start was exported already.
pub type SeenSessions = StringHashSet;

/// What an `agent_session` event says.
#[derive(Clone, Debug)]
pub struct AgentSessionData {
    pub action: String,
    pub agent: String,
    pub session_id: String,
    pub cwd: Option<String>,
}

/// What a `user_message` event says.
#[derive(Clone, Debug)]
pub struct UserMessageData {
    pub agent: String,
    pub session_id: String,
    /// Bytes of text in the message.
    pub length: usize,
    pub has_image: bool,
}

/// What an `agent_tool_use` event says.
#[derive(Clone, Debug)]
pub struct AgentToolUseData {
    pub agent: String,
    pub session_id: String,
    pub tool: String,
    pub file: Option<String>,
}

/// What an exported event says.
#[derive(Clone, Debug)]
pub enum ExportData {
    AgentSession(AgentSessionData),
    UserMessage(UserMessageData),
    AgentToolUse(AgentToolUseData),
}

/// An exported event.
#[derive(Clone, Debug)]
pub struct ExportEvent {
    pub id: String,
    pub timestamp: String,
    pub source: String,
    pub event_type: String,
    pub data: ExportData,
}

/// What an exported event says.
pub enum DataView {
    AgentSession {
        action: Seq<char>,
        agent: Seq<char>,
        session_id: Seq<char>,
        cwd: Option<Seq<char>>,
    },
    UserMessage { agent: Seq<char>, session_id: Seq<char>, length: nat, has_image: bool },
    AgentToolUse {
        agent: Seq<char>,
        session_id: Seq<char>,
        tool: Seq<char>,
        file: Option<Seq<char>>,
    },
}

/// An exported event.
pub struct EventView {
    pub id: Seq<char>,
    pub timestamp: Seq<char>,
    pub source: Seq<char>,
    pub event_type: Seq<char>,
    pub data: DataView,
}

impl View for ExportEvent {
    type V = EventView;

    open spec fn view(&self) -> EventView {
        EventView {
            id: self.id@,
            timestamp: self.timestamp@,
            source: self.source@,
            event_type: self.event_type@,
            data: match self.data {
                ExportData::AgentSession(d) => DataView::AgentSession {
                    action: d.action@,
                    agent: d.agent@,
                    session_id: d.session_id@,
                    cwd: text::opt_text(d.cwd),
                },
                ExportData::UserMessage(d) => DataView::UserMessage {
                    agent: d.agent@,
                    session_id: d.session_id@,
                    length: d.length as nat,
                    has_image: d.has_image,
                },
                ExportData::AgentToolUse(d) => DataView::AgentToolUse {
                    agent: d.agent@,
                    session_id: d.session_id@,
                    tool: d.tool@,
                    file: text::opt_text(d.file),
                },
            },
        }
    }
}

/// The events of a list.
pub open spec fn views(events: Seq<ExportEvent>) -> Seq<EventView> {
    Seq::new(events.len(), |i: int| events[i]@)
}

/// The file that a tool worked on, as far as its input names one.
pub open spec fn tool_file(tool: Seq<char>, input: JsonView) -> Option<Seq<char>> {
    if tool == "Edit"@ || tool == "Read"@ || tool == "Write"@ || tool == "NotebookEdit"@ {
        input.text_at("file_path"@)
    } else if tool == "Glob"@ || tool == "Grep"@ {
        input.text_at("path"@)
    } else {
        None
    }
}

/// The file that a tool worked on, as far as its input names one.
pub fn extract_file(tool: &str, input: &serde_json::Value) -> (r: Option<String>)
    ensures
        text::opt_text(r) == tool_file(tool@, json::content(*input)),
{
    let key: &str = if text::same(tool, "Edit") || text::same(tool, "Read") || text::same(
        tool,
        "Write",
    ) || text::same(tool, "NotebookEdit") {
        "file_path"
    } else if text::same(tool, "Glob") || text::same(tool, "Grep") {
        "path"
    } else {
        return None;
    };
    match json::text_member(input, key) {
        Some(file) => Some(file.to_owned()),
        None => None,
    }
}

/// Whether an item of a message is of a type.
pub open spec fn is_item(item: JsonView, name: Seq<char>) -> bool {
    item.text_at("type"@) == Some(name)
}

/// Whether some item of a message is of a type.
pub open spec fn some_item(items: Seq<JsonView>, name: Seq<char>) -> bool {
    exists|i: int| 0 <= i < items.len() && is_item(#[trigger] items[i], name)
}

fn item_is(item: &serde_json::Value, name: &str) -> (r: bool)
    ensures
        r == is_item(json::content(*item), name@),
{
    match json::text_member(item, "type") {
        Some(t) => text::same(t, name),
        None => false,
    }
}

/// What a message holds: the entry's `message.content`.
pub open spec fn message_content(entry: JsonView) -> Option<JsonView> {
    match entry.member("message"@) {
        Some(message) => message.member("content"@),
        None => None,
    }
}

fn content_of(entry: &serde_json::Value) -> (r: Option<&serde_json::Value>)
    ensures
        match r {
            Some(found) => message_content(json::content(*entry)) == Some(json::content(*found)),
            None => message_content(json::content(*entry)) is None,
        },
{
    match json::member(entry, "message") {
        Some(message) => json::member(message, "content"),
        None => None,
    }
}

/// Whether a message carries the result of a tool.
pub open spec fn has_tool_result(entry: JsonView) -> bool {
    match message_content(entry) {
        Some(JsonView::Array(items)) => some_item(items, "tool_result"@),
        _ => false,
    }
}

/// Whether a message carries the result of a tool.
pub fn is_tool_result(entry: &serde_json::Value) -> (r: bool)
    ensures
        r == has_tool_result(json::content(*entry)),
{
    let found: &serde_json::Value = match content_of(entry) {
        Some(found) => found,
        None => {
            return false;
        },
    };
    let items: &Vec<serde_json::Value> = match found.as_array() {
        Some(items) => items,
        None => {
            return false;
        },
    };
    let ghost all = json::contents(items@);
    let mut i: usize = 0;
    while i < items.len()
        invariant
            i <= items@.len(),
            all == json::contents(items@),
            message_content(json::content(*entry)) == Some(JsonView::Array(all)),
            forall|k: int| 0 <= k < i ==> !is_item(#[trigger] all[k], "tool_result"@),
        decreases items@.len() - i,
    {
        if item_is(&items[i], "tool_result") {
            proof {
                assert(is_item(all[i as int], "tool_result"@));
                assert(some_item(all, "tool_result"@));
            }
            return true;
        }
        i += 1;
    }
    false
}

/// The bytes of text in an item of a message.
pub open spec fn item_length(item: JsonView) -> nat {
    if is_item(item, "text"@) {
        match item.text_at("text"@) {
            Some(text) => vstd::utf8::encode_utf8(text).len(),
            None => 0,
        }
    } else {
        0
    }
}

/// The bytes of text in the items of a message.
pub open spec fn items_length(items: Seq<JsonView>) -> nat
    decreases items.len(),
{
    if items.len() == 0 {
        0
    } else {
        items_length(items.drop_last()) + item_length(items.last())
    }
}

/// The bytes of text in a message.
pub open spec fn message_length(content: Option<JsonView>) -> nat {
    match content {
        Some(JsonView::Text(text)) => vstd::utf8::encode_utf8(text).len(),
        Some(JsonView::Array(items)) => items_length(items),
        _ => 0,
    }
}

/// A length as a `usize` holds it: no more than its largest value.
pub open spec fn held_length(n: nat) -> nat {
    if n <= usize::MAX {
        n
    } else {
        usize::MAX as nat
    }
}

/// Whether a message shows an image.
pub open spec fn shows_image(content: Option<JsonView>) -> bool {
    match content {
        Some(JsonView::Array(items)) => some_item(items, "image"@),
        _ => false,
    }
}

/// What a message's content reads as.
pub open spec fn seen_content(content: Option<&serde_json::Value>) -> Option<JsonView> {
    match content {
        Some(value) => Some(json::content(*value)),
        None => None,
    }
}

/// The bytes of text in a message, and whether it shows an image.
pub fn extract_message_info(content: Option<&serde_json::Value>) -> (r: (usize, bool))
    ensures
        r.0 == held_length(message_length(seen_content(content))),
        r.1 == shows_image(seen_content(content)),
{
    let value: &serde_json::Value = match content {
        Some(value) => value,
        None => {
            return (0, false);
        },
    };
    if let Some(text) = value.as_str() {
        return (text.as_bytes().len(), false);
    }
    let items: &Vec<serde_json::Value> = match value.as_array() {
        Some(items) => items,
        None => {
            return (0, false);
        },
    };
    let ghost all = json::contents(items@);
    let mut length: usize = 0;
    let mut has_image = false;
    let mut i: usize = 0;
    while i < items.len()
        invariant
            i <= items@.len(),
            all == json::contents(items@),
            length == held_length(items_length(all.take(i as int))),
            has_image == (exists|k: int| 0 <= k < i && is_item(#[trigger] all[k], "image"@)),
        decreases items@.len() - i,
    {
        let item: &serde_json::Value = &items[i];
        proof {
            assert(all.take(i + 1).drop_last() =~= all.take(i as int));
            assert(all[i as int] == json::content(*item));
            reveal_strlit("text");
            reveal_strlit("image");
            assert("text"@.len() != "image"@.len());
        }
        if item_is(item, "text") {
            if let Some(text) = json::text_member(item, "text") {
                length = length.saturating_add(text.as_bytes().len());
            }
        } else if item_is(item, "image") {
            has_image = true;
            proof {
                assert(is_item(all[i as int], "image"@));
            }
        }
        i += 1;
    }
    proof {
        assert(all.take(i as int) =~= all);
    }
    (length, has_image)
}

/// The id of an event made from an entry.
pub open spec fn event_id(
    machine: Seq<char>,
    event_type: Seq<char>,
    timestamp: Seq<char>,
    what: Seq<char>,
) -> Seq<char> {
    machine + ":remote.agent:"@ + event_type + ":"@ + timestamp + ":"@ + what
}

/// An event made from an entry.
pub open spec fn made_event(
    by: Recorder,
    event_type: Seq<char>,
    timestamp: Seq<char>,
    what: Seq<char>,
    data: DataView,
) -> EventView {
    EventView {
        id: event_id(by.machine_id@, event_type, timestamp, what),
        timestamp,
        source: "remote.agent"@,
        event_type,
        data,
    }
}

/// The event that a session has started.
pub open spec fn start_event(
    session_id: Seq<char>,
    timestamp: Seq<char>,
    cwd: Option<Seq<char>>,
    by: Recorder,
) -> EventView {
    made_event(
        by,
        "agent_session"@,
        timestamp,
        session_id + ":started"@,
        DataView::AgentSession { action: "started"@, agent: by.agent@, session_id, cwd },
    )
}

/// The events for an entry of type `user`: one, unless it carries a tool's result.
pub open spec fn message_events(
    entry: JsonView,
    session_id: Seq<char>,
    timestamp: Seq<char>,
    by: Recorder,
) -> Seq<EventView> {
    if has_tool_result(entry) {
        Seq::empty()
    } else {
        seq![
            made_event(
                by,
                "user_message"@,
                timestamp,
                match entry.text_at("uuid"@) {
                    Some(uuid) => uuid,
                    None => session_id,
                },
                DataView::UserMessage {
                    agent: by.agent@,
                    session_id,
                    length: held_length(message_length(message_content(entry))),
                    has_image: shows_image(message_content(entry)),
                },
            ),
        ]
    }
}

/// The events for an item of an assistant's message: one where it is a tool's use.
pub open spec fn tool_event(
    item: JsonView,
    session_id: Seq<char>,
    timestamp: Seq<char>,
    by: Recorder,
) -> Seq<EventView> {
    if !is_item(item, "tool_use"@) {
        Seq::empty()
    } else {
        let tool = match item.text_at("name"@) {
            Some(name) => name,
            None => "unknown"@,
        };
        let id = match item.text_at("id"@) {
            Some(id) => id,
            None => "unknown"@,
        };
        let file = match item.member("input"@) {
            Some(input) => tool_file(tool, input),
            None => None,
        };
        seq![
            made_event(
                by,
                "agent_tool_use"@,
                timestamp,
                id,
                DataView::AgentToolUse { agent: by.agent@, session_id, tool, file },
            ),
        ]
    }
}

/// The events for the items of an assistant's message, in their order.
pub open spec fn tool_events(
    items: Seq<JsonView>,
    session_id: Seq<char>,
    timestamp: Seq<char>,
    by: Recorder,
) -> Seq<EventView>
    decreases items.len(),
{
    if items.len() == 0 {
        Seq::empty()
    } else {
        tool_events(items.drop_last(), session_id, timestamp, by) + tool_event(
            items.last(),
            session_id,
            timestamp,
            by,
        )
    }
}

/// Whether entries of a type are left out.
pub open spec fn is_filtered(entry_type: Seq<char>) -> bool {
    entry_type == "progress"@ || entry_type == "file-history-snapshot"@ || entry_type == "summary"@
        || entry_type == "system"@
}

/// The type of an entry; empty where it has none.
pub open spec fn type_of(entry: JsonView) -> Seq<char> {
    match entry.text_at("type"@) {
        Some(entry_type) => entry_type,
        None => ""@,
    }
}

/// The session that an entry tells of and the time it gives, where it is about
/// events at all.
pub open spec fn told_of(entry: JsonView) -> Option<(Seq<char>, Seq<char>)> {
    match (entry.text_at("sessionId"@), entry.text_at("timestamp"@)) {
        (Some(session_id), Some(timestamp)) => if is_filtered(type_of(entry)) {
            None
        } else {
            Some((session_id, timestamp))
        },
        _ => None,
    }
}

/// The sessions that are known after an entry.
pub open spec fn seen_after(entry: JsonView, seen: Set<Seq<char>>) -> Set<Seq<char>> {
    match told_of(entry) {
        Some((session_id, _)) => seen.insert(session_id),
        None => seen,
    }
}

/// What an entry tells besides the start of its session.
pub open spec fn told_events(
    entry: JsonView,
    session_id: Seq<char>,
    timestamp: Seq<char>,
    by: Recorder,
) -> Seq<EventView> {
    if type_of(entry) == "user"@ {
        message_events(entry, session_id, timestamp, by)
    } else if type_of(entry) == "assistant"@ {
        match message_content(entry) {
            Some(JsonView::Array(items)) => tool_events(items, session_id, timestamp, by),
            _ => Seq::empty(),
        }
    } else {
        Seq::empty()
    }
}

/// The events made from an entry, where the sessions in `seen` have been met.
pub open spec fn entry_events(
    entry: JsonView,
    seen: Set<Seq<char>>,
    by: Recorder,
) -> Seq<EventView> {
    match told_of(entry) {
        Some((session_id, timestamp)) => (if seen.contains(session_id) {
            Seq::empty()
        } else {
            seq![start_event(session_id, timestamp, entry.text_at("cwd"@), by)]
        }) + told_events(entry, session_id, timestamp, by),
        None => Seq::empty(),
    }
}

fn make_event(
    by: &Recorder,
    event_type: &str,
    timestamp: &str,
    what: &str,
    data: ExportData,
) -> (r: ExportEvent)
    ensures
        r.id@ == event_id(by.machine_id@, event_type@, timestamp@, what@),
        r.timestamp@ == timestamp@,
        r.source@ == "remote.agent"@,
        r.event_type@ == event_type@,
        r.data == data,
{
    let mut id = by.machine_id.as_str().to_owned();
    id.append(":remote.agent:");
    id.append(event_type);
    id.append(":");
    id.append(timestamp);
    id.append(":");
    id.append(what);
    ExportEvent {
        id,
        timestamp: timestamp.to_owned(),
        source: "remote.agent".to_owned(),
        event_type: event_type.to_owned(),
        data,
    }
}

fn session_start(session_id: &str, timestamp: &str, cwd: Option<&str>, by: &Recorder) -> (r:
    ExportEvent)
    ensures
        r@ == start_event(session_id@, timestamp@, text::opt_str(cwd), *by),
{
    let mut what = session_id.to_owned();
    what.append(":started");
    let data = AgentSessionData {
        action: "started".to_owned(),
        agent: by.agent.clone(),
        session_id: session_id.to_owned(),
        cwd: match cwd {
            Some(cwd) => Some(cwd.to_owned()),
            None => None,
        },
    };
    make_event(by, "agent_session", timestamp, what.as_str(), ExportData::AgentSession(data))
}

fn user_message(
    entry: &serde_json::Value,
    session_id: &str,
    timestamp: &str,
    by: &Recorder,
) -> (r: Option<ExportEvent>)
    ensures
        message_events(json::content(*entry), session_id@, timestamp@, *by) == match r {
            Some(event) => seq![event@],
            None => Seq::empty(),
        },
{
    if is_tool_result(entry) {
        return None;
    }
    let (length, has_image) = extract_message_info(content_of(entry));
    let data = UserMessageData {
        agent: by.agent.clone(),
        session_id: session_id.to_owned(),
        length,
        has_image,
    };
    let what: &str = match json::text_member(entry, "uuid") {
        Some(uuid) => uuid,
        None => session_id,
    };
    Some(make_event(by, "user_message", timestamp, what, ExportData::UserMessage(data)))
}

fn tool_use(item: &serde_json::Value, session_id: &str, timestamp: &str, by: &Recorder) -> (r:
    Option<ExportEvent>)
    ensures
        tool_event(json::content(*item), session_id@, timestamp@, *by) == match r {
            Some(event) => seq![event@],
            None => Seq::empty(),
        },
{
    if !item_is(item, "tool_use") {
        return None;
    }
    let tool: &str = match json::text_member(item, "name") {
        Some(name) => name,
        None => "unknown",
    };
    let id: &str = match json::text_member(item, "id") {
        Some(id) => id,
        None => "unknown",
    };
    let file: Option<String> = match json::member(item, "input") {
        Some(input) => extract_file(tool, input),
        None => None,
    };
    let data = AgentToolUseData {
        agent: by.agent.clone(),
        session_id: session_id.to_owned(),
        tool: tool.to_owned(),
        file,
    };
    Some(make_event(by, "agent_tool_use", timestamp, id, ExportData::AgentToolUse(data)))
}

fn tool_uses(
    entry: &serde_json::Value,
    session_id: &str,
    timestamp: &str,
    by: &Recorder,
    out: &mut Vec<ExportEvent>,
)
    ensures
        views(final(out)@) == views(old(out)@) + match message_content(json::content(*entry)) {
            Some(JsonView::Array(items)) => tool_events(
                items,
                session_id@,
                timestamp@,
                *by,
            ),
            _ => Seq::empty(),
        },
{
    let ghost start = views(out@);
    let found: Option<&serde_json::Value> = content_of(entry);
    if let Some(value) = found {
        if let Some(items) = value.as_array() {
            let ghost all = json::contents(items@);
            let mut i: usize = 0;
            while i < items.len()
                invariant
                    i <= items@.len(),
                    all == json::contents(items@),
                    views(out@) == start + tool_events(
                        all.take(i as int),
                        session_id@,
                        timestamp@,
                        *by,
                    ),
                decreases items@.len() - i,
            {
                let ghost before = views(out@);
                proof {
                    assert(all.take(i + 1).drop_last() =~= all.take(i as int));
                    assert(all.take(i + 1).last() == json::content(items@[i as int]));
                }
                if let Some(event) = tool_use(&items[i], session_id, timestamp, by) {
                    let ghost made = event@;
                    out.push(event);
                    proof {
                        assert(views(out@) =~= before + seq![made]);
                    }
                }
                i += 1;
            }
            proof {
                assert(all.take(i as int) =~= all);
            }
        }
    }
}

/// Makes the events of an entry and adds them to `out`. `seen` holds the sessions
/// that have been met, and takes in the entry's own.
pub fn process_claude_entry(
    entry: &serde_json::Value,
    seen: &mut SeenSessions,
    by: &Recorder,
    out: &mut Vec<ExportEvent>,
)
    ensures
        final(seen)@ == seen_after(json::content(*entry), old(seen)@),
        views(final(out)@) == views(old(out)@) + entry_events(
            json::content(*entry),
            old(seen)@,
            *by,
        ),
{
    let ghost start = views(out@);
    let ghost met = seen@;
    let session_id: &str = match json::text_member(entry, "sessionId") {
        Some(session_id) => session_id,
        None => {
            return;
        },
    };
    let entry_type: &str = match json::text_member(entry, "type") {
        Some(entry_type) => entry_type,
        None => "",
    };
    if text::same(entry_type, "progress") || text::same(entry_type, "file-history-snapshot")
        || text::same(entry_type, "summary") || text::same(entry_type, "system") {
        return;
    }
    let timestamp: &str = match json::text_member(entry, "timestamp") {
        Some(timestamp) => timestamp,
        None => {
            return;
        },
    };
    if !seen.contains(session_id) {
        let cwd: Option<&str> = json::text_member(entry, "cwd");
        let event = session_start(session_id, timestamp, cwd, by);
        let ghost made = event@;
        out.push(event);
        seen.insert(session_id.to_owned());
        proof {
            assert(views(out@) =~= start + seq![made]);
        }
    } else {
        proof {
            assert(met.insert(session_id@) =~= met);
        }
    }
    let ghost started = views(out@);
    if text::same(entry_type, "user") {
        if let Some(event) = user_message(entry, session_id, timestamp, by) {
            let ghost made = event@;
            out.push(event);
            proof {
                assert(views(out@) =~= started + seq![made]);
            }
        }
    } else if text::same(entry_type, "assistant") {
        tool_uses(entry, session_id, timestamp, by, out);
    }
    proof {
        assert(views(out@) =~= start + entry_events(json::content(*entry), met, *by));
    }
}

/// The id of an exported event tells its machine.
pub proof fn exported_events_tell_their_machine(
    machine: Seq<char>,
    event_type: Seq<char>,
    timestamp: Seq<char>,
    what: Seq<char>,
)
    requires
        ids::reads_as_id(machine),
    ensures
        ids::machine_of(event_id(machine, event_type, timestamp, what)) == Some(machine),
{
    reveal_strlit(":remote.agent:");
    let id = event_id(machine, event_type, timestamp, what);
    assert(id.take(36) =~= machine);
    assert(id[36] == ":remote.agent:"@[0]);
    ids::machines_read_back(id, machine);
}

/// Whether one text ends with another.
pub open spec fn ends_with(whole: Seq<char>, part: Seq<char>) -> bool {
    whole.len() >= part.len() && whole.skip(whole.len() - part.len()) == part
}

/// Whether an event tells of the use of a tool, as an item of a message gives it: its id
/// ends with the id that the item itself gives.
pub open spec fn tells_of_tool(
    event: ExportEvent,
    item: JsonView,
    session_id: Seq<char>,
    timestamp: Seq<char>,
    by: Recorder,
) -> bool {
    &&& event.timestamp@ == timestamp
    &&& event.source@ == "remote.agent"@
    &&& event.event_type@ == "agent_tool_use"@
    &&& item.text_at("id"@) matches Some(id) ==> ends_with(event.id@, ":"@ + id) && event.id@
        == by.machine_id@ + ":remote.agent:"@ + "agent_tool_use"@ + ":"@ + timestamp + ":"@ + id
    &&& match event.data {
        ExportData::AgentToolUse(d) => {
            &&& d.agent@ == by.agent@
            &&& d.session_id@ == session_id
            &&& item.text_at("name"@) matches Some(name) ==> d.tool@ == name
            &&& item.text_at("name"@) is None ==> d.tool@ == "unknown"@
            &&& item.member("input"@) matches Some(input) ==> text::opt_text(d.file) == tool_file(
                d.tool@,
                input,
            )
            &&& item.member("input"@) is None ==> d.file is None
        },
        _ => false,
    }
}

/// How many items of a message are uses of a tool.
pub open spec fn tool_count(items: Seq<JsonView>) -> nat
    decreases items.len(),
{
    if items.len() == 0 {
        0
    } else {
        tool_count(items.drop_last()) + (if is_item(items.last(), "tool_use"@) {
            1nat
        } else {
            0
        })
    }
}

proof fn tool_events_stand_in_order(
    items: Seq<JsonView>,
    session_id: Seq<char>,
    timestamp: Seq<char>,
    by: Recorder,
)
    ensures
        tool_events(items, session_id, timestamp, by).len() == tool_count(items),
        forall|i: int|
            0 <= i < items.len() && is_item(#[trigger] items[i], "tool_use"@) ==> tool_count(
                items.take(i),
            ) < tool_count(items) && seq![
                tool_events(items, session_id, timestamp, by)[tool_count(items.take(i)) as int],
            ] == tool_event(items[i], session_id, timestamp, by),
    decreases items.len(),
{
    if items.len() > 0 {
        let earlier = items.drop_last();
        tool_events_stand_in_order(earlier, session_id, timestamp, by);
        assert forall|i: int|
            0 <= i < items.len() && is_item(#[trigger] items[i], "tool_use"@) implies tool_count(
            items.take(i),
        ) < tool_count(items) && seq![
            tool_events(items, session_id, timestamp, by)[tool_count(items.take(i)) as int],
        ] == tool_event(items[i], session_id, timestamp, by) by {
            if i < earlier.len() {
                assert(earlier[i] == items[i]);
                assert(earlier.take(i) =~= items.take(i));
            } else {
                assert(items.take(i) =~= earlier);
                assert(seq![
                    tool_events(items, session_id, timestamp, by)[tool_count(items.take(i)) as int],
                ] =~= tool_event(items[i], session_id, timestamp, by));
            }
        }
    }
}

/// The entry of an assistant's message gives one event for each use of a tool in it, in
/// their order and behind the start of the session where that was not met yet, and no
/// other. Each is at the time that the entry gives, of the session that it names, and
/// its id ends with the id that the item itself gives.
pub proof fn tools_are_told_under_their_own_ids(
    events: Seq<ExportEvent>,
    entry: JsonView,
    seen: Set<Seq<char>>,
    by: Recorder,
    items: Seq<JsonView>,
    session_id: Seq<char>,
    timestamp: Seq<char>,
)
    requires
        views(events) == entry_events(entry, seen, by),
        entry.text_at("type"@) == Some("assistant"@),
        entry.text_at("sessionId"@) == Some(session_id),
        entry.text_at("timestamp"@) == Some(timestamp),
        message_content(entry) == Some(JsonView::Array(items)),
    ensures
        events.len() == tool_count(items) + (if seen.contains(session_id) {
            0int
        } else {
            1
        }),
        forall|i: int|
            0 <= i < items.len() && is_item(#[trigger] items[i], "tool_use"@) ==> ({
                let k = events.len() - tool_count(items) + tool_count(items.take(i));
                &&& 0 <= k < events.len()
                &&& tells_of_tool(events[k], items[i], session_id, timestamp, by)
            }),
{
    reveal_strlit("assistant");
    reveal_strlit("user");
    reveal_strlit("progress");
    reveal_strlit("file-history-snapshot");
    reveal_strlit("summary");
    reveal_strlit("system");
    assert("assistant"@.len() == 9 && "user"@.len() == 4 && "progress"@.len() == 8);
    assert("file-history-snapshot"@.len() == 21 && "summary"@.len() == 7 && "system"@.len() == 6);
    assert(type_of(entry) == "assistant"@);
    assert(!is_filtered(type_of(entry)));
    assert(told_of(entry) == Some((session_id, timestamp)));
    let told = tool_events(items, session_id, timestamp, by);
    assert(told_events(entry, session_id, timestamp, by) == told);
    tool_events_stand_in_order(items, session_id, timestamp, by);
    let start: int = events.len() - tool_count(items);
    assert(views(events).len() == events.len());
    assert forall|i: int| 0 <= i < items.len() && is_item(#[trigger] items[i], "tool_use"@) implies ({
        let k = events.len() - tool_count(items) + tool_count(items.take(i));
        &&& 0 <= k < events.len()
        &&& tells_of_tool(events[k], items[i], session_id, timestamp, by)
    }) by {
        let at = tool_count(items.take(i)) as int;
        let k = start + at;
        assert(entry_events(entry, seen, by)[k] == told[at]);
        assert(views(events)[k] == events[k]@);
        let made = tool_event(items[i], session_id, timestamp, by);
        assert(made == seq![told[at]]);
        assert(made[0] == told[at]);
        if let Some(id) = items[i].text_at("id"@) {
            let head = by.machine_id@ + ":remote.agent:"@ + "agent_tool_use"@ + ":"@ + timestamp;
            assert(events[k].id@ =~= head + (":"@ + id));
            assert(events[k].id@.skip(events[k].id@.len() - (":"@ + id).len()) =~= ":"@ + id);
        }
    }
}

/// Two uses of a tool in one message that give different ids give events with different
/// ids, so that neither is taken for the other.
pub proof fn tool_uses_have_ids_of_their_own(
    events: Seq<ExportEvent>,
    entry: JsonView,
    seen: Set<Seq<char>>,
    by: Recorder,
    items: Seq<JsonView>,
    i: int,
    j: int,
)
    requires
        views(events) == entry_events(entry, seen, by),
        entry.text_at("type"@) == Some("assistant"@),
        entry.text_at("sessionId"@) is Some,
        entry.text_at("timestamp"@) is Some,
        message_content(entry) == Some(JsonView::Array(items)),
        0 <= i < items.len(),
        0 <= j < items.len(),
        is_item(items[i], "tool_use"@),
        is_item(items[j], "tool_use"@),
        items[i].text_at("id"@) is Some,
        items[j].text_at("id"@) is Some,
        items[i].text_at("id"@) != items[j].text_at("id"@),
    ensures
        events[events.len() - tool_count(items) + tool_count(items.take(i))].id@
            != events[events.len() - tool_count(items) + tool_count(items.take(j))].id@,
{
    let session_id = entry.text_at("sessionId"@)->0;
    let timestamp = entry.text_at("timestamp"@)->0;
    tools_are_told_under_their_own_ids(events, entry, seen, by, items, session_id, timestamp);
    let first = items[i].text_at("id"@)->0;
    let second = items[j].text_at("id"@)->0;
    let head = by.machine_id@ + ":remote.agent:"@ + "agent_tool_use"@ + ":"@ + timestamp + ":"@;
    let start: int = events.len() - tool_count(items);
    assert(events[start + tool_count(items.take(i))].id@ == head + first);
    assert(events[start + tool_count(items.take(j))].id@ == head + second);
    assert((head + first).skip(head.len() as int) =~= first);
    assert((head + second).skip(head.len() as int) =~= second);
}

/// An entry of a session that was not met yet gives first the event that the session
/// has started: at the entry's time, of its session and in its directory, under an id
/// that ends with the session's and says so. Afterwards the session has been met, and
/// every other as before.
pub proof fn sessions_start_with_their_first_entry(
    events: Seq<ExportEvent>,
    entry: JsonView,
    seen: Set<Seq<char>>,
    by: Recorder,
    session_id: Seq<char>,
    timestamp: Seq<char>,
)
    requires
        views(events) == entry_events(entry, seen, by),
        entry.text_at("sessionId"@) == Some(session_id),
        entry.text_at("timestamp"@) == Some(timestamp),
        !is_filtered(type_of(entry)),
    ensures
        seen_after(entry, seen) == seen.insert(session_id),
        !seen.contains(session_id) ==> events.len() > 0 && ({
            let first = events[0];
            &&& first.timestamp@ == timestamp
            &&& first.source@ == "remote.agent"@
            &&& first.event_type@ == "agent_session"@
            &&& ends_with(first.id@, ":"@ + session_id + ":started"@)
            &&& match first.data {
                ExportData::AgentSession(d) => {
                    &&& d.action@ == "started"@
                    &&& d.agent@ == by.agent@
                    &&& d.session_id@ == session_id
                    &&& text::opt_text(d.cwd) == entry.text_at("cwd"@)
                },
                _ => false,
            }
        }),
        seen.contains(session_id) ==> (forall|k: int|
            0 <= k < events.len() ==> !((#[trigger] events[k]).data is AgentSession)),
{
    let all = entry_events(entry, seen, by);
    assert(views(events).len() == events.len());
    let told = told_events(entry, session_id, timestamp, by);
    if !seen.contains(session_id) {
        let start = start_event(session_id, timestamp, entry.text_at("cwd"@), by);
        assert(all[0] == start);
        assert(views(events)[0] == events[0]@);
        let head = by.machine_id@ + ":remote.agent:"@ + "agent_session"@ + ":"@ + timestamp;
        let tail = ":"@ + session_id + ":started"@;
        assert(events[0].id@ =~= head + tail);
        assert(events[0].id@.skip(events[0].id@.len() - tail.len()) =~= tail);
    } else {
        assert(all =~= told);
        assert forall|k: int| 0 <= k < events.len() implies !((#[trigger] events[k]).data
            is AgentSession) by {
            assert(views(events)[k] == events[k]@);
            if type_of(entry) == "assistant"@ && type_of(entry) != "user"@ {
                if let Some(JsonView::Array(items)) = message_content(entry) {
                    tool_events_are_of_tools(items, session_id, timestamp, by, k);
                }
            }
        }
    }
}

proof fn tool_events_are_of_tools(
    items: Seq<JsonView>,
    session_id: Seq<char>,
    timestamp: Seq<char>,
    by: Recorder,
    k: int,
)
    requires
        0 <= k < tool_events(items, session_id, timestamp, by).len(),
    ensures
        tool_events(items, session_id, timestamp, by)[k].data is AgentToolUse,
    decreases items.len(),
{
    if items.len() > 0 {
        let earlier = tool_events(items.drop_last(), session_id, timestamp, by);
        if k < earlier.len() {
            tool_events_are_of_tools(items.drop_last(), session_id, timestamp, by, k);
        }
    }
}

/// The entry of a person's message gives one event for it, the last one, unless it
/// carries the result of a tool. The event is at the entry's time and of its session, its
/// id ends with the entry's own where it has one, and it tells how much text there is and
/// whether an image is shown.
pub proof fn messages_are_told_under_their_own_ids(
    events: Seq<ExportEvent>,
    entry: JsonView,
    seen: Set<Seq<char>>,
    by: Recorder,
    session_id: Seq<char>,
    timestamp: Seq<char>,
)
    requires
        views(events) == entry_events(entry, seen, by),
        entry.text_at("type"@) == Some("user"@),
        entry.text_at("sessionId"@) == Some(session_id),
        entry.text_at("timestamp"@) == Some(timestamp),
    ensures
        events.len() == (if seen.contains(session_id) {
            0int
        } else {
            1
        }) + (if has_tool_result(entry) {
            0int
        } else {
            1
        }),
        !has_tool_result(entry) ==> ({
            let last = events[events.len() - 1];
            &&& last.timestamp@ == timestamp
            &&& last.source@ == "remote.agent"@
            &&& last.event_type@ == "user_message"@
            &&& entry.text_at("uuid"@) matches Some(uuid) ==> ends_with(last.id@, ":"@ + uuid)
            &&& entry.text_at("uuid"@) is None ==> ends_with(last.id@, ":"@ + session_id)
            &&& match last.data {
                ExportData::UserMessage(d) => {
                    &&& d.agent@ == by.agent@
                    &&& d.session_id@ == session_id
                    &&& message_length(message_content(entry)) <= usize::MAX ==> d.length
                        == message_length(message_content(entry))
                    &&& d.has_image == shows_image(message_content(entry))
                },
                _ => false,
            }
        }),
{
    reveal_strlit("user");
    reveal_strlit("progress");
    reveal_strlit("file-history-snapshot");
    reveal_strlit("summary");
    reveal_strlit("system");
    assert("user"@.len() == 4 && "progress"@.len() == 8);
    assert("file-history-snapshot"@.len() == 21 && "summary"@.len() == 7 && "system"@.len() == 6);
    assert(told_of(entry) == Some((session_id, timestamp)));
    assert(views(events).len() == events.len());
    if !has_tool_result(entry) {
        let last = events.len() - 1;
        assert(views(events)[last] == events[last]@);
        assert(entry_events(entry, seen, by)[last] == message_events(
            entry,
            session_id,
            timestamp,
            by,
        )[0]);
        let head = by.machine_id@ + ":remote.agent:"@ + "user_message"@ + ":"@ + timestamp;
        let what = match entry.text_at("uuid"@) {
            Some(uuid) => uuid,
            None => session_id,
        };
        assert(events[last].id@ =~= head + (":"@ + what));
        assert(events[last].id@.skip(events[last].id@.len() - (":"@ + what).len()) =~= ":"@ + what);
    }
}

/// The text in a message is that of its items together: each text counts with all its
/// bytes, whatever stands around it, and nothing else counts. An image among them shows.
pub proof fn messages_hold_the_text_of_their_items(a: Seq<JsonView>, b: Seq<JsonView>, item: JsonView)
    ensures
        items_length(a + b) == items_length(a) + items_length(b),
        items_length(seq![item]) == item_length(item),
        item.text_at("type"@) == Some("text"@) ==> (item.text_at("text"@) matches Some(said)
            ==> item_length(item) == vstd::utf8::encode_utf8(said).len()),
        item.text_at("type"@) != Some("text"@) ==> item_length(item) == 0,
        shows_image(Some(JsonView::Array(seq![item]))) <==> item.text_at("type"@) == Some("image"@),
        shows_image(Some(JsonView::Array(a + b))) <==> shows_image(Some(JsonView::Array(a)))
            || shows_image(Some(JsonView::Array(b))),
    decreases b.len(),
{
    assert(seq![item].drop_last() =~= Seq::empty());
    assert(items_length(Seq::<JsonView>::empty()) == 0);
    assert(seq![item].last() == item);
    assert(is_item(seq![item][0], "image"@) == is_item(item, "image"@));
    if is_item(item, "image"@) {
        assert(some_item(seq![item], "image"@));
    }
    if some_item(a, "image"@) {
        let i = choose|i: int| 0 <= i < a.len() && is_item(#[trigger] a[i], "image"@);
        assert((a + b)[i] == a[i]);
    }
    if some_item(b, "image"@) {
        let i = choose|i: int| 0 <= i < b.len() && is_item(#[trigger] b[i], "image"@);
        assert((a + b)[a.len() + i] == b[i]);
    }
    if some_item(a + b, "image"@) {
        let i = choose|i: int| 0 <= i < (a + b).len() && is_item(#[trigger] (a + b)[i], "image"@);
        if i < a.len() {
            assert(is_item(a[i], "image"@));
        } else {
            assert(is_item(b[i - a.len()], "image"@));
        }
    }
    if b.len() > 0 {
        assert((a + b).drop_last() =~= a + b.drop_last());
        messages_hold_the_text_of_their_items(a, b.drop_last(), item);
    } else {
        assert(a + b =~= a);
    }
}

/// The file of a tool's use is what its input gives for it: as `file_path` where the tool
/// reads or writes one file, as `path` where it searches, and none for any other tool.
pub proof fn tools_name_their_files(tool: Seq<char>, input: JsonView)
    ensures
        tool == "Edit"@ || tool == "Read"@ || tool == "Write"@ || tool == "NotebookEdit"@
            ==> tool_file(tool, input) == input.text_at("file_path"@),
        tool == "Glob"@ || tool == "Grep"@ ==> tool_file(tool, input) == input.text_at("path"@),
        tool_file(tool, input) is Some ==> tool == "Edit"@ || tool == "Read"@ || tool == "Write"@
            || tool == "NotebookEdit"@ || tool == "Glob"@ || tool == "Grep"@,
{
    reveal_strlit("Edit");
    reveal_strlit("Read");
    reveal_strlit("Write");
    reveal_strlit("NotebookEdit");
    reveal_strlit("Glob");
    reveal_strlit("Grep");
    assert("Glob"@[0] == 'G' && "Grep"@[0] == 'G');
    assert("Edit"@[0] == 'E' && "Read"@[0] == 'R' && "Write"@[0] == 'W' && "NotebookEdit"@[0]
        == 'N');
}

/// An entry without a session or a time gives nothing, and neither does one of a type
/// that tells of no work; they leave the sessions that were met as they are.
pub proof fn entries_about_nothing_give_nothing(entry: JsonView, seen: Set<Seq<char>>, by: Recorder)
    ensures
        entry.text_at("sessionId"@) is None || entry.text_at("timestamp"@) is None
            || entry.text_at("type"@) == Some("progress"@) || entry.text_at("type"@) == Some(
            "file-history-snapshot"@,
        ) || entry.text_at("type"@) == Some("summary"@) || entry.text_at("type"@) == Some(
            "system"@,
        ) ==> entry_events(entry, seen, by).len() == 0 && seen_after(entry, seen) == seen,
        entry.text_at("sessionId"@) is Some && entry.text_at("timestamp"@) is Some
            && !is_filtered(type_of(entry)) ==> told_of(entry) == Some(
            (entry.text_at("sessionId"@)->0, entry.text_at("timestamp"@)->0),
        ),
        entry.text_at("type"@) is None ==> !is_filtered(type_of(entry)),
{
    reveal_strlit("");
    reveal_strlit("progress");
    reveal_strlit("file-history-snapshot");
    reveal_strlit("summary");
    reveal_strlit("system");
    assert(""@.len() == 0 && "progress"@.len() == 8 && "file-history-snapshot"@.len() == 21);
    assert("summary"@.len() == 7 && "system"@.len() == 6);
}

/// A message carries the result of a tool exactly where some item of its list says so as
/// its type.
pub proof fn tool_results_say_so(entry: JsonView, message: JsonView, items: Seq<JsonView>)
    requires
        entry.member("message"@) == Some(message),
        message.member("content"@) == Some(JsonView::Array(items)),
    ensures
        message_content(entry) == Some(JsonView::Array(items)),
        has_tool_result(entry) <==> (exists|i: int|
            0 <= i < items.len() && (#[trigger] items[i]).text_at("type"@) == Some(
                "tool_result"@,
            )),
{
    if has_tool_result(entry) {
        let i = choose|i: int| 0 <= i < items.len() && is_item(#[trigger] items[i], "tool_result"@);
        assert(items[i].text_at("type"@) == Some("tool_result"@));
    }
    if exists|i: int|
        0 <= i < items.len() && (#[trigger] items[i]).text_at("type"@) == Some("tool_result"@) {
        let i = choose|i: int|
            0 <= i < items.len() && (#[trigger] items[i]).text_at("type"@) == Some("tool_result"@);
        assert(is_item(items[i], "tool_result"@));
    }
}

} // verus!
