//! What is recorded: events, agent sessions and streams, as plain values.
use vstd::prelude::*;
use vstd::string::*;

use crate::time::Timestamp;

verus! {

/// What kind of thing an event records.
#[derive(Clone, Debug)]
pub enum EventType {
    /// The user wrote to an agent.
    UserMessage,
    /// A tmux pane got the focus.
    TmuxPaneFocus,
    /// The user scrolled in a tmux pane.
    TmuxScroll,
    /// A window got the focus.
    WindowFocus,
    /// A browser tab got the focus.
    BrowserTab,
    /// An agent session started or ended.
    AgentSession,
    /// An agent used a tool.
    AgentToolUse,
    /// Any other kind, by its name.
    Other(String),
}

impl EventType {
    /// The name under which events of this kind are stored and shown.
    pub open spec fn name(self) -> Seq<char> {
        match self {
            EventType::UserMessage => "user_message"@,
            EventType::TmuxPaneFocus => "tmux_pane_focus"@,
            EventType::TmuxScroll => "tmux_scroll"@,
            EventType::WindowFocus => "window_focus"@,
            EventType::BrowserTab => "browser_tab"@,
            EventType::AgentSession => "agent_session"@,
            EventType::AgentToolUse => "agent_tool_use"@,
            EventType::Other(name) => name@,
        }
    }

    /// The name under which events of this kind are stored and shown.
    pub fn as_str(&self) -> (r: &str)
        ensures
            r@ == self.name(),
    {
        match self {
            EventType::UserMessage => "user_message",
            EventType::TmuxPaneFocus => "tmux_pane_focus",
            EventType::TmuxScroll => "tmux_scroll",
            EventType::WindowFocus => "window_focus",
            EventType::BrowserTab => "browser_tab",
            EventType::AgentSession => "agent_session",
            EventType::AgentToolUse => "agent_tool_use",
            EventType::Other(name) => name.as_str(),
        }
    }

    /// Whether this is the focus of a window.
    pub fn is_window_focus(&self) -> (r: bool)
        ensures
            r == (self is WindowFocus),
    {
        match self {
            EventType::WindowFocus => true,
            _ => false,
        }
    }

    /// Whether events of this kind are direct user activity.
    pub open spec fn is_user(self) -> bool {
        self is UserMessage || self is TmuxPaneFocus || self is TmuxScroll || self is WindowFocus
            || self is BrowserTab
    }
}

/// Who drives a session.
#[derive(Clone, Copy, Debug, PartialEq, Eq, Structural)]
pub enum SessionType {
    /// A person.
    User,
    /// A person who continues an earlier session.
    Continuation,
    /// Another program.
    Agent,
    /// Another session.
    Subagent,
}

impl SessionType {
    /// The name under which the type is stored and shown.
    pub open spec fn name(self) -> Seq<char> {
        match self {
            SessionType::User => "user"@,
            SessionType::Continuation => "continuation"@,
            SessionType::Agent => "agent"@,
            SessionType::Subagent => "subagent"@,
        }
    }

    /// The name under which the type is stored and shown.
    pub fn as_str(&self) -> (r: &'static str)
        ensures
            r@ == self.name(),
    {
        match self {
            SessionType::User => "user",
            SessionType::Continuation => "continuation",
            SessionType::Agent => "agent",
            SessionType::Subagent => "subagent",
        }
    }

    /// Whether a person drives such a session.
    pub open spec fn human_driven(self) -> bool {
        self == SessionType::User || self == SessionType::Continuation
    }

    /// Whether a person drives such a session.
    pub fn is_human_driven(&self) -> (r: bool)
        ensures
            r == self.human_driven(),
    {
        match self {
            SessionType::User => true,
            SessionType::Continuation => true,
            _ => false,
        }
    }
}

impl Default for SessionType {
    fn default() -> (r: Self)
        ensures
            r == SessionType::User,
    {
        SessionType::User
    }
}

/// An event as it is stored.
#[derive(Clone, Debug)]
pub struct StoredEvent {
    pub id: String,
    pub timestamp: Timestamp,
    pub event_type: EventType,
    pub source: String,
    pub machine_id: Option<String>,
    pub schema_version: i32,
    pub pane_id: Option<String>,
    pub tmux_session: Option<String>,
    pub window_index: Option<u32>,
    pub git_project: Option<String>,
    pub git_workspace: Option<String>,
    pub status: Option<String>,
    pub idle_duration_ms: Option<i64>,
    pub window_app_id: Option<String>,
    pub window_title: Option<String>,
    pub action: Option<String>,
    pub cwd: Option<String>,
    pub session_id: Option<String>,
    pub stream_id: Option<String>,
    pub assignment_source: Option<String>,
    /// The event's free data, a JSON text.
    pub data: String,
}

/// An agent session as it is stored.
#[derive(Clone, Debug)]
pub struct AgentSession {
    pub session_id: String,
    /// The name of the agent that recorded the session.
    pub source: String,
    pub parent_session_id: Option<String>,
    pub session_type: SessionType,
    pub project_path: String,
    pub project_name: String,
    pub start_time: Timestamp,
    pub end_time: Option<Timestamp>,
    pub message_count: i32,
    pub summary: Option<String>,
    pub user_prompts: Vec<String>,
    pub starting_prompt: Option<String>,
    pub assistant_message_count: i32,
    pub tool_call_count: i32,
    pub user_message_timestamps: Vec<Timestamp>,
    pub tool_call_timestamps: Vec<Timestamp>,
}

/// A stream of work that events are assigned to.
#[derive(Clone, Debug)]
pub struct Stream {
    pub id: String,
    pub name: Option<String>,
    pub slug: Option<String>,
    pub time_direct_ms: i64,
    pub time_delegated_ms: i64,
    pub first_event_at: Option<Timestamp>,
    pub last_event_at: Option<Timestamp>,
}

} // verus!
