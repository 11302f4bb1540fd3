//! Showing what there is to classify, and applying a classification.
use std::collections::HashMap;

use vstd::hash_map::StringHashMap;

use tt_cli::classify::apply::{
    plan_assignments, resolve_stream_id, ApplyStep, ApplyTally, ClassifyApplyInput,
    EventIdsAssignment, PatternAssignment, SessionAssignment, StreamDef, StreamRefs,
    TimeAssignment,
};
use tt_cli::classify::cluster_events;
use tt_cli::classify::render::{can_render, print_summary, print_table};
use tt_cli::classify::show::{
    build_output, can_show, streams_referenced_by_events, truncate, ClassifyOutput, ShowOptions,
};
use tt_cli::classify::todos::{
    backfill_todo_streams, build_session_todo_index, settle_link, LinkStep, TodoItem,
};
use tt_cli::classify_auto::window_runs::synthesize_window_runs;
use tt_cli::model::{AgentSession, EventType, SessionType, StoredEvent, Stream};
use tt_cli::time::Timestamp;

fn ts(minutes: i64) -> Timestamp {
    // 2025-01-15T09:00:00Z, and minutes after it.
    Timestamp::from_parts(1_736_931_600 + 60 * minutes, 0).unwrap()
}

fn make_event(
    id: &str,
    timestamp: Timestamp,
    event_type: EventType,
    session_id: Option<&str>,
    cwd: &str,
) -> StoredEvent {
    StoredEvent {
        id: id.to_string(),
        timestamp,
        event_type,
        source: "remote.agent".to_string(),
        machine_id: None,
        schema_version: 1,
        pane_id: None,
        tmux_session: None,
        window_index: None,
        git_project: None,
        git_workspace: None,
        status: None,
        idle_duration_ms: None,
        window_app_id: None,
        window_title: None,
        action: None,
        cwd: Some(cwd.to_string()),
        session_id: session_id.map(String::from),
        stream_id: None,
        assignment_source: None,
        data: "{}".to_string(),
    }
}

fn make_window_event(
    id: &str,
    timestamp: Timestamp,
    app_id: &str,
    title: &str,
    machine_id: &str,
) -> StoredEvent {
    let mut event = make_event(id, timestamp, EventType::WindowFocus, None, "");
    event.source = "local.cosmic".to_string();
    event.cwd = None;
    event.machine_id = Some(machine_id.to_string());
    event.window_app_id = Some(app_id.to_string());
    event.window_title = Some(title.to_string());
    event
}

fn stream(id: &str, name: Option<&str>, slug: Option<&str>) -> Stream {
    Stream {
        id: id.to_string(),
        name: name.map(String::from),
        slug: slug.map(String::from),
        time_direct_ms: 0,
        time_delegated_ms: 0,
        first_event_at: None,
        last_event_at: None,
    }
}

fn todo(id: &str, text: &str, stream: Option<&str>, sessions: &[&str]) -> TodoItem {
    TodoItem {
        id: id.to_string(),
        text: text.to_string(),
        stream: stream.map(String::from),
        done: false,
        sessions: sessions.iter().map(ToString::to_string).collect(),
    }
}

#[test]
fn auto_assign_matches_existing_slug_only() {
    let todos = vec![
        todo("td_1", "do the thing", Some("proj-x"), &["sess-1"]),
        todo("td_2", "other", Some("no-such-stream"), &["sess-2"]),
        todo("td_3", "no stream", None, &["sess-3"]),
    ];
    let (index, duplicates) = build_session_todo_index(&todos);
    assert!(duplicates.is_empty());
    let mut assigned = Vec::new();
    let mut notes = Vec::new();
    for candidate in index.candidates() {
        let found = if candidate.slug == "proj-x" { Some("proj-x") } else { None };
        match settle_link(&candidate, found) {
            LinkStep::Assign { session_id, stream_id } => assigned.push((session_id, stream_id)),
            LinkStep::Note(note) => notes.push(note),
        }
    }
    assert_eq!(assigned, [("sess-1".to_string(), "proj-x".to_string())]);
    assert_eq!(notes.len(), 1);
    assert!(notes[0].contains("no-such-stream"));
}

#[test]
fn session_todo_index_reads_sessions_from_store() {
    let todos = vec![todo("td_1", "Fix it", Some("proj-x"), &["ses_abc"])];
    let (index, _) = build_session_todo_index(&todos);
    assert_eq!(index.get("ses_abc").unwrap().stream_slug.as_deref(), Some("proj-x"));
    assert_eq!(index.get("ses_abc").unwrap().text, "Fix it");
    assert!(index.get("ses_other").is_none());
}

#[test]
fn the_first_open_todo_keeps_a_session_and_later_ones_are_noted() {
    let mut done = todo("td_0", "done", Some("s0"), &["sess-1"]);
    done.done = true;
    let todos = vec![
        done,
        todo("td_1", "first", Some("s1"), &["sess-1"]),
        todo("td_2", "second", Some("s2"), &["sess-1", "sess-2"]),
    ];
    let (index, duplicates) = build_session_todo_index(&todos);
    assert_eq!(index.get("sess-1").unwrap().id, "td_1");
    assert_eq!(index.get("sess-2").unwrap().id, "td_2");
    assert_eq!(
        duplicates,
        ["todo td_2 duplicates session sess-1 linked by todo td_1; keeping first link"]
    );
    let order: Vec<String> = index.candidates().into_iter().map(|c| c.session_id).collect();
    assert_eq!(order, ["sess-1", "sess-2"]);
}

fn slugs(pairs: &[(&str, &str)]) -> StringHashMap<String> {
    let mut map = StringHashMap::new();
    for (session, slug) in pairs {
        map.insert(session.to_string(), slug.to_string());
    }
    map
}

#[test]
fn backfill_sets_stream_on_streamless_linked_todos_only() {
    let mut done = todo("td_4", "Done already", None, &["sess-1"]);
    done.done = true;
    let todos = vec![
        todo("td_1", "Backfill me", None, &["sess-1"]),
        todo("td_2", "Already assigned", Some("existing"), &["sess-1"]),
        todo("td_3", "Different session", None, &["sess-9"]),
        done,
    ];

    let (todos, lines) = backfill_todo_streams(todos, &slugs(&[("sess-1", "proj-x")]));

    assert_eq!(lines, ["Backfilled stream 'proj-x' → td_1"]);
    assert_eq!(todos[0].stream.as_deref(), Some("proj-x"));
    assert_eq!(todos[1].stream.as_deref(), Some("existing"));
    assert_eq!(todos[2].stream.as_deref(), None);
    assert_eq!(todos[3].stream.as_deref(), None);
}

#[test]
fn backfill_skips_todo_store_when_no_sessions_were_assigned() {
    let todos = vec![todo("td_1", "Backfill me", None, &["sess-1"])];
    let (todos, lines) = backfill_todo_streams(todos, &slugs(&[]));
    assert!(lines.is_empty());
    assert_eq!(todos[0].stream, None);
}

#[test]
fn stream_refs_include_only_streams_referenced_by_period_events() {
    let mut event = make_event("e1", ts(0), EventType::AgentToolUse, Some("sess-1"), "/project");
    event.stream_id = Some("referenced".to_string());
    let streams = vec![
        stream("referenced", Some("Referenced stream"), Some("referenced-stream")),
        stream("other", Some("Other stream"), Some("other-stream")),
    ];

    let refs = streams_referenced_by_events(&vec![event], &streams);

    assert_eq!(refs.len(), 1);
    assert_eq!(refs[0].id, "referenced");
    assert_eq!(refs[0].slug.as_deref(), Some("referenced-stream"));
    assert_eq!(refs[0].name.as_deref(), Some("Referenced stream"));
}

#[test]
fn test_synthesize_window_runs_groups_by_app_gap_and_machine() {
    let events = [
        make_window_event("w1", ts(0), "firefox", "Docs", "local"),
        make_window_event("w2", ts(5), "firefox", "Docs", "local"),
        make_window_event("w3", ts(10), "firefox", "Issue", "local"),
        make_window_event("w4", ts(45), "firefox", "Issue", "local"),
        make_window_event("w5", ts(46), "slack", "Team", "local"),
        make_window_event("w6", ts(47), "firefox", "Remote", "remote"),
    ];
    let refs: Vec<_> = events.iter().collect();

    let runs = synthesize_window_runs(&refs);

    assert_eq!(runs.len(), 4);
    assert_eq!(runs[0].app_id, "firefox");
    assert_eq!(runs[0].event_ids, vec!["w1", "w2", "w3"]);
    assert_eq!(runs[0].titles, vec!["Docs", "Issue"]);
    assert_eq!(runs[0].duration_minutes, 10);
    assert_eq!(runs[0].machine_id.as_deref(), Some("local"));
    assert_eq!(runs[1].event_ids, vec!["w4"]);
    assert_eq!(runs[2].app_id, "slack");
    assert_eq!(runs[2].event_ids, vec!["w5"]);
    assert_eq!(runs[3].machine_id.as_deref(), Some("remote"));
    assert_eq!(runs[3].event_ids, vec!["w6"]);
}

#[test]
fn test_cluster_events_excludes_window_focus_empty_cwd_cluster() {
    let window = make_window_event("w1", ts(0), "firefox", "Docs", "local");
    let tmux = make_event("t1", ts(1), EventType::TmuxPaneFocus, None, "/project-x");
    let events = [window, tmux];
    let refs: Vec<_> = events.iter().collect();

    let clusters = cluster_events(&refs);

    assert_eq!(clusters.len(), 1);
    assert_eq!(clusters[0].cwd, "/project-x");
}

#[test]
fn clusters_end_where_the_directory_changes_or_half_an_hour_passes() {
    let mut second = make_event("b", ts(29), EventType::TmuxScroll, None, "/x");
    second.stream_id = Some("s".to_string());
    let events = [
        make_event("d", ts(59), EventType::TmuxPaneFocus, None, "/x"),
        make_event("c", ts(3), EventType::TmuxPaneFocus, None, "/y"),
        second,
        make_event("a", ts(0), EventType::TmuxPaneFocus, None, "/x"),
    ];
    let refs: Vec<_> = events.iter().collect();
    let clusters = cluster_events(&refs);
    let shown: Vec<_> = clusters
        .iter()
        .map(|c| (c.cwd.as_str(), c.event_count, c.duration_minutes, c.stream_id.as_deref()))
        .collect();
    assert_eq!(
        shown,
        [("/x", 2, 29, Some("s")), ("/x", 1, 0, None), ("/y", 1, 0, None)]
    );
    assert_eq!(clusters[0].event_types, ["tmux_pane_focus", "tmux_scroll"]);
    assert_eq!(clusters[0].start_time, "2025-01-15T09:00:00+00:00");
    assert_eq!(clusters[0].end_time, "2025-01-15T09:29:00+00:00");
}

/// A store that assignments are applied to.
#[derive(Default)]
struct Store {
    streams: Vec<Stream>,
    events: Vec<StoredEvent>,
    tags: Vec<(String, String)>,
}

impl Store {
    fn assign(&mut self, stream_id: &str, picked: impl Fn(&StoredEvent) -> bool) -> u64 {
        let mut count = 0;
        for event in &mut self.events {
            if picked(event) && event.assignment_source.as_deref() != Some("user") {
                event.stream_id = Some(stream_id.to_string());
                event.assignment_source = Some("inferred".to_string());
                count += 1;
            }
        }
        count
    }

    fn run(&mut self, step: &ApplyStep) -> u64 {
        match step {
            ApplyStep::AddTag { stream_id, tag, .. } => {
                self.tags.push((stream_id.clone(), tag.clone()));
                0
            }
            ApplyStep::AssignSession { session_id, stream_id, .. } => {
                self.assign(stream_id, |e| e.session_id.as_ref() == Some(session_id))
            }
            ApplyStep::AssignPattern { cwd_like, stream_id, .. } => {
                let part = cwd_like.trim_matches('%');
                self.assign(stream_id, |e| {
                    e.stream_id.is_none() && e.cwd.as_deref().unwrap_or("").contains(part)
                })
            }
            ApplyStep::AssignEventIds { event_ids, stream_id, .. } => {
                self.assign(stream_id, |e| event_ids.contains(&e.id))
            }
            ApplyStep::AssignTime { start, end, stream_id, .. } => {
                self.assign(stream_id, |e| {
                    e.stream_id.is_none()
                        && start.at_most(&e.timestamp)
                        && e.timestamp.at_most(end)
                })
            }
        }
    }

    fn apply(
        &mut self,
        input: &ClassifyApplyInput,
    ) -> Result<(HashMap<String, String>, String), String> {
        let mut refs = StreamRefs::of(&self.streams);
        for def in &input.streams {
            let fault = if def.slug.contains(' ') { Some("invalid slug") } else { None };
            let found = self.streams.iter().find(|s| s.slug.as_ref() == Some(&def.slug));
            if let Some(new) = refs.settle(def, fault, found)? {
                assert_eq!(
                    new.line,
                    format!("Created stream: {} [{}] ({})", new.name, new.slug, &new.id[..8])
                );
                self.streams.push(stream(&new.id, Some(&new.name), Some(&new.slug)));
            }
        }
        let plan = plan_assignments(input, &refs, &ts(0));
        let mut tally = ApplyTally::new();
        for step in &plan.steps {
            let count = self.run(step);
            tally.record(step, count, &refs);
        }
        if let Some(error) = plan.error {
            return Err(error);
        }
        let (outcome, line, _) = tally.finish();
        let mut slugs = HashMap::new();
        for event in &self.events {
            if let Some(session) = &event.session_id {
                if let Some(slug) = outcome.session_stream_slugs.get(session) {
                    slugs.insert(session.clone(), slug.clone());
                }
            }
        }
        Ok((slugs, line))
    }

    fn stream_id(&self, slug: &str) -> String {
        self.streams.iter().find(|s| s.slug.as_deref() == Some(slug)).unwrap().id.clone()
    }

    fn events_of(&self, stream_id: &str) -> Vec<&str> {
        self.events
            .iter()
            .filter(|e| e.stream_id.as_deref() == Some(stream_id))
            .map(|e| e.id.as_str())
            .collect()
    }
}

fn empty_apply_input() -> ClassifyApplyInput {
    ClassifyApplyInput {
        streams: vec![],
        assign_by_session: vec![],
        assign_by_pattern: vec![],
        assign_by_event_ids: vec![],
        assign_by_time: vec![],
    }
}

fn def(name: &str, slug: &str, tags: &[&str]) -> StreamDef {
    StreamDef {
        name: name.to_string(),
        slug: slug.to_string(),
        tags: tags.iter().map(ToString::to_string).collect(),
    }
}

fn by_session(session_id: &str, stream: &str) -> SessionAssignment {
    SessionAssignment { session_id: session_id.to_string(), stream: stream.to_string() }
}

fn store_with_session(session_id: &str) -> Store {
    Store {
        events: vec![make_event(
            "session-event",
            ts(0),
            EventType::AgentToolUse,
            Some(session_id),
            "/project",
        )],
        ..Store::default()
    }
}

#[test]
fn test_classify_apply_assigns_window_events_by_event_ids() {
    let mut store = Store {
        events: vec![
            make_window_event("w1", ts(0), "firefox", "Docs", "local"),
            make_window_event("w2", ts(1), "firefox", "Docs", "local"),
            make_window_event("w3", ts(2), "slack", "Team", "local"),
        ],
        ..Store::default()
    };
    let input = ClassifyApplyInput {
        streams: vec![def("proposal", "proposal", &[])],
        assign_by_event_ids: vec![EventIdsAssignment {
            event_ids: vec!["w1".to_string(), "w2".to_string()],
            stream: "proposal".to_string(),
        }],
        ..empty_apply_input()
    };
    let (_, line) = store.apply(&input).unwrap();
    assert_eq!(line, "Assigned 2 events. Recomputing...");
    assert_eq!(store.events_of(&store.stream_id("proposal")), vec!["w1", "w2"]);
    assert_eq!(store.events[2].stream_id, None);
}

#[test]
fn test_classify_apply_session_assignment() {
    let mut store = Store {
        events: vec![
            make_event("e1", ts(0), EventType::AgentSession, Some("sess-a"), "/project-x"),
            make_event("e2", ts(5), EventType::AgentToolUse, Some("sess-a"), "/project-x"),
            make_event("e3", ts(10), EventType::AgentToolUse, Some("sess-b"), "/project-y"),
            make_event("e4", ts(2), EventType::TmuxPaneFocus, None, "/project-x"),
        ],
        ..Store::default()
    };
    let input = ClassifyApplyInput {
        streams: vec![def("stream-x", "stream-x", &["project:x"]), def("stream-y", "stream-y", &[])],
        assign_by_session: vec![by_session("sess-a", "stream-x"), by_session("sess-b", "stream-y")],
        assign_by_pattern: vec![PatternAssignment {
            cwd_like: "%/project-x%".to_string(),
            start: None,
            end: None,
            stream: "stream-x".to_string(),
        }],
        ..empty_apply_input()
    };
    let (slugs, _) = store.apply(&input).unwrap();

    let x = store.stream_id("stream-x");
    assert_eq!(
        store.events_of(&x).len(),
        3,
        "stream-x should have 3 events (2 from sess-a + 1 tmux pattern match)"
    );
    assert_eq!(
        store.events_of(&store.stream_id("stream-y")).len(),
        1,
        "stream-y should have 1 event from sess-b"
    );
    assert!(store.events.iter().all(|e| e.stream_id.is_some()), "all events should be assigned");
    assert_eq!(store.tags, vec![(x, "project:x".to_string())]);
    assert_eq!(slugs["sess-a"], "stream-x");
    assert_eq!(slugs["sess-b"], "stream-y");
}

#[test]
fn apply_rejects_unknown_assignment_stream() {
    let mut store = store_with_session("sess-1");
    let input = ClassifyApplyInput {
        assign_by_session: vec![by_session("sess-1", "never-defined")],
        ..empty_apply_input()
    };
    let err = store.apply(&input).unwrap_err();
    assert!(err.contains("unknown stream"));
    assert_eq!(
        err,
        "unknown stream: 'never-defined' — define it in \"streams\" or use an existing slug"
    );
}

#[test]
fn apply_creates_stream_with_slug_and_resolves_assignment_by_slug() {
    let mut store = store_with_session("sess-1");
    let input = ClassifyApplyInput {
        streams: vec![def("agent-c: eval-3 moto", "eval3-moto", &[])],
        assign_by_session: vec![by_session("sess-1", "eval3-moto")],
        ..empty_apply_input()
    };
    let (slugs, _) = store.apply(&input).unwrap();
    assert_eq!(store.streams[0].slug.as_deref(), Some("eval3-moto"));
    assert_eq!(store.streams[0].name.as_deref(), Some("agent-c: eval-3 moto"));
    assert_eq!(slugs.get("sess-1"), Some(&"eval3-moto".to_string()));
}

#[test]
fn apply_rejects_invalid_slug() {
    let mut store = Store::default();
    let input = ClassifyApplyInput {
        streams: vec![def("x", "Not A Slug", &[])],
        ..empty_apply_input()
    };
    assert!(store.apply(&input).is_err());
    assert!(store.streams.is_empty());
}

#[test]
fn apply_reapply_same_slug_and_name_is_idempotent() {
    let mut store = Store::default();
    let input =
        ClassifyApplyInput { streams: vec![def("x", "x-slug", &[])], ..empty_apply_input() };
    let (_, line) = store.apply(&input).unwrap();
    assert_eq!(line, "No events to assign.");
    store.apply(&input).unwrap();
    assert_eq!(store.streams.len(), 1);
}

#[test]
fn applying_a_list_of_definitions_again_creates_nothing() {
    let mut store = Store::default();
    let streams =
        vec![def("x", "x-slug", &[]), def("y", "y-slug", &[]), def("x", "x-slug", &[])];
    let input = ClassifyApplyInput { streams, ..empty_apply_input() };
    store.apply(&input).unwrap();
    let ids: Vec<String> = store.streams.iter().map(|s| s.id.clone()).collect();
    assert_eq!(ids.len(), 2);
    let (slugs, line) = store.apply(&input).unwrap();
    assert!(slugs.is_empty());
    assert_eq!(line, "No events to assign.");
    assert_eq!(store.streams.iter().map(|s| s.id.clone()).collect::<Vec<_>>(), ids);
}

#[test]
fn apply_rejects_slug_collision_with_different_name() {
    let mut store = Store::default();
    let first =
        ClassifyApplyInput { streams: vec![def("x", "shared", &[])], ..empty_apply_input() };
    store.apply(&first).unwrap();
    let second = ClassifyApplyInput {
        streams: vec![def("different", "shared", &[])],
        ..empty_apply_input()
    };
    let err = store.apply(&second).unwrap_err();
    assert!(err.contains("shared"));
    assert_eq!(
        err,
        "slug 'shared' already belongs to stream 'x'; refusing to reuse it for 'different'"
    );
}

#[test]
fn test_classify_apply_preserves_user_assignments() {
    let mut store = store_with_session("sess-a");
    store.streams.push(stream("user-stream", Some("user-assigned"), None));
    store.streams.push(stream("new-stream", Some("new-stream"), None));
    store.events[0].stream_id = Some("user-stream".to_string());
    store.events[0].assignment_source = Some("user".to_string());
    let input = ClassifyApplyInput {
        assign_by_session: vec![by_session("sess-a", "new-stream")],
        ..empty_apply_input()
    };
    let (slugs, line) = store.apply(&input).unwrap();
    assert_eq!(line, "No events to assign.");
    assert!(slugs.is_empty());
    assert_eq!(store.events_of("user-stream").len(), 1);
}

#[test]
fn a_slug_names_a_stream_before_a_name_does() {
    let refs = StreamRefs::of(&vec![
        stream("a", Some("shared"), None),
        stream("b", Some("other"), Some("shared")),
    ]);
    let id = |stream_ref: &str| {
        resolve_stream_id(&refs, stream_ref).map(String::clone)
    };
    assert_eq!(id("shared"), Ok("b".to_string()));
    assert_eq!(id("other"), Ok("b".to_string()));
    assert_eq!(refs.slug_of("b").map(String::as_str), Some("shared"));
    assert_eq!(refs.slug_of("a"), None);
}

#[test]
fn assignments_before_a_fault_are_planned_and_later_ones_are_not() {
    let refs = StreamRefs::of(&vec![stream("a", Some("A"), Some("a"))]);
    let input = ClassifyApplyInput {
        assign_by_session: vec![by_session("s", "a")],
        assign_by_pattern: vec![PatternAssignment {
            cwd_like: "%".to_string(),
            start: Some("2025-01-15T09:00:00Z".to_string()),
            end: Some("whenever".to_string()),
            stream: "a".to_string(),
        }],
        assign_by_time: vec![TimeAssignment {
            start: "2025-01-15T09:00:00Z".to_string(),
            end: "2025-01-15T10:00:00Z".to_string(),
            stream: "a".to_string(),
        }],
        ..empty_apply_input()
    };
    let plan = plan_assignments(&input, &refs, &ts(0));
    assert_eq!(plan.steps.len(), 1);
    assert_eq!(plan.steps[0].failure(), "failed to assign session s to stream a");
    assert!(plan.error.unwrap().starts_with("invalid end time in pattern assignment"));

    let timed = ClassifyApplyInput {
        assign_by_pattern: vec![],
        assign_by_session: vec![],
        ..input
    };
    let plan = plan_assignments(&timed, &refs, &ts(0));
    assert_eq!(plan.error, None);
    match &plan.steps[0] {
        ApplyStep::AssignTime { start, end, stream_id, .. } => {
            assert_eq!((*start, *end, stream_id.as_str()), (ts(0), ts(60), "a"));
        }
        other => panic!("{other:?}"),
    }
}

fn agent_session(id: &str, session_type: SessionType, path: &str) -> AgentSession {
    AgentSession {
        session_id: id.to_string(),
        source: "opencode".to_string(),
        parent_session_id: None,
        session_type,
        project_path: path.to_string(),
        project_name: "project".to_string(),
        start_time: ts(0),
        end_time: None,
        message_count: 1,
        summary: None,
        user_prompts: vec!["one".to_string(), "two".to_string()],
        starting_prompt: None,
        assistant_message_count: 0,
        tool_call_count: 7,
        user_message_timestamps: Vec::new(),
        tool_call_timestamps: Vec::new(),
    }
}

fn shown(unclassified: bool) -> ClassifyOutput {
    let mut placed = make_event("e1", ts(0), EventType::AgentToolUse, Some("s1"), "/work/x");
    placed.stream_id = Some("st".to_string());
    let events = vec![
        placed,
        make_event("e2", ts(1), EventType::TmuxPaneFocus, None, "/home/me/work/y"),
        make_window_event("e3", ts(40), "firefox", "Docs", "local"),
    ];
    let sessions = vec![
        AgentSession {
            end_time: Some(ts(95)),
            summary: Some("Wrote the parser".to_string()),
            starting_prompt: Some("unused".to_string()),
            ..agent_session("s1", SessionType::User, "/work/x")
        },
        AgentSession {
            starting_prompt: Some("x".repeat(201)),
            ..agent_session("session-with-a-very-long-identifier", SessionType::Agent, "/work/z")
        },
        agent_session("sub", SessionType::Subagent, "/work/x"),
    ];
    let (index, _) =
        build_session_todo_index(&vec![todo("td_1", "parse", Some("st"), &["s1"])]);
    let options =
        ShowOptions { start: ts(0), end: ts(120), unclassified, gap_threshold: Some(30) };
    assert!(can_show(&sessions));
    build_output(
        &sessions,
        &events,
        &vec![stream("st", Some("Parser"), Some("st"))],
        &index,
        &options,
    )
}

#[test]
fn what_there_is_to_classify_is_put_together() {
    let output = shown(false);
    assert_eq!(output.time_range.start, "2025-01-15T09:00:00+00:00");
    assert_eq!(output.time_range.end, "2025-01-15T11:00:00+00:00");
    assert_eq!(output.streams.len(), 1);
    assert_eq!(output.sessions.len(), 2);
    let first = &output.sessions[0];
    assert_eq!(first.duration_minutes, Some(95));
    assert_eq!(first.stream_id.as_deref(), Some("st"));
    assert_eq!(first.proposed_stream.as_deref(), Some("Parser"));
    assert_eq!(first.starting_prompt, None);
    assert_eq!(first.user_prompt_count, 2);
    assert_eq!(first.linked_todo.as_ref().unwrap().id, "td_1");
    let second = &output.sessions[1];
    assert_eq!(second.starting_prompt, Some("x".repeat(197) + "..."));
    assert_eq!(second.stream_id, None);
    assert_eq!(output.event_clusters.len(), 1);
    assert_eq!(output.window_runs.len(), 1);
    let gaps = output.gaps.as_ref().unwrap();
    assert_eq!(gaps.len(), 1);
    assert_eq!(gaps[0].duration_minutes, 39);
    assert_eq!(output.stats.total_sessions, 2);
    assert_eq!(output.stats.unclassified_sessions, 1);
    assert_eq!(output.stats.total_event_clusters, 1);
    assert_eq!(output.stats.unclassified_event_clusters, 1);
}

#[test]
fn only_what_has_no_stream_is_shown_on_request() {
    let output = shown(true);
    assert_eq!(output.sessions.len(), 1);
    assert!(output.sessions.iter().all(|s| s.stream_id.is_none()));
    assert_eq!(output.stats.total_sessions, 1);
    assert_eq!(output.stats.unclassified_sessions, 1);
}

#[test]
fn a_summary_and_a_table_are_written() {
    let output = shown(false);
    assert!(can_render(&output));
    let rule = "─".repeat(100);
    let summary = format!(
        "CLASSIFY: 2 sessions, 1 event clusters (1 unclassified sessions, 1 unclassified clusters)

SESSIONS
{rule}
  ✓ {:<25} {:>5}m {:>4} tools  Wrote the parser
  ? {:<25} {:>5}m {:>4} tools  {}...

EVENT CLUSTERS
{rule}
  ? {:<30} {:>5}m {:>4} events  tmux_pane_focus

WINDOW RUNS
{rule}
  ? {:<30} {:>5}m {:>4} events  Docs
",
        "s1",
        95,
        7,
        "session-with-a-very-long-",
        0,
        7,
        "x".repeat(57),
        "work/y",
        0,
        1,
        "firefox",
        0,
        1,
    );
    assert_eq!(print_summary(&output), summary);
    let details = format!(
        "
DETAILS
{rule}

  Session: s1
    Source:  opencode (user)
    Path:    /work/x
    Time:    2025-01-15T09:00:00+00:00 → 2025-01-15T10:35:00+00:00
    Duration: 95m
    Tools:   7 calls, 2 user prompts
    Summary: Wrote the parser
    Proposed: Parser

  Session: session-with-a-very-long-identifier
    Source:  opencode (agent)
    Path:    /work/z
    Time:    2025-01-15T09:00:00+00:00 → running
    Tools:   7 calls, 2 user prompts
    Prompt:  {}...
",
        "x".repeat(197)
    );
    assert_eq!(print_table(&output), summary + &details);
}

#[test]
fn long_texts_are_cut_by_bytes() {
    assert_eq!(truncate("short", 5), "short");
    assert_eq!(truncate("shorter", 5), "sh...");
    assert_eq!(truncate("ab", 1), "...");
    let wide = AgentSession {
        starting_prompt: Some("é".repeat(150)),
        ..agent_session("s", SessionType::User, "/x")
    };
    // The cut would fall into the middle of a character.
    assert!(!can_show(&vec![wide]));
}

#[test]
fn defining_a_stream_again_changes_nothing() {
    let stream_def = def("Billing", "billing", &[]);
    let mut refs = StreamRefs::of(&vec![stream("other", Some("Other"), Some("other"))]);
    for _ in 0..2 {
        refs.define(&stream_def, "new-id");
        assert_eq!(resolve_stream_id(&refs, "billing").map(String::as_str), Ok("new-id"));
        assert_eq!(resolve_stream_id(&refs, "Billing").map(String::as_str), Ok("new-id"));
        assert_eq!(resolve_stream_id(&refs, "other").map(String::as_str), Ok("other"));
        assert_eq!(refs.slug_of("new-id").map(String::as_str), Some("billing"));
    }
}
