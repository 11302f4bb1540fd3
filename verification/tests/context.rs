//! Export of a period: times, events, sessions, streams and gaps.
use tt_cli::context::{
    build_context, can_export_compact, export_agents, export_events, export_streams, find_gaps,
    is_user_event, resolve_period, ContextRequest, PeriodRefused, TimeRange,
};
use tt_cli::events::parse_timestamp;
use tt_cli::model::{AgentSession, EventType, SessionType, StoredEvent, Stream};
use tt_cli::time::Timestamp;
use tt_cli::util::{can_resolve, parse_datetime, parse_datetime_at, resolve_time_range, PeriodError};

fn at(text: &str) -> Timestamp {
    Timestamp::parse(text).unwrap()
}

fn make_test_event(id: &str, timestamp: Timestamp, event_type: EventType, source: &str) -> StoredEvent {
    StoredEvent {
        id: id.to_string(),
        timestamp,
        event_type,
        source: source.to_string(),
        machine_id: None,
        schema_version: 1,
        pane_id: None,
        tmux_session: None,
        window_index: None,
        git_project: None,
        git_workspace: None,
        status: None,
        idle_duration_ms: None,
        window_app_id: None,
        window_title: None,
        action: None,
        cwd: None,
        session_id: None,
        stream_id: None,
        assignment_source: None,
        data: "{}".to_string(),
    }
}

fn make_session(id: &str, session_type: SessionType, source: &str) -> AgentSession {
    AgentSession {
        session_id: id.to_string(),
        source: source.to_string(),
        parent_session_id: None,
        session_type,
        project_path: "/home/user/project".to_string(),
        project_name: "project".to_string(),
        start_time: at("2026-01-15T10:00:00Z"),
        end_time: None,
        message_count: 1,
        summary: None,
        user_prompts: vec![],
        starting_prompt: None,
        assistant_message_count: 0,
        tool_call_count: 0,
        user_message_timestamps: Vec::new(),
        tool_call_timestamps: Vec::new(),
    }
}

fn range() -> TimeRange {
    TimeRange { start: at("2026-01-15T10:00:00Z"), end: at("2026-01-15T12:00:00Z") }
}

fn request() -> ContextRequest {
    ContextRequest {
        events: None,
        agents: None,
        streams: None,
        gaps: None,
        unclassified: false,
        summary: false,
    }
}

#[test]
fn test_context_output_serializes_without_optional_fields() {
    let output = build_context(range(), request());
    assert!(output.events.is_none());
    assert!(output.agents.is_none());
    assert!(output.streams.is_none());
    assert!(output.gaps.is_none());
    assert_eq!(output.time_range.start, at("2026-01-15T10:00:00Z"));
}

#[test]
fn test_context_output_serializes_with_events() {
    let event = make_test_event(
        "event-1",
        at("2026-01-15T11:00:00Z"),
        EventType::TmuxPaneFocus,
        "remote.tmux",
    );
    let output =
        build_context(range(), ContextRequest { events: Some(vec![event]), ..request() });
    let events = output.events.unwrap();
    assert_eq!(events[0].id, "event-1");
    assert_eq!(events[0].event_type, "tmux_pane_focus");
}

/// The export of an empty store: of the events, and of everything else.
fn run_empty(events: bool, rest: bool) -> tt_cli::context::ContextOutput {
    let range = resolve_period(None, None, &at("2026-02-01T00:00:00Z")).unwrap();
    let request = ContextRequest {
        events: if events { Some(Vec::new()) } else { None },
        agents: if rest { Some(Vec::new()) } else { None },
        streams: if rest { Some(Vec::new()) } else { None },
        gaps: if rest { Some((Vec::new(), 5)) } else { None },
        unclassified: false,
        summary: false,
    };
    build_context(range, request)
}

#[test]
fn test_run_outputs_json() {
    let output = run_empty(false, false);
    assert_eq!(output.time_range.start, at("2026-01-31T00:00:00Z"));
    assert_eq!(output.time_range.end, at("2026-02-01T00:00:00Z"));
    assert!(output.events.is_none() && output.agents.is_none());
    assert!(output.streams.is_none() && output.gaps.is_none());
}

#[test]
fn test_run_with_events_flag() {
    let output = run_empty(true, false);
    assert_eq!(output.events.map(|events| events.len()), Some(0));
    assert!(output.agents.is_none() && output.streams.is_none() && output.gaps.is_none());
}

#[test]
fn test_run_with_all_flags() {
    let output = run_empty(true, true);
    assert_eq!(output.events.map(|events| events.len()), Some(0));
    assert_eq!(output.agents.map(|agents| agents.len()), Some(0));
    assert_eq!(output.streams.map(|streams| streams.len()), Some(0));
    assert_eq!(output.gaps.map(|gaps| gaps.len()), Some(0));
}

#[test]
fn test_run_with_iso8601_times() {
    let now = at("2026-02-01T00:00:00Z");
    let period =
        resolve_period(Some("2026-01-15T10:00:00Z"), Some("2026-01-15T12:00:00Z"), &now).unwrap();
    assert_eq!(period.start, at("2026-01-15T10:00:00Z"));
    assert_eq!(period.end, at("2026-01-15T12:00:00Z"));
}

#[test]
fn test_run_with_relative_times() {
    let now = at("2026-02-01T00:00:00Z");
    let period = resolve_period(Some("2 hours ago"), None, &now).unwrap();
    assert_eq!(period.start, at("2026-01-31T22:00:00Z"));
    assert_eq!(period.end, now);
}

#[test]
fn test_run_with_invalid_start_time() {
    let now = at("2026-02-01T00:00:00Z");
    assert!(matches!(
        resolve_period(Some("invalid-time"), None, &now),
        Err(PeriodRefused::InvalidStart)
    ));
}

#[test]
fn test_run_with_invalid_end_time() {
    let now = at("2026-02-01T00:00:00Z");
    assert!(matches!(
        resolve_period(None, Some("not-a-date"), &now),
        Err(PeriodRefused::InvalidEnd)
    ));
}

#[test]
fn a_period_that_starts_after_its_end_is_refused() {
    let now = at("2026-02-01T00:00:00Z");
    match resolve_period(Some("2026-01-15T12:00:01Z"), Some("2026-01-15T12:00:00Z"), &now) {
        Err(PeriodRefused::Reversed(message)) => assert_eq!(
            message,
            "start time (2026-01-15T12:00:01Z) is after end time (2026-01-15T12:00:00Z)"
        ),
        other => panic!("{other:?}"),
    }
    // A period may be a single instant, and lasts a day by default.
    assert!(resolve_period(Some("2026-01-15T12:00:00Z"), Some("2026-01-15T12:00:00Z"), &now).is_ok());
    let day = resolve_period(None, None, &now).unwrap();
    assert_eq!(day.start, at("2026-01-31T00:00:00Z"));
    assert_eq!(day.end, now);
}

#[test]
fn a_time_range_names_the_bound_that_is_no_time() {
    let now = at("2026-02-01T00:00:00Z");
    assert!(matches!(resolve_time_range(Some("x"), None, &now), Err(PeriodError::InvalidStart)));
    assert!(matches!(resolve_time_range(None, Some("x"), &now), Err(PeriodError::InvalidEnd)));
    assert_eq!(
        resolve_time_range(Some("1 day ago"), None, &now).ok(),
        Some((at("2026-01-31T00:00:00Z"), now))
    );
}

#[test]
fn a_bound_that_is_no_time_is_named() {
    assert_eq!(parse_timestamp(None, "after").unwrap(), None);
    assert_eq!(
        parse_timestamp(Some("2026-01-15T10:30:00Z"), "after").unwrap(),
        Some(at("2026-01-15T10:30:00Z"))
    );
    assert_eq!(
        parse_timestamp(Some("soon"), "before").unwrap_err(),
        "invalid --before timestamp, expected ISO 8601 (e.g., 2025-01-29T12:00:00Z)"
    );
}

#[test]
fn test_parse_datetime_iso8601() {
    let dt = parse_datetime("2026-01-15T10:30:00Z").unwrap();
    assert_eq!(dt.parts(), (1_768_473_000, 0));
    assert_eq!(dt, at("2026-01-15T10:30:00Z"));
}

fn seconds_ago(text: &str) -> i64 {
    let before = Timestamp::now();
    let dt = parse_datetime(text).unwrap();
    before.parts().0 - dt.parts().0
}

#[test]
fn test_parse_datetime_relative_hours() {
    let ago = seconds_ago("2 hours ago");
    assert!((ago - 7200).abs() <= 1, "{ago}");
}

#[test]
fn test_parse_datetime_relative_minutes() {
    let ago = seconds_ago("30 minutes ago");
    assert!((ago - 1800).abs() <= 1, "{ago}");
}

#[test]
fn test_parse_datetime_relative_days() {
    let ago = seconds_ago("1 day ago");
    assert!((ago - 86_400).abs() <= 1, "{ago}");
}

#[test]
fn test_parse_datetime_relative_weeks() {
    let ago = seconds_ago("1 week ago");
    assert!((ago - 604_800).abs() <= 1, "{ago}");
}

#[test]
fn test_parse_datetime_plural_forms() {
    // Both singular and plural should work
    assert!(parse_datetime("1 hour ago").is_ok());
    assert!(parse_datetime("2 hours ago").is_ok());
    assert!(parse_datetime("1 minute ago").is_ok());
    assert!(parse_datetime("5 minutes ago").is_ok());
}

#[test]
fn test_parse_datetime_invalid() {
    assert!(parse_datetime("invalid").is_err());
    assert!(parse_datetime("ago").is_err());
    assert!(parse_datetime("2 years ago").is_err()); // years not supported
    assert!(parse_datetime("-1 hours ago").is_err()); // negative not supported
}

#[test]
fn test_parse_datetime_with_timezone_offset() {
    // Test ISO 8601 with timezone offset (not just Z)
    let dt = parse_datetime("2026-01-15T10:30:00+05:00").unwrap();
    // Should be converted to UTC (10:30+05:00 = 05:30 UTC)
    let text = dt.to_rfc3339();
    assert!(
        text.contains("05:30"),
        "Expected UTC conversion: {text}"
    );
}

#[test]
fn test_parse_datetime_zero_relative_time() {
    // Edge case: 0 units ago
    let result = parse_datetime("0 hours ago");
    assert!(result.is_ok(), "Should accept 0 hours ago");
    let now = at("2026-02-01T00:00:00Z");
    assert_eq!(parse_datetime_at("0 hours ago", &now).ok(), Some(now));
}

#[test]
fn test_export_events_extracts_fields_from_stored_event() {
    let mut event = make_test_event(
        "test-event-123",
        at("2026-01-15T11:00:00Z"),
        EventType::TmuxPaneFocus,
        "remote.tmux",
    );
    event.session_id = Some("session-abc".to_string());
    event.tmux_session = Some("main".to_string());
    event.pane_id = Some("%0".to_string());
    event.cwd = Some("/home/user/project".to_string());
    event.stream_id = Some("stream-xyz".to_string());

    let exports = export_events(vec![event], false);

    assert_eq!(exports.len(), 1);
    let export = &exports[0];
    assert_eq!(export.id, "test-event-123");
    assert_eq!(export.event_type, "tmux_pane_focus");
    assert_eq!(export.source, "remote.tmux");
    assert_eq!(export.cwd, Some("/home/user/project".to_string()));
    assert_eq!(export.session_id, Some("session-abc".to_string()));
    assert_eq!(export.tmux_session, Some("main".to_string()));
    assert_eq!(export.pane_id, Some("%0".to_string()));
    assert_eq!(export.stream_id, Some("stream-xyz".to_string()));
}

#[test]
fn test_export_events_extracts_session_name_as_tmux_session() {
    let mut event = make_test_event(
        "test-event-456",
        at("2026-01-15T11:00:00Z"),
        EventType::TmuxPaneFocus,
        "remote.tmux",
    );
    event.tmux_session = Some("dev".to_string());
    let exports = export_events(vec![event], false);
    assert_eq!(exports.len(), 1);
    assert_eq!(exports[0].tmux_session, Some("dev".to_string()));
}

#[test]
fn test_export_events_empty_range() {
    assert!(export_events(Vec::new(), false).is_empty());
}

#[test]
fn test_export_events_without_stream_assignment() {
    let mut event = make_test_event(
        "unassigned-event",
        at("2026-01-15T11:00:00Z"),
        EventType::TmuxPaneFocus,
        "remote.tmux",
    );
    event.pane_id = Some("%1".to_string());
    event.cwd = Some("/home/user/project".to_string());
    let exports = export_events(vec![event], false);
    assert_eq!(exports.len(), 1);
    assert_eq!(exports[0].stream_id, None);
}

#[test]
fn events_with_a_stream_are_left_out_on_request() {
    let free = make_test_event("free", at("2026-01-15T11:00:00Z"), EventType::WindowFocus, "w");
    let mut taken =
        make_test_event("taken", at("2026-01-15T11:00:00Z"), EventType::WindowFocus, "w");
    taken.stream_id = Some("s".to_string());
    let exports = export_events(vec![taken.clone(), free.clone(), taken], true);
    assert_eq!(exports.len(), 1);
    assert_eq!(exports[0].id, "free");
}

#[test]
fn test_export_streams_returns_stream_exports() {
    let stream = Stream {
        id: "stream-abc".to_string(),
        name: Some("time-tracker".to_string()),
        slug: None,
        time_direct_ms: 3_600_000,
        time_delegated_ms: 1_800_000,
        first_event_at: Some(at("2026-01-15T10:00:00Z")),
        last_event_at: Some(at("2026-01-15T12:00:00Z")),
    };

    let exports = export_streams(vec![stream.clone()]);

    assert_eq!(exports.len(), 1);
    let export = &exports[0];
    assert_eq!(export.id, "stream-abc");
    assert_eq!(export.name, Some("time-tracker".to_string()));
    assert_eq!(export.time_direct_ms, 3_600_000);
    assert_eq!(export.time_delegated_ms, 1_800_000);
    assert_eq!(export.first_event_at, stream.first_event_at);
    assert_eq!(export.last_event_at, stream.last_event_at);
}

#[test]
fn test_export_streams_empty_when_no_streams() {
    assert!(export_streams(Vec::new()).is_empty());
}

#[test]
fn test_export_agents_returns_sessions_in_range() {
    let mut session = make_session("test-session-123", SessionType::default(), "opencode");
    session.project_path = "/home/user/my-project".to_string();
    session.project_name = "my-project".to_string();
    session.end_time = Some(at("2026-01-15T12:00:00Z"));
    session.message_count = 5;
    session.summary = Some("Implemented feature X".to_string());
    session.user_prompts = vec!["Implement feature X".to_string(), "Add tests".to_string()];
    session.starting_prompt = Some("Implement feature X".to_string());
    session.assistant_message_count = 4;
    session.tool_call_count = 15;

    let exports = export_agents(vec![session], false);

    assert_eq!(exports.len(), 1);
    let agent = &exports[0];
    assert_eq!(agent.session_id, "test-session-123");
    assert_eq!(agent.project_path, "/home/user/my-project");
    assert_eq!(agent.project_name, "my-project");
    assert_eq!(agent.summary.as_deref(), Some("Implemented feature X"));
    assert_eq!(
        agent.starting_prompt.as_deref(),
        Some("Implement feature X")
    );
    assert_eq!(agent.user_prompts, vec!["Implement feature X", "Add tests"]);
    assert_eq!(agent.user_prompt_count, 2); // Matches user_prompts.len(), not message_count
    assert_eq!(agent.assistant_message_count, 4);
    assert_eq!(agent.tool_call_count, 15);
}

#[test]
fn test_export_agents_empty_when_no_sessions() {
    assert!(export_agents(Vec::new(), true).is_empty());
}

#[test]
fn test_export_agents_includes_parent_session_id() {
    let parent = make_session("parent-session-id", SessionType::User, "opencode");
    let mut child = make_session("agent-a913a65", SessionType::Subagent, "opencode");
    child.parent_session_id = Some("parent-session-id".to_string());

    let exports = export_agents(vec![parent, child], false);

    assert_eq!(exports.len(), 2);
    let parent_export = exports.iter().find(|e| e.session_id == "parent-session-id").unwrap();
    assert!(parent_export.parent_session_id.is_none());
    assert_eq!(parent_export.session_type, SessionType::User);
    let child_export = exports.iter().find(|e| e.session_id == "agent-a913a65").unwrap();
    assert_eq!(
        child_export.parent_session_id.as_deref(),
        Some("parent-session-id")
    );
    assert_eq!(child_export.session_type, SessionType::Subagent);
}

#[test]
fn test_export_agents_preserves_source_field() {
    let exports = export_agents(
        vec![
            make_session("ses_omp_1", SessionType::User, "omp"),
            make_session("ses_opencode_1", SessionType::User, "opencode"),
        ],
        false,
    );
    assert_eq!(exports.len(), 2);
    assert_eq!(exports[0].source, "omp");
    assert_eq!(exports[1].source, "opencode");
    assert_eq!(exports[1].session_type.as_str(), "user");
}

#[test]
fn compact_output_cuts_summaries_and_prompts() {
    let mut session = make_session("s", SessionType::User, "opencode");
    session.summary = Some("x".repeat(121));
    session.user_prompts = vec!["one".to_string(), "two".to_string()];
    let mut short = make_session("t", SessionType::User, "opencode");
    short.summary = Some("x".repeat(120));
    short.user_prompts = vec!["only".to_string()];
    let sessions = vec![session, short];
    assert!(can_export_compact(&sessions));
    let exports = export_agents(sessions, true);
    assert_eq!(exports[0].summary.as_deref(), Some("x".repeat(120).as_str()));
    assert_eq!(exports[0].user_prompts, ["one"]);
    assert_eq!(exports[0].user_prompt_count, 2);
    assert_eq!(exports[1].summary.as_deref(), Some("x".repeat(120).as_str()));
    assert_eq!(exports[1].user_prompts, ["only"]);

    // A cut within a character cannot be made.
    let mut wide = make_session("w", SessionType::User, "opencode");
    wide.summary = Some(format!("{}é", "x".repeat(119)));
    assert!(!can_export_compact(&vec![wide]));
}

#[test]
fn test_is_user_event_recognizes_user_events() {
    assert!(is_user_event(&EventType::UserMessage));
    assert!(is_user_event(&EventType::TmuxPaneFocus));
    assert!(is_user_event(&EventType::TmuxScroll));
    assert!(is_user_event(&EventType::WindowFocus));
    assert!(is_user_event(&EventType::BrowserTab));
}

#[test]
fn test_is_user_event_rejects_non_user_events() {
    assert!(!is_user_event(&EventType::AgentToolUse));
    assert!(!is_user_event(&EventType::AgentSession));
    assert!(!is_user_event(&EventType::Other("afk".to_string())));
}

#[test]
fn test_is_user_event_case_sensitivity() {
    assert!(is_user_event(&EventType::UserMessage));
    assert!(is_user_event(&EventType::TmuxPaneFocus));
    assert!(!is_user_event(&EventType::AgentToolUse));
}

fn user_events(times: &[(&str, EventType)]) -> Vec<StoredEvent> {
    times
        .iter()
        .enumerate()
        .map(|(i, (time, event_type))| {
            make_test_event(
                &format!("e{i}"),
                at(&format!("2026-01-15T{time}:00Z")),
                event_type.clone(),
                "remote.tmux",
            )
        })
        .collect()
}

#[test]
fn test_export_gaps_finds_gaps_exceeding_threshold() {
    let events = user_events(&[
        ("10:00", EventType::TmuxPaneFocus),
        ("10:10", EventType::UserMessage),
    ]);
    let gaps = find_gaps(&events, 5);
    assert_eq!(gaps.len(), 1);
    assert_eq!(gaps[0].duration_minutes, 10);
    assert_eq!(gaps[0].before_event_type, "tmux_pane_focus");
    assert_eq!(gaps[0].after_event_type, "user_message");
}

#[test]
fn test_export_gaps_ignores_gaps_below_threshold() {
    let events = user_events(&[
        ("10:00", EventType::TmuxPaneFocus),
        ("10:03", EventType::UserMessage),
    ]);
    assert!(find_gaps(&events, 5).is_empty());
}

#[test]
fn test_export_gaps_empty_or_single_event_returns_empty() {
    assert!(find_gaps(&Vec::new(), 5).is_empty());
    let events = user_events(&[("10:00", EventType::TmuxPaneFocus)]);
    assert!(find_gaps(&events, 5).is_empty());
}

#[test]
fn test_export_gaps_ignores_non_user_events() {
    let events = user_events(&[
        ("10:00", EventType::TmuxPaneFocus),
        ("10:05", EventType::AgentToolUse),
        ("10:20", EventType::WindowFocus),
    ]);
    let gaps = find_gaps(&events, 5);
    assert_eq!(gaps.len(), 1);
    assert_eq!(gaps[0].duration_minutes, 20);
    assert_eq!(gaps[0].before_event_type, "tmux_pane_focus");
    assert_eq!(gaps[0].after_event_type, "window_focus");
}

#[test]
fn test_export_gaps_exact_threshold() {
    let events = user_events(&[
        ("10:00", EventType::TmuxPaneFocus),
        ("10:05", EventType::UserMessage),
    ]);
    let gaps = find_gaps(&events, 5);
    assert_eq!(
        gaps.len(),
        1,
        "5-minute gap should be found with 5-minute threshold"
    );
    assert_eq!(gaps[0].duration_minutes, 5);
}

#[test]
fn test_export_gaps_multiple_gaps() {
    let events = user_events(&[
        ("10:00", EventType::TmuxPaneFocus),
        ("10:15", EventType::TmuxPaneFocus),
        ("10:25", EventType::TmuxPaneFocus),
        ("10:30", EventType::TmuxPaneFocus),
    ]);
    let gaps = find_gaps(&events, 10);
    assert_eq!(gaps.len(), 2, "Should find 2 gaps >= 10 minutes");
    assert_eq!(gaps[0].duration_minutes, 15);
    assert_eq!(gaps[1].duration_minutes, 10);
}

#[test]
fn a_period_needs_the_day_before_its_end() {
    let now = at("2026-01-15T12:00:00Z");
    assert!(can_resolve(None, &now));
    assert!(can_resolve(Some("2 hours ago"), &now));
    assert!(can_resolve(Some("2026-01-15T12:00:00Z"), &now));
    assert!(can_resolve(Some("no time"), &now));
    // The first instant of the calendar has no day before it.
    let mut first = now;
    let mut step: u64 = 1 << 50;
    while step > 0 {
        while let Some(earlier) = first.minus(step) {
            first = earlier;
        }
        step /= 2;
    }
    assert!(!can_resolve(None, &first));
    assert!(can_resolve(Some("1 day ago"), &first));
    // With a start that is given none is needed.
    let (start, end) = resolve_time_range(Some("0 hours ago"), None, &first).unwrap();
    assert_eq!((start, end), (first, first));
    let period = resolve_period(Some("0 hours ago"), None, &first).unwrap();
    assert_eq!((period.start, period.end), (first, first));
}
