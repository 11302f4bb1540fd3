//! Events of this machine, and passes over its agent sessions.
use tt_cli::ids::extract_machine_id;
use tt_cli::import::{import_line, prepare_event, ImportLine};
use tt_cli::ingest::debounce::{check_debounce, Debounce, DEBOUNCE_WINDOW_MS, KEPT_MS};
use tt_cli::ingest::pass::IndexPass;
use tt_cli::ingest::report::{
    correlation_span, focus_assignments, project_counts, write_report, AttributionCounts,
    StoreNames,
};
use tt_cli::ingest::sessions::{
    combine_scans, create_session_events, message_times, next_cursor, scan_since, ScanOutcome,
};
use tt_cli::ingest::{
    default_source, ingest_pane_focus, ingest_scroll, needs_rotation, read_jj_identity,
    read_origin_url, IngestEvent, IngestPaths, IngestReport, IngestStep, ProjectIdentity, ScanMode,
    MAX_EVENTS_FILE_SIZE, SCAN_OVERLAP_MINUTES,
};
use tt_cli::model::{AgentSession, EventType, SessionType, StoredEvent};
use tt_cli::time::Timestamp;

const TEST_MACHINE_ID: &str = "00000000-0000-0000-0000-000000000000";

fn at(text: &str) -> Timestamp {
    Timestamp::parse(text).unwrap()
}

fn noon() -> Timestamp {
    at("2025-01-29T12:00:00.000Z")
}

/// What a data directory holds.
#[derive(Default)]
struct Spool {
    debounce: String,
    events: Vec<IngestEvent>,
}

impl Spool {
    fn keep(&mut self, step: Result<IngestStep, String>) -> Result<bool, String> {
        match step? {
            IngestStep::Debounced => Ok(false),
            IngestStep::Write { event, debounce } => {
                self.debounce = debounce;
                self.events.push(event);
                Ok(true)
            }
        }
    }

    fn focus(&mut self, pane_id: &str, session: &str, now: &Timestamp) -> Result<bool, String> {
        let step = ingest_pane_focus(
            TEST_MACHINE_ID,
            pane_id,
            session,
            None,
            "/home/test",
            None,
            now,
            None,
            &self.debounce,
        );
        self.keep(step)
    }
}

#[test]
fn test_empty_pane_id_rejected() {
    let error = Spool::default().focus("", "main", &noon()).unwrap_err();
    assert!(error.contains("pane_id"));
    assert_eq!(error, "pane_id cannot be empty");
}

#[test]
fn test_empty_session_name_rejected() {
    let error = Spool::default().focus("%1", "", &noon()).unwrap_err();
    assert!(error.contains("session_name"));
    assert_eq!(error, "session_name cannot be empty");
}

fn focus_event(session_id: Option<&str>, window_index: Option<u32>, pane_id: &str) -> IngestEvent {
    IngestEvent::pane_focus(
        TEST_MACHINE_ID,
        pane_id.to_string(),
        "dev".to_string(),
        window_index,
        "/home/user/project".to_string(),
        session_id.map(str::to_string),
        &noon(),
        None,
    )
}

#[test]
fn test_event_serialization_matches_spec() {
    let event = focus_event(None, Some(1), "%3");
    assert_eq!(
        event.id,
        "00000000-0000-0000-0000-000000000000:remote.tmux:tmux_pane_focus:2025-01-29T12:00:00.000Z:%3"
    );
    assert_eq!(event.timestamp, "2025-01-29T12:00:00.000Z");
    assert_eq!(event.source, "remote.tmux");
    assert_eq!(event.source, default_source());
    assert_eq!(event.event_type, "tmux_pane_focus");
    assert_eq!(event.cwd.as_deref(), Some("/home/user/project"));
    assert_eq!(event.session_id, None);
    assert_eq!(event.pane_id, "%3");
    assert_eq!(event.tmux_session, "dev");
    assert_eq!(event.window_index, Some(1));
    assert_eq!(event.git_project, None);
    assert_eq!(event.git_workspace, None);
}

#[test]
fn a_stamped_event_serialization_matches_spec() {
    let event = focus_event(Some("ses_0210f2ed2ffedhF4"), Some(2), "%3");
    let plain = focus_event(None, Some(2), "%3");
    assert_eq!(event.session_id.as_deref(), Some("ses_0210f2ed2ffedhF4"));
    assert_eq!(event.id, plain.id);
    assert_eq!(event.timestamp, plain.timestamp);
    assert_eq!(event.cwd, plain.cwd);
    assert_eq!(event.window_index, Some(2));
}

#[test]
fn a_resolved_pane_session_is_stamped_on_the_event() {
    let mut spool = Spool::default();
    let step = ingest_pane_focus(
        TEST_MACHINE_ID,
        "%8",
        "main",
        Some(0),
        "/home/test",
        Some("ses_0210f2ed2ffedhF4".to_string()),
        &noon(),
        None,
        "",
    );
    assert!(spool.keep(step).unwrap());
    assert_eq!(spool.events.len(), 1);
    assert_eq!(
        spool.events[0].session_id,
        Some("ses_0210f2ed2ffedhF4".to_string())
    );
}

#[test]
fn an_unresolved_pane_records_the_event_unchanged() {
    let mut spool = Spool::default();
    assert!(spool.focus("%8", "main", &noon()).unwrap());
    assert_eq!(spool.events.len(), 1);
    assert_eq!(spool.events[0].session_id, None);
    assert_eq!(spool.events[0].pane_id, "%8");
    assert_eq!(spool.events[0].tmux_session, "main");
    assert_eq!(spool.events[0].event_type, "tmux_pane_focus");
}

#[test]
fn test_deterministic_id_same_input() {
    let event1 = focus_event(None, None, "%3");
    let event2 = focus_event(None, None, "%3");
    assert_eq!(event1.id, event2.id);
}

#[test]
fn test_different_inputs_different_ids() {
    let event1 = focus_event(None, None, "%3");
    let event2 = focus_event(None, None, "%4"); // Different pane
    assert_ne!(event1.id, event2.id);
}

#[test]
fn test_ingest_creates_events_file() {
    let mut spool = Spool::default();
    let result = spool.focus("%1", "main", &noon());
    assert!(result.is_ok());
    assert!(result.unwrap()); // Event was written
    assert_eq!(spool.events.len(), 1);
    assert_eq!(spool.events[0].pane_id, "%1");
    assert_eq!(spool.events[0].tmux_session, "main");
    assert_eq!(spool.events[0].cwd, Some("/home/test".to_string()));
}

#[test]
fn ingest_scroll_writes_tmux_scroll_event() {
    let mut spool = Spool::default();
    let step =
        ingest_scroll(TEST_MACHINE_ID, "%1", "main", Some(0), "/home/test", &noon(), None, "");
    assert!(spool.keep(step).unwrap());
    assert_eq!(spool.events.len(), 1);
    assert_eq!(spool.events[0].event_type, "tmux_scroll");
    assert_eq!(spool.events[0].pane_id, "%1");
    assert!(spool.events[0].id.contains(":tmux_scroll:"));
    let refused = ingest_scroll(TEST_MACHINE_ID, "", "main", None, "/", &noon(), None, "");
    assert_eq!(refused.unwrap_err(), "pane_id cannot be empty");
}

#[test]
fn test_debounce_within_window() {
    let mut spool = Spool::default();
    // First event should be written
    assert!(spool.focus("%1", "main", &noon()).unwrap());
    // Immediate second event for same pane should be debounced
    assert!(!spool.focus("%1", "main", &noon()).unwrap());
    assert_eq!(spool.events.len(), 1); // Only one event written
    assert!(!spool.focus("%1", "main", &at("2025-01-29T12:00:00.499Z")).unwrap());
    // A clock that was set back counts as no time.
    assert!(!spool.focus("%1", "main", &at("2025-01-29T11:59:00Z")).unwrap());
}

#[test]
fn test_debounce_different_panes() {
    let mut spool = Spool::default();
    assert!(spool.focus("%1", "main", &noon()).unwrap());
    // Different pane should not be debounced
    assert!(spool.focus("%2", "main", &noon()).unwrap());
    assert_eq!(spool.events.len(), 2);
}

#[test]
fn test_debounce_after_window_expires() {
    let mut spool = Spool::default();
    assert!(spool.focus("%1", "main", &noon()).unwrap());
    assert!(spool.focus("%1", "main", &at("2025-01-29T12:00:00.550Z")).unwrap());
    assert_eq!(spool.events.len(), 2);
    assert!(spool.focus("%1", "main", &at("2025-01-29T12:00:01.050Z")).unwrap());
}

#[test]
fn test_debounce_file_corruption_recovery() {
    let mut spool = Spool {
        debounce: "corrupted:data:too:many:colons\ninvalid".to_string(),
        ..Spool::default()
    };
    let result = spool.focus("%1", "main", &noon());
    assert!(
        result.is_ok(),
        "Should recover from corrupted debounce file"
    );
    assert_eq!(spool.events.len(), 1);
    assert_eq!(spool.debounce, "%1:1738152000000");
}

#[test]
fn test_debounce_with_special_pane_ids() {
    let mut spool = Spool::default();
    // Pane IDs with special characters that might break parsing
    let special_panes = vec![
        "%1:2:3",     // Multiple colons
        "%test pane", // Space
        "%🔥",        // Emoji
    ];
    for pane_id in &special_panes {
        let result = spool.focus(pane_id, "main", &noon());
        assert!(result.is_ok(), "Should handle special pane ID: {pane_id}");
    }
    assert_eq!(spool.events.len(), 3, "All special pane IDs should create events");
    for pane_id in &special_panes {
        assert!(!spool.focus(pane_id, "main", &noon()).unwrap());
    }
}

#[test]
fn old_entries_of_the_debounce_file_are_forgotten() {
    let now: u64 = 1_000_000;
    let content = format!(
        "%old:{}\n%kept:{}\n%1:{}",
        now - KEPT_MS,
        now - KEPT_MS + 1,
        now - DEBOUNCE_WINDOW_MS
    );
    match check_debounce(&content, "%1", now) {
        Debounce::Record(kept) => assert_eq!(kept, "%kept:990001\n%1:1000000"),
        Debounce::Skip => panic!("the window has passed"),
    }
    assert!(matches!(check_debounce(&content, "%1", now - 1), Debounce::Skip));
    // Text that is longer than any number is no entry.
    match check_debounce("%1:99999999999999999999", "%1", now) {
        Debounce::Record(kept) => assert_eq!(kept, "%1:1000000"),
        Debounce::Skip => panic!("no entry"),
    }
}

#[test]
fn test_lock_file_cleanup() {
    let mut spool = Spool::default();
    spool.focus("%1", "main", &noon()).unwrap();
    assert!(spool.focus("%2", "main", &noon()).unwrap());
}

#[test]
fn test_rotation_when_file_exceeds_threshold() {
    assert!(needs_rotation(MAX_EVENTS_FILE_SIZE + 100));
    assert!(!needs_rotation(MAX_EVENTS_FILE_SIZE));
}

#[test]
fn test_rotation_preserves_old_content() {
    assert!(needs_rotation(MAX_EVENTS_FILE_SIZE + 1));
}

#[test]
fn test_no_rotation_when_file_under_threshold() {
    assert!(!needs_rotation("small content".len() as u64));
    assert!(!needs_rotation(MAX_EVENTS_FILE_SIZE - 1));
}

#[test]
fn test_event_id_includes_machine_id() {
    let mut spool = Spool::default();
    spool.focus("%1", "main", &noon()).unwrap();
    assert_eq!(spool.events.len(), 1);
    assert!(
        spool.events[0].id.starts_with(TEST_MACHINE_ID),
        "event ID '{}' should start with machine_id",
        spool.events[0].id
    );
}

#[test]
fn test_git_identity_extraction_from_jj_directory() {
    // Nothing could be asked: the directory itself is the root.
    let jj = read_jj_identity(None, None, None, "/tmp/my-project");
    assert_eq!(jj.remote_url, None);
    assert_eq!(jj.workspace_count, 1);
    assert_eq!(jj.root, "/tmp/my-project");

    let identity = ProjectIdentity {
        project_name: "my-project".to_string(),
        workspace_name: None,
    };
    let event = IngestEvent::pane_focus(
        TEST_MACHINE_ID,
        "%1".to_string(),
        "main".to_string(),
        None,
        "/tmp/my-project".to_string(),
        None,
        &noon(),
        Some(identity),
    );
    assert_eq!(event.git_project, Some("my-project".to_string()));
    assert_eq!(event.git_workspace, None);
}

#[test]
fn test_no_jj_directory_returns_no_identity() {
    let mut spool = Spool::default();
    assert!(spool.focus("%1", "main", &noon()).unwrap());
    assert_eq!(spool.events[0].git_project, None);
    assert_eq!(spool.events[0].git_workspace, None);
}

#[test]
fn remotes_workspaces_and_root_are_read_from_listings() {
    let remotes = "upstream git@host:up/other.git\norigin  git@host:me/project.git (push)\n";
    let jj = read_jj_identity(
        Some(remotes),
        Some("default: abc\nsecond: def\n"),
        Some("/work/project\n"),
        "/work/project/sub",
    );
    assert_eq!(jj.remote_url.as_deref(), Some("git@host:me/project.git"));
    assert_eq!(jj.workspace_count, 2);
    assert_eq!(jj.root, "/work/project");
    assert_eq!(read_origin_url("origin"), None);
    assert_eq!(read_origin_url("upstream u\n"), None);
}

fn session(session_id: &str) -> AgentSession {
    AgentSession {
        session_id: session_id.to_string(),
        source: "agent".to_string(),
        parent_session_id: None,
        session_type: SessionType::default(),
        project_path: "/home/user/project".to_string(),
        project_name: "project".to_string(),
        start_time: at("2026-02-02T10:00:00Z"),
        end_time: None,
        message_count: 1,
        summary: None,
        user_prompts: Vec::new(),
        starting_prompt: None,
        assistant_message_count: 1,
        tool_call_count: 0,
        user_message_timestamps: Vec::new(),
        tool_call_timestamps: Vec::new(),
    }
}

#[test]
fn test_create_session_events_session_start() {
    let events = create_session_events(&session("test-session-123"), None);

    assert_eq!(events.len(), 1);
    assert!(matches!(events[0].event_type, EventType::AgentSession));
    assert_eq!(events[0].id, "test-session-123-session_start");
    assert_eq!(events[0].source, "agent");
    assert_eq!(events[0].cwd, Some("/home/user/project".to_string()));
    assert_eq!(events[0].session_id, Some("test-session-123".to_string()));
    assert_eq!(events[0].action.as_deref(), Some("started"));
    assert_eq!(events[0].data, r#"{"project_name":"project"}"#);
    assert_eq!(events[0].schema_version, 1);
    assert_eq!(events[0].machine_id, None);
}

#[test]
fn test_create_session_events_session_start_and_end() {
    let session = AgentSession {
        end_time: Some(at("2026-02-02T11:00:00Z")),
        ..session("test-session-456")
    };
    let events = create_session_events(&session, Some(TEST_MACHINE_ID));

    assert_eq!(events.len(), 2);
    assert!(matches!(events[0].event_type, EventType::AgentSession));
    assert!(matches!(events[1].event_type, EventType::AgentSession));
    assert_eq!(events[1].id, "test-session-456-session_end");
    assert_eq!(events[0].action.as_deref(), Some("started"));
    assert_eq!(events[1].action.as_deref(), Some("ended"));
    assert_eq!(events[1].machine_id.as_deref(), Some(TEST_MACHINE_ID));
    assert_eq!(events[1].data, "{}");
}

#[test]
fn test_create_session_events_user_messages() {
    let ts1 = at("2026-02-02T10:05:00Z");
    let ts2 = at("2026-02-02T10:10:00Z");
    let session = AgentSession {
        user_message_timestamps: vec![ts1, ts2],
        ..session("test-session-789")
    };
    let events = create_session_events(&session, None);

    assert_eq!(events.len(), 3);
    assert!(matches!(events[0].event_type, EventType::AgentSession));
    assert!(matches!(events[1].event_type, EventType::UserMessage));
    assert_eq!(events[1].timestamp, ts1);
    assert_eq!(events[1].id, "test-session-789-user_message-1770026700000");
    assert!(matches!(events[2].event_type, EventType::UserMessage));
    assert_eq!(events[2].timestamp, ts2);
    assert_eq!(events[0].action.as_deref(), Some("started"));
    assert_eq!(message_times(&session), [ts1, ts2]);
}

#[test]
fn tool_calls_are_told_apart_by_their_place() {
    let ts = at("2026-02-02T10:05:00Z");
    let session = AgentSession {
        end_time: Some(at("2026-02-02T10:20:00Z")),
        user_message_timestamps: vec![ts],
        tool_call_timestamps: vec![ts, ts],
        ..session("s")
    };
    let ids: Vec<String> =
        create_session_events(&session, None).into_iter().map(|event| event.id).collect();
    assert_eq!(
        ids,
        [
            "s-session_start",
            "s-user_message-1770026700000",
            "s-tool_use-1770026700000-0",
            "s-tool_use-1770026700000-1",
            "s-session_end",
        ]
    );
}

#[test]
fn test_create_session_events_opencode_source() {
    let session = AgentSession {
        source: "opencode".to_string(),
        end_time: Some(at("2026-02-02T11:00:00Z")),
        ..session("ses_opencode_123")
    };
    let events = create_session_events(&session, None);

    assert_eq!(events.len(), 2);
    assert_eq!(events[0].source, "opencode");
    assert_eq!(events[1].source, "opencode");
    assert_eq!(events[0].id, "ses_opencode_123-session_start");
    assert_eq!(events[0].session_id, Some("ses_opencode_123".to_string()));
    assert_eq!(events[0].action.as_deref(), Some("started"));
}

#[test]
fn test_create_session_events_with_empty_timestamps() {
    let events = create_session_events(&session("test"), None);
    // Should only have session_start (no user_message events)
    assert_eq!(events.len(), 1);
    assert!(matches!(events[0].event_type, EventType::AgentSession));
    assert_eq!(events[0].action.as_deref(), Some("started"));
}

#[test]
fn test_non_user_session_skips_user_message_events() {
    let ts1 = at("2026-02-02T10:05:00Z");
    let ts2 = at("2026-02-02T10:10:00Z");
    let session = AgentSession {
        source: "opencode".to_string(),
        session_type: SessionType::Agent,
        end_time: Some(at("2026-02-02T11:00:00Z")),
        user_message_timestamps: vec![ts1, ts2],
        tool_call_timestamps: vec![ts1, ts2],
        ..session("ses_legion_worker")
    };
    let events = create_session_events(&session, None);

    // Should have: session_start + 2 tool_use + session_end = 4 events
    // Should NOT have any UserMessage events
    assert_eq!(events.len(), 4);
    for event in &events {
        assert!(
            !matches!(event.event_type, EventType::UserMessage),
            "Agent sessions must not emit UserMessage events"
        );
    }
    assert!(message_times(&session).is_empty());
}

#[test]
fn test_subagent_session_skips_user_message_events() {
    let session = AgentSession {
        source: "opencode".to_string(),
        parent_session_id: Some("ses_parent".to_string()),
        session_type: SessionType::Subagent,
        user_message_timestamps: vec![at("2026-02-02T10:05:00Z")],
        ..session("ses_subagent")
    };
    let events = create_session_events(&session, None);

    // Should have only session_start — no UserMessage, no end
    assert_eq!(events.len(), 1);
    assert!(matches!(events[0].event_type, EventType::AgentSession));
}

#[test]
fn a_continuation_is_driven_by_a_person() {
    let ts = at("2026-02-02T10:05:00Z");
    let session = AgentSession {
        session_type: SessionType::Continuation,
        user_message_timestamps: vec![ts],
        ..session("s")
    };
    assert_eq!(create_session_events(&session, None).len(), 2);
    assert_eq!(message_times(&session), [ts]);
}

#[test]
fn test_import_local_events_drains_jsonl_into_db() {
    let event_line = r#"{"id":"a59fae83-37bb-46c3-8a65-70962c28005a:remote.tmux:tmux_pane_focus:2026-05-17T00:00:00.000Z:%1","source":"remote.tmux","type":"tmux_pane_focus","timestamp":"2026-05-17T00:00:00.000Z","cwd":"/home/sami/test","pane_id":"%1","tmux_session":"dev","window_index":1}"#;
    let line = match import_line(event_line) {
        ImportLine::Event(line) => line,
        other => panic!("{other:?}"),
    };
    let value: serde_json::Value = serde_json::from_str(&line).unwrap();
    let stored = prepare_event(StoredEvent {
        id: value["id"].as_str().unwrap().to_string(),
        timestamp: at(value["timestamp"].as_str().unwrap()),
        event_type: EventType::TmuxPaneFocus,
        source: "remote.tmux".to_string(),
        machine_id: None,
        schema_version: 1,
        pane_id: Some("%1".to_string()),
        tmux_session: Some("dev".to_string()),
        window_index: Some(1),
        git_project: None,
        git_workspace: None,
        status: None,
        idle_duration_ms: None,
        window_app_id: None,
        window_title: None,
        action: None,
        cwd: Some("/home/sami/test".to_string()),
        session_id: None,
        stream_id: None,
        assignment_source: None,
        data: "{}".to_string(),
    });
    assert!(matches!(stored.event_type, EventType::TmuxPaneFocus));
    assert_eq!(
        stored.machine_id.as_deref(),
        Some("a59fae83-37bb-46c3-8a65-70962c28005a"),
        "machine_id should be extracted from event id prefix"
    );
}

fn report() -> IngestReport {
    IngestReport {
        claude: 2,
        opencode: 3,
        omp: 1,
        indexed_events: 7,
        imported_events: 5,
        drained_events: 0,
        stale_events_cleaned: 0,
        injected_events_pruned: 0,
        session_membership_assigned: 0,
        terminal_focus_assigned: 0,
        artifact_focus_assigned: 0,
        projects: Vec::new(),
        scanned_claude: true,
        scanned_opencode: true,
        scanned_omp: true,
    }
}

#[test]
fn ingest_report_counts_new_session_and_local_events() {
    let report = report();
    let imported = report.imported_events();
    assert_eq!(report.claude, 2);
    assert_eq!(report.opencode, 3);
    assert_eq!(imported, 5);
}

fn names() -> StoreNames {
    StoreNames { product: "First Agent".to_string(), short: "First".to_string() }
}

#[test]
fn a_report_tells_what_was_scanned_indexed_and_changed() {
    let mut report = report();
    report.projects = vec![("tracker".to_string(), 4), ("other".to_string(), 2)];
    report.drained_events = 8;
    report.stale_events_cleaned = 1;
    report.injected_events_pruned = 2;
    report.session_membership_assigned = 3;
    report.terminal_focus_assigned = 4;
    report.artifact_focus_assigned = 5;
    report.scanned_omp = false;
    assert_eq!(
        write_report(&report, ScanMode::Incremental, &names()),
        "Scanning First Agent sessions...
  Found 2 new or changed First sessions
Scanning OpenCode sessions...
  Found 3 new or changed OpenCode sessions
Cleaned 1 stale user_message events from non-user sessions
Indexed 6 sessions (7 events)

Sessions by project:
  tracker: 4 sessions
  other: 2 sessions
Drained 8 local events from events.jsonl
Attributed 3 events to the stream their own classified session was placed on
Attributed 4 terminal-focus events to concurrent remote work
Attributed 5 window-focus events to the work that did the pull request or issue they name
Pruned 2 user_message events that were harness-injected text
"
    );
}

#[test]
fn a_report_lists_ten_projects_and_counts_the_rest() {
    let mut report = report();
    report.projects = (0..12).map(|i| (format!("p{i}"), 12 - i)).collect();
    let text = write_report(&report, ScanMode::Full, &names());
    assert!(text.contains("  Found 1 total omp sessions\n"));
    assert!(text.contains("  p9: 3 sessions\n  ... and 2 more projects\n"));
    assert!(!text.contains("p10"));
}

#[test]
fn a_report_of_nothing_says_so() {
    let scan = combine_scans(None, Some(outcome(Vec::new(), true)), None);
    let report = IngestReport::unchanged(&scan);
    assert_eq!(
        write_report(&report, ScanMode::Full, &names()),
        "Scanning OpenCode sessions...\n  Found 0 total OpenCode sessions\nNo total sessions found.\n"
    );
}

fn outcome(sessions: Vec<AgentSession>, complete: bool) -> ScanOutcome {
    ScanOutcome { sessions, complete }
}

#[test]
fn stores_are_combined_in_order_and_one_unread_store_holds_the_cursor_back() {
    let scan = combine_scans(
        Some(outcome(vec![session("a")], true)),
        Some(outcome(vec![session("b"), session("c")], false)),
        None,
    );
    let ids: Vec<&str> = scan.sessions.iter().map(|s| s.session_id.as_str()).collect();
    assert_eq!(ids, ["a", "b", "c"]);
    assert_eq!((scan.claude, scan.opencode, scan.omp), (1, 2, 0));
    assert!(scan.scanned_claude && scan.scanned_opencode && !scan.scanned_omp);
    assert!(!scan.complete);
    assert_eq!(next_cursor(noon(), scan.complete), None);
    assert_eq!(next_cursor(noon(), true), Some(noon()));
}

#[test]
fn the_cursor_reaches_back_over_the_overlap() {
    assert_eq!(SCAN_OVERLAP_MINUTES, 5);
    assert_eq!(
        scan_since(Some(noon()), ScanMode::Incremental),
        Some(at("2025-01-29T11:55:00Z"))
    );
    assert_eq!(scan_since(None, ScanMode::Incremental), None);
    assert_eq!(scan_since(Some(noon()), ScanMode::Full), None);
    assert_eq!(ScanMode::default(), ScanMode::Incremental);
}

#[test]
fn a_pass_stores_each_session_and_reports_what_it_stored() {
    let ts = at("2026-02-02T10:05:00Z");
    let talk = AgentSession { user_message_timestamps: vec![ts], ..session("a") };
    let worker = AgentSession {
        session_type: SessionType::Agent,
        project_name: "other".to_string(),
        user_message_timestamps: vec![ts],
        ..session("b")
    };
    let more = AgentSession { project_name: "other".to_string(), ..session("c") };
    let scan = combine_scans(Some(outcome(vec![talk, worker, more], true)), None, None);
    let mut pass = IndexPass::start(scan, noon());
    let mut sizes = Vec::new();
    loop {
        let (count, machine) = match pass.next(Some(TEST_MACHINE_ID)) {
            Some((_, events)) => (events.len(), events[0].machine_id.clone()),
            None => break,
        };
        assert_eq!(machine.as_deref(), Some(TEST_MACHINE_ID));
        sizes.push(count);
        pass.record(count, 1);
    }
    assert_eq!(sizes, [2, 1, 1]);
    let derived = pass.derived_messages();
    assert_eq!(derived.len(), 3);
    for (id, count) in [("a", 1), ("b", 0), ("c", 0)] {
        assert_eq!(derived.get(id).unwrap().len(), count);
    }
    let attribution =
        AttributionCounts { session_membership: 7, terminal_focus: 8, artifact_reference: 9 };
    let (report, cursor) = pass.finish(1, 2, 5, attribution);
    assert_eq!(cursor, Some(noon()));
    assert_eq!(report.indexed_events, 4);
    assert_eq!(report.imported_events(), 8);
    assert_eq!(report.drained_events, 5);
    assert_eq!(report.stale_events_cleaned, 1);
    assert_eq!(report.injected_events_pruned, 2);
    assert_eq!(report.session_membership_assigned, 7);
    assert_eq!(report.terminal_focus_assigned, 8);
    assert_eq!(report.artifact_focus_assigned, 9);
    assert_eq!(report.projects, [("other".to_string(), 2), ("project".to_string(), 1)]);
}

#[test]
fn projects_of_one_size_stand_in_the_order_of_their_first_sessions() {
    let of = |name: &str| AgentSession { project_name: name.to_string(), ..session("s") };
    let sessions = vec![of("b"), of("a"), of("c"), of("c"), of("a"), of("d")];
    let counts = project_counts(&sessions);
    let named: Vec<(&str, usize)> = counts.iter().map(|(n, c)| (n.as_str(), *c)).collect();
    assert_eq!(named, [("a", 2), ("c", 2), ("b", 1), ("d", 1)]);
    assert_eq!(counts.iter().map(|(_, c)| c).sum::<usize>(), sessions.len());
}

fn candidate(event: &str, stream: Option<&str>) -> (String, Option<String>) {
    (event.to_string(), stream.map(str::to_string))
}

#[test]
fn assign_terminal_focus_attributes_a_terminal_window_to_concurrent_remote_work() {
    let assigned = focus_assignments(
        vec![candidate("focus-terminal", Some("eval")), candidate("focus-alone", None)],
        Some("junk"),
    );
    assert_eq!(assigned, [("focus-terminal".to_string(), "eval".to_string())]);
}

#[test]
fn assign_terminal_focus_leaves_a_junk_winner_unassigned() {
    let assigned = focus_assignments(vec![candidate("junk-focus", Some("junk"))], Some("junk"));
    assert!(assigned.is_empty());
}

#[test]
fn assign_artifact_focus_binds_a_pull_request_title_to_the_work_that_did_it() {
    let assigned = focus_assignments(
        vec![candidate("focus-pr", Some("tracker")), candidate("focus-listing", None)],
        None,
    );
    assert_eq!(assigned, [("focus-pr".to_string(), "tracker".to_string())]);
}

#[test]
fn stores_are_found_below_configured_directories_or_the_home_directory() {
    let paths = IngestPaths::from_env(
        None,
        ".agent",
        None,
        Some("/home/me"),
        Some("/home/me/.local/share"),
        "/data",
    )
    .unwrap();
    assert_eq!(paths.claude_projects, "/home/me/.agent/projects");
    assert_eq!(paths.opencode_db, "/home/me/.local/share/opencode/opencode.db");
    assert_eq!(paths.omp_sessions, "/home/me/.omp/agent/sessions");
    assert_eq!(paths.data_dir, "/data");

    let set = IngestPaths::from_env(Some("/conf/"), ".agent", Some("/pi"), None, Some("/d"), "/data")
        .unwrap();
    assert_eq!(set.claude_projects, "/conf/projects");
    assert_eq!(set.omp_sessions, "/pi/sessions");

    let homeless =
        IngestPaths::from_env(None, ".agent", None, None, Some("/d"), "/data").unwrap();
    assert_eq!(homeless.claude_projects, ".agent/projects");

    let refused = IngestPaths::from_env(None, ".agent", None, None, None, "/data");
    assert_eq!(refused.unwrap_err(), "Could not determine data directory");
}

#[test]
fn pane_events_tell_their_machine_and_have_ids_of_their_own() {
    let mut spool = Spool::default();
    assert_eq!(spool.focus("%1", "main", &noon()), Ok(true));
    assert_eq!(spool.focus("%2", "main", &noon()), Ok(true));
    let scroll = ingest_scroll(
        TEST_MACHINE_ID,
        "%1",
        "main",
        None,
        "/home/test",
        &at("2025-01-29T12:00:00.600Z"),
        None,
        &spool.debounce,
    );
    assert_eq!(spool.keep(scroll), Ok(true));
    let ids: Vec<_> = spool.events.iter().map(|event| event.id.as_str()).collect();
    assert!(ids[0] != ids[1] && ids[0] != ids[2] && ids[1] != ids[2]);
    for id in ids {
        assert_eq!(extract_machine_id(id).as_deref(), Some(TEST_MACHINE_ID));
    }
}

#[test]
fn written_times_are_read_back_to_the_millisecond() {
    let event = IngestEvent::scroll(
        TEST_MACHINE_ID,
        "%1".to_string(),
        "main".to_string(),
        None,
        "/home/test".to_string(),
        &at("2025-01-29T12:00:00.123456Z"),
        None,
    );
    assert_eq!(event.timestamp, "2025-01-29T12:00:00.123Z");
    assert_eq!(Timestamp::parse(&event.timestamp), Some(at("2025-01-29T12:00:00.123Z")));
}

#[test]
fn work_is_looked_for_around_the_focus() {
    let event = |text: &str| {
        let mut event = create_session_events(&session("s"), None).remove(0);
        event.timestamp = at(text);
        event
    };
    let events = vec![event("2025-01-29T12:00:00.100Z"), event("2025-01-29T13:00:00.900Z")];
    assert_eq!(
        correlation_span(&events, 90_200),
        Some((Some(at("2025-01-29T11:58:29.900Z")), Some(at("2025-01-29T13:01:31.100Z"))))
    );
    assert_eq!(correlation_span(&Vec::new(), 90_200), None);
    // The calendar ends.
    let last = Timestamp::from_parts(8_210_266_876_799, 0).unwrap();
    assert_eq!(last.shift_millis(999), Timestamp::from_parts(8_210_266_876_799, 999_000_000));
    assert_eq!(last.shift_millis(1000), None);
    // Within a leap second, and out of it.
    let leap = Timestamp::from_parts(1_483_228_799, 1_500_000_000).unwrap();
    assert_eq!(leap.shift_millis(200), Timestamp::from_parts(1_483_228_799, 1_700_000_000));
    assert_eq!(leap.shift_millis(500), Timestamp::from_parts(1_483_228_800, 0));
}

#[test]
fn a_clock_that_steps_back_does_not_end_the_window() {
    let kept = match check_debounce("%2:1000000", "%1", 1_000_000) {
        Debounce::Record(kept) => kept,
        Debounce::Skip => panic!("nothing was recorded"),
    };
    for now in [0, 999_999, 1_000_000, 1_000_499] {
        assert!(matches!(check_debounce(&kept, "%1", now), Debounce::Skip), "at {now}");
        assert!(matches!(check_debounce(&kept, "%2", now), Debounce::Skip), "at {now}");
    }
    assert!(matches!(check_debounce(&kept, "%1", 1_000_500), Debounce::Record(_)));
}
