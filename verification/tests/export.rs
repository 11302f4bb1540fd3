//! Export of recorded events.
use serde_json::Value;

use tt_cli::export::logs::{
    export_tmux_events, is_project_dir, is_session_log, read_session_log, resume_offset,
};
use tt_cli::export::{
    extract_file, extract_message_info, is_tool_result, ClaudeManifest, ExportData, ExportEvent,
    Recorder, SeenSessions,
};
use tt_cli::ids::extract_machine_id;

const TEST_MACHINE_ID: &str = "00000000-0000-0000-0000-000000000000";

fn recorder() -> Recorder {
    Recorder { machine_id: TEST_MACHINE_ID.to_string(), agent: "agent".to_string() }
}

fn json(text: &str) -> Value {
    serde_json::from_str(text).unwrap()
}

/// The events of a log, and how far it was read for good.
fn read(log: &str) -> (Vec<ExportEvent>, usize) {
    read_bytes(log.as_bytes(), &mut SeenSessions::new())
}

fn read_bytes(log: &[u8], seen: &mut SeenSessions) -> (Vec<ExportEvent>, usize) {
    let mut out = Vec::new();
    let position = read_session_log(&log.to_vec(), seen, &recorder(), &mut out);
    (out, position)
}

#[test]
fn test_empty_data_directory() {
    assert!(export_tmux_events(&Vec::new(), None).is_empty());
    let (events, position) = read("");
    assert!(events.is_empty());
    assert_eq!(position, 0);
}

#[test]
fn test_tmux_events_passthrough() {
    let event = r#"{"id":"remote.tmux:tmux_pane_focus:2025-01-29T12:00:00.000Z:%3","timestamp":"2025-01-29T12:00:00.000Z","source":"remote.tmux","type":"tmux_pane_focus","data":{"pane_id":"%3","session_name":"dev","cwd":"/home/user"}}"#;
    let lines = export_tmux_events(&format!("{event}\n").into_bytes(), None);
    assert_eq!(lines, [event]);
}

#[test]
fn test_malformed_line_skipped() {
    let content = r#"{"id":"1","timestamp":"2025-01-29T12:00:00Z","source":"remote.tmux","type":"test","data":{}}
not valid json
{"id":"2","timestamp":"2025-01-29T12:01:00Z","source":"remote.tmux","type":"test","data":{}}
"#;
    let lines = export_tmux_events(&content.as_bytes().to_vec(), None);
    assert_eq!(lines.len(), 2); // Only valid lines
}

#[test]
fn export_test_empty_lines_skipped() {
    let content = r#"{"id":"1","timestamp":"2025-01-29T12:00:00Z","source":"remote.tmux","type":"test","data":{}}

{"id":"2","timestamp":"2025-01-29T12:01:00Z","source":"remote.tmux","type":"test","data":{}}
"#;
    assert_eq!(export_tmux_events(&content.as_bytes().to_vec(), None).len(), 2);
}

#[test]
fn lines_pass_without_their_ends_and_broken_ones_are_left_out() {
    let mut content = b"{\"a\":1}\r\n\xff\xfe{}\n".to_vec();
    content.extend_from_slice(b"[1]\r");
    // A carriage return at the very end is white space of the line itself.
    assert_eq!(export_tmux_events(&content, None), ["{\"a\":1}", "[1]\r"]);
}

#[test]
fn test_export_after_filters_events() {
    let events = vec![
        format!(r#"{{"id":"{TEST_MACHINE_ID}:remote.tmux:tmux_pane_focus:2025-01-01T00:00:00.000Z:%1","timestamp":"2025-01-01T00:00:00.000Z","source":"remote.tmux","type":"tmux_pane_focus","pane_id":"%1","tmux_session":"main","cwd":"/tmp"}}"#),
        format!(r#"{{"id":"{TEST_MACHINE_ID}:remote.tmux:tmux_pane_focus:2025-01-01T00:01:00.000Z:%1","timestamp":"2025-01-01T00:01:00.000Z","source":"remote.tmux","type":"tmux_pane_focus","pane_id":"%1","tmux_session":"main","cwd":"/tmp"}}"#),
        format!(r#"{{"id":"{TEST_MACHINE_ID}:remote.tmux:tmux_pane_focus:2025-01-01T00:02:00.000Z:%1","timestamp":"2025-01-01T00:02:00.000Z","source":"remote.tmux","type":"tmux_pane_focus","pane_id":"%1","tmux_session":"main","cwd":"/tmp"}}"#),
    ];
    let content = (events.join("\n") + "\n").into_bytes();
    let after_id = format!("{TEST_MACHINE_ID}:remote.tmux:tmux_pane_focus:2025-01-01T00:01:00.000Z:%1");

    let lines = export_tmux_events(&content, Some(&after_id));

    assert_eq!(lines.len(), 1);
    assert!(lines[0].contains("00:02:00"));
    assert!(export_tmux_events(&content, Some("no such id")).is_empty());
}

#[test]
fn test_claude_session_start_event() {
    let (events, _) = read(
        r#"{"type":"user","sessionId":"sess123","timestamp":"2025-01-29T12:00:00Z","cwd":"/home/user/project","message":{"content":"hello"}}
"#,
    );
    // Should have 2 events: session start + user message
    assert_eq!(events.len(), 2);
    assert_eq!(events[0].event_type, "agent_session");
    assert_eq!(events[0].source, "remote.agent");
    assert_eq!(events[0].timestamp, "2025-01-29T12:00:00Z");
    assert_eq!(
        events[0].id,
        format!("{TEST_MACHINE_ID}:remote.agent:agent_session:2025-01-29T12:00:00Z:sess123:started")
    );
    match &events[0].data {
        ExportData::AgentSession(data) => {
            assert_eq!(data.action, "started");
            assert_eq!(data.agent, "agent");
            assert_eq!(data.session_id, "sess123");
            assert_eq!(data.cwd.as_deref(), Some("/home/user/project"));
        }
        other => panic!("{other:?}"),
    }
}

#[test]
fn test_claude_user_message_event() {
    let (events, _) = read(
        r#"{"type":"user","sessionId":"sess123","timestamp":"2025-01-29T12:00:00Z","uuid":"msg-uuid-123","message":{"content":"hello world"}}
"#,
    );
    assert_eq!(events[1].event_type, "user_message");
    assert_eq!(
        events[1].id,
        format!("{TEST_MACHINE_ID}:remote.agent:user_message:2025-01-29T12:00:00Z:msg-uuid-123")
    );
    match &events[1].data {
        ExportData::UserMessage(data) => {
            assert_eq!(data.length, 11); // "hello world".len()
            assert_eq!(data.has_image, false);
        }
        other => panic!("{other:?}"),
    }
}

#[test]
fn test_claude_tool_result_filtered() {
    let entry = r#"{"type":"user","sessionId":"sess123","timestamp":"2025-01-29T12:00:00Z","message":{"content":[{"type":"tool_result","tool_use_id":"tool123","content":"result"}]}}"#;
    assert!(is_tool_result(&json(entry)));
    let (events, _) = read(&format!("{entry}\n"));
    // Should only have session start, no user_message for tool_result
    assert_eq!(events.len(), 1);
    assert_eq!(events[0].event_type, "agent_session");
}

#[test]
fn test_claude_tool_use_event() {
    let (events, _) = read(
        r#"{"type":"assistant","sessionId":"sess123","timestamp":"2025-01-29T12:00:00Z","message":{"content":[{"type":"tool_use","id":"tool123","name":"Read","input":{"file_path":"/home/user/file.rs"}}]}}
"#,
    );
    // Should have session start + tool use
    assert_eq!(events.len(), 2);
    assert_eq!(events[1].event_type, "agent_tool_use");
    match &events[1].data {
        ExportData::AgentToolUse(data) => {
            assert_eq!(data.tool, "Read");
            assert_eq!(data.file.as_deref(), Some("/home/user/file.rs"));
        }
        other => panic!("{other:?}"),
    }
}

#[test]
fn test_multiple_tool_use_per_message() {
    let (events, _) = read(
        r#"{"type":"assistant","sessionId":"sess123","timestamp":"2025-01-29T12:00:00Z","message":{"content":[{"type":"tool_use","id":"tool1","name":"Read","input":{"file_path":"/a.rs"}},{"type":"tool_use","id":"tool2","name":"Edit","input":{"file_path":"/b.rs"}}]}}
"#,
    );
    // Should have session start + 2 tool use events
    assert_eq!(events.len(), 3);
}

#[test]
fn a_tool_use_that_says_nothing_is_unknown() {
    let (events, _) = read(
        r#"{"type":"assistant","sessionId":"s","timestamp":"t","message":{"content":[{"type":"tool_use"},{"type":"text","text":"x"}]}}"#,
    );
    assert_eq!(events.len(), 2);
    assert_eq!(
        events[1].id,
        format!("{TEST_MACHINE_ID}:remote.agent:agent_tool_use:t:unknown")
    );
    match &events[1].data {
        ExportData::AgentToolUse(data) => {
            assert_eq!(data.tool, "unknown");
            assert_eq!(data.file, None);
        }
        other => panic!("{other:?}"),
    }
}

#[test]
fn test_filtered_entry_types() {
    let entries = r#"{"type":"progress","sessionId":"sess123","timestamp":"2025-01-29T12:00:00Z"}
{"type":"file-history-snapshot","sessionId":"sess123","timestamp":"2025-01-29T12:01:00Z"}
{"type":"summary","sessionId":"sess123","timestamp":"2025-01-29T12:02:00Z"}
{"type":"system","sessionId":"sess123","timestamp":"2025-01-29T12:03:00Z"}
"#;
    let (events, position) = read(entries);
    // No events should be emitted for filtered types
    assert!(events.is_empty());
    assert_eq!(position, entries.len());
}

#[test]
fn test_filtered_entries_mixed_with_valid() {
    let (events, _) = read(
        r#"{"type":"progress","sessionId":"sess123","timestamp":"2025-01-29T12:00:00Z"}
{"type":"user","sessionId":"sess123","timestamp":"2025-01-29T12:01:00Z","message":{"content":"hello"}}
{"type":"summary","sessionId":"sess123","timestamp":"2025-01-29T12:02:00Z"}
"#,
    );
    assert_eq!(events.len(), 2);
    assert_eq!(events[0].event_type, "agent_session");
    assert_eq!(events[1].event_type, "user_message");
}

#[test]
fn test_deterministic_ids() {
    let entry = r#"{"type":"user","sessionId":"sess123","timestamp":"2025-01-29T12:00:00Z","uuid":"msg-uuid","message":{"content":"hello"}}
"#;
    let ids = |log: &str| -> Vec<String> { read(log).0.into_iter().map(|e| e.id).collect() };
    assert_eq!(ids(entry), ids(entry));
}

#[test]
fn test_subagents_directory_excluded() {
    assert!(!is_project_dir("subagents"));
    assert!(is_project_dir("test-project"));
    assert!(is_session_log("session.jsonl"));
    assert!(is_session_log("a.b.jsonl"));
    assert!(!is_session_log("session.json"));
    assert!(!is_session_log("jsonl"));
    assert!(!is_session_log(".jsonl"));
    assert!(!is_session_log("session.jsonl.1"));
}

#[test]
fn test_extract_file_for_various_tools() {
    // Edit, Read, Write, NotebookEdit use file_path
    let input = json(r#"{"file_path": "/path/to/file.rs"}"#);
    assert_eq!(
        extract_file("Edit", &input),
        Some("/path/to/file.rs".to_string())
    );
    assert_eq!(
        extract_file("Read", &input),
        Some("/path/to/file.rs".to_string())
    );
    assert_eq!(
        extract_file("Write", &input),
        Some("/path/to/file.rs".to_string())
    );
    assert_eq!(
        extract_file("NotebookEdit", &input),
        Some("/path/to/file.rs".to_string())
    );

    // Glob, Grep use path
    let input = json(r#"{"path": "/search/path"}"#);
    assert_eq!(
        extract_file("Glob", &input),
        Some("/search/path".to_string())
    );
    assert_eq!(
        extract_file("Grep", &input),
        Some("/search/path".to_string())
    );

    // Unknown tools return None
    let input = json(r#"{"file_path": "/path"}"#);
    assert_eq!(extract_file("Task", &input), None);
    assert_eq!(extract_file("Bash", &input), None);
    assert_eq!(extract_file("Read", &Value::Null), None);
    assert_eq!(extract_file("Read", &json(r#"{"file_path": 7}"#)), None);
}

#[test]
fn test_message_with_image() {
    let content = json(
        r#"[{"type": "text", "text": "look at this"}, {"type": "image", "source": {"type": "base64"}}]"#,
    );
    let (length, has_image) = extract_message_info(Some(&content));
    assert_eq!(length, 12); // "look at this".len()
    assert!(has_image);
    assert_eq!(extract_message_info(None), (0, false));
    assert_eq!(extract_message_info(Some(&json("7"))), (0, false));
    assert_eq!(extract_message_info(Some(&json("\"é\""))), (2, false));
}

#[test]
fn test_incremental_export_only_new_lines() {
    let entry1 = r#"{"type":"user","sessionId":"sess1","timestamp":"2025-01-29T12:00:00Z","message":{"content":"hello"}}"#;
    let entry2 = r#"{"type":"user","sessionId":"sess1","timestamp":"2025-01-29T12:01:00Z","message":{"content":"world"}}"#;
    let first_log = format!("{entry1}\n");
    let (first, position) = read(&first_log);
    assert_eq!(first.len(), 2, "first export should have 2 events");
    assert_eq!(position, first_log.len());

    let whole = format!("{entry1}\n{entry2}\n");
    let (second, _) = read(&whole[position..]);
    assert_eq!(
        second.len(),
        2,
        "second export should have session_start + new user_message"
    );
    assert_eq!(second[0].event_type, "agent_session");
    assert_eq!(second[1].event_type, "user_message");
}

#[test]
fn a_log_read_in_two_parts_gives_what_the_whole_gives() {
    let entry1 = r#"{"type":"user","sessionId":"s1","timestamp":"t1","message":{"content":"hello"}}"#;
    let entry2 = r#"{"type":"user","sessionId":"s2","timestamp":"t2","message":{"content":"world"}}"#;
    let entry3 = r#"{"type":"user","sessionId":"s1","timestamp":"t3","message":{"content":"again"}}"#;
    let first = format!("{entry1}\nbroken\n{entry2}\n");
    let more = format!("{entry3}\n");
    let (whole, end) = read(&format!("{first}{more}"));

    let mut seen = SeenSessions::new();
    let (before, position) = read_bytes(first.as_bytes(), &mut seen);
    assert_eq!(position, first.len());
    let (after, further) = read_bytes(more.as_bytes(), &mut seen);

    let ids = |events: &[ExportEvent]| -> Vec<String> {
        events.iter().map(|e| e.id.clone()).collect()
    };
    assert_eq!(ids(&whole), [ids(&before), ids(&after)].concat());
    assert_eq!(end, position + further);
    // Each session starts once.
    let starts = whole.iter().filter(|e| e.event_type == "agent_session").count();
    assert_eq!(starts, 2);
}

#[test]
fn an_unfinished_line_is_read_again_and_bytes_that_are_no_text_end_the_log() {
    let entry = r#"{"type":"user","sessionId":"s1","timestamp":"t1","message":{"content":"hello"}}"#;
    let log = format!("{entry}\n{{\"type\":\"us");
    let (events, position) = read(&log);
    assert_eq!(events.len(), 2);
    assert_eq!(position, entry.len() + 1);

    let mut bytes = format!("{entry}\n").into_bytes();
    bytes.extend_from_slice(b"\xff\n");
    bytes.extend_from_slice(format!("{entry}\n").as_bytes());
    let (events, position) = read_bytes(&bytes, &mut SeenSessions::new());
    assert_eq!(events.len(), 2);
    assert_eq!(position, entry.len() + 1);
}

#[test]
fn test_file_truncated_restart_from_zero() {
    let entry1 = r#"{"type":"user","sessionId":"sess1","timestamp":"2025-01-29T12:00:00Z","message":{"content":"hello world this is a longer message"}}"#;
    let (_, old_offset) = read(&format!("{entry1}\n"));
    let entry2 = r#"{"type":"user","sessionId":"sess2","timestamp":"2025-01-29T13:00:00Z","message":{"content":"hi"}}"#;
    let log = format!("{entry2}\n");
    assert!(
        log.len() < old_offset,
        "new file should be smaller than old offset"
    );
    assert_eq!(resume_offset(old_offset as u64, log.len() as u64), 0);
    assert_eq!(resume_offset(log.len() as u64, log.len() as u64), log.len() as u64);
    let (events, _) = read(&log);
    assert_eq!(events.len(), 2);
    match &events[0].data {
        ExportData::AgentSession(data) => assert_eq!(data.session_id, "sess2"),
        other => panic!("{other:?}"),
    }
}

#[test]
fn test_deleted_file_removed_from_manifest() {
    let mut manifest = ClaudeManifest::default();
    manifest.record("/logs/a.jsonl", Some(10));
    manifest.record("/logs/b.jsonl", Some(20));
    assert_eq!(manifest.offset("/logs/a.jsonl"), 10);
    manifest.retain(&vec!["/logs/b.jsonl".to_string(), "/logs/c.jsonl".to_string()]);
    assert_eq!(
        manifest.offset("/logs/a.jsonl"),
        0,
        "deleted file should be removed from manifest"
    );
    assert_eq!(manifest.offset("/logs/b.jsonl"), 20);
    assert_eq!(manifest.sessions.len(), 1);
}

#[test]
fn test_multiple_files_tracked_independently() {
    let mut manifest = ClaudeManifest::default();
    manifest.record("session1.jsonl", Some(5));
    manifest.record("session2.jsonl", Some(7));
    manifest.record("session1.jsonl", Some(9));
    // What is recorded stays where reading failed.
    manifest.record("session2.jsonl", None);
    assert_eq!(manifest.offset("session1.jsonl"), 9);
    assert_eq!(manifest.offset("session2.jsonl"), 7);
    assert_eq!(manifest.sessions.len(), 2);
}

#[test]
fn test_offset_at_eof_no_new_content() {
    let entry = r#"{"type":"user","sessionId":"sess1","timestamp":"2025-01-29T12:00:00Z","message":{"content":"hello"}}"#;
    let log = format!("{entry}\n");
    let (_, position) = read(&log);
    let (events, further) = read(&log[position..]);
    assert!(events.is_empty());
    assert_eq!(further, 0);
}

#[test]
fn test_empty_file_handled_gracefully() {
    let (events, position) = read("");
    assert!(events.is_empty());
    assert_eq!(position, 0);
}

#[test]
fn exported_events_tell_their_machine() {
    let log = r#"{"type":"user","sessionId":"abc123","timestamp":"2025-01-29T12:00:00.000Z","cwd":"/p","message":{"role":"user","content":"Hello"}}
"#;
    let (events, _) = read(log);
    assert!(!events.is_empty());
    for event in &events {
        assert_eq!(extract_machine_id(&event.id).as_deref(), Some(TEST_MACHINE_ID));
    }
}

#[test]
fn a_log_that_grows_within_a_line_is_read_on_without_loss_or_repetition() {
    let entry1 = r#"{"type":"user","sessionId":"s1","timestamp":"t1","message":{"content":"hello"}}"#;
    let entry2 = r#"{"type":"user","sessionId":"s1","timestamp":"t2","message":{"content":"wörld"}}"#;
    let log = format!("{entry1}\nbroken\n{entry2}\n");
    let (whole, end) = read(&log);
    let ids = |events: &[ExportEvent]| -> Vec<String> {
        events.iter().map(|e| e.id.clone()).collect()
    };
    // Also where the first part ends within a character.
    for cut in 0..log.len() {
        let mut seen = SeenSessions::new();
        let (before, position) = read_bytes(&log.as_bytes()[..cut], &mut seen);
        if position > 0 && log.as_bytes()[position - 1] != b'\n' {
            continue;
        }
        let (after, further) = read_bytes(&log.as_bytes()[position..], &mut seen);
        assert_eq!([ids(&before), ids(&after)].concat(), ids(&whole), "cut at {cut}");
        assert_eq!(position + further, end);
    }
}

#[test]
fn starting_behind_an_id_gives_the_last_lines() {
    let content = b"{\"id\":\"a\"}\nbroken\n{\"id\":\"b\"}\n{\"id\":\"c\"}\n".to_vec();
    let all = export_tmux_events(&content, None);
    assert_eq!(all.len(), 3);
    assert_eq!(export_tmux_events(&content, Some("\"b\"")), all[2..]);
    assert!(export_tmux_events(&content, Some("missing")).is_empty());
}

#[test]
fn test_combined_tmux_and_claude() {
    let tmux_event = r#"{"id":"tmux1","timestamp":"2025-01-29T11:00:00Z","source":"remote.tmux","type":"tmux_pane_focus","data":{}}"#;
    let lines = export_tmux_events(&format!("{tmux_event}\n").into_bytes(), None);
    let entry = r#"{"type":"user","sessionId":"sess123","timestamp":"2025-01-29T12:00:00Z","message":{"content":"hi"}}"#;
    let (events, _) = read(&format!("{entry}\n"));
    // tmux event + session start + user message
    assert_eq!(lines.len() + events.len(), 3);
}
