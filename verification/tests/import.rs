//! Import of exported events.
use std::collections::HashSet;

use serde_json::Value;

use tt_cli::ids::extract_machine_id;
use tt_cli::import::{
    import_line, is_session_metadata_record, rename_session_type, result_line,
    rewrite_legacy_session_types, Import, ImportLine, ImportResult, BATCH_SIZE,
};
use tt_cli::model::{EventType, StoredEvent};
use tt_cli::time::Timestamp;

fn make_jsonl_event(id: &str, ts: &str) -> String {
    format!(
        r#"{{"id":"{id}","timestamp":"{ts}","source":"remote.tmux","type":"tmux_pane_focus","data":{{}}}}"#
    )
}

fn text(value: &Value, key: &str) -> Option<String> {
    value.get(key).and_then(Value::as_str).map(String::from)
}

/// Reads an event from its text.
fn read_event(line: &str) -> Option<StoredEvent> {
    let value: Value = serde_json::from_str(line).ok()?;
    Some(StoredEvent {
        id: text(&value, "id")?,
        timestamp: Timestamp::parse(&text(&value, "timestamp")?)?,
        event_type: match text(&value, "type")?.as_str() {
            "tmux_pane_focus" => EventType::TmuxPaneFocus,
            "agent_session" => EventType::AgentSession,
            other => EventType::Other(other.to_string()),
        },
        source: text(&value, "source")?,
        machine_id: text(&value, "machine_id"),
        schema_version: value.get("schema_version").and_then(Value::as_i64).unwrap_or(1) as i32,
        pane_id: text(&value, "pane_id"),
        tmux_session: text(&value, "tmux_session"),
        window_index: None,
        git_project: None,
        git_workspace: None,
        status: None,
        idle_duration_ms: None,
        window_app_id: None,
        window_title: None,
        action: text(&value, "action"),
        cwd: text(&value, "cwd"),
        session_id: text(&value, "session_id"),
        stream_id: text(&value, "stream_id"),
        assignment_source: text(&value, "assignment_source"),
        data: value.get("data").map_or_else(|| "{}".to_string(), Value::to_string),
    })
}

/// A store that ignores what it has.
#[derive(Default)]
struct Store {
    ids: HashSet<String>,
    events: Vec<StoredEvent>,
    sessions: HashSet<String>,
}

impl Store {
    fn insert(&mut self, batch: &[StoredEvent]) -> usize {
        let before = self.ids.len();
        for event in batch {
            if self.ids.insert(event.id.clone()) {
                self.events.push(event.clone());
            }
        }
        self.ids.len() - before
    }
}

fn import(store: &mut Store, input: &str) -> ImportResult {
    let mut import = Import::new();
    for line in input.lines() {
        match import_line(line) {
            ImportLine::Blank => {}
            ImportLine::Metadata => {
                let value: Value = serde_json::from_str(line).unwrap();
                if text(&value, "source").as_deref() == Some("opencode") {
                    store.sessions.insert(text(&value, "session_id").unwrap());
                    import.record_session(text(&value, "machine_id"));
                }
            }
            ImportLine::Malformed => import.record_malformed(),
            ImportLine::Event(line) => match read_event(&line) {
                Some(event) => {
                    if import.record_event(event) {
                        let inserted = store.insert(import.batch());
                        import.record_stored(inserted);
                    }
                }
                None => import.record_malformed(),
            },
        }
    }
    let inserted = store.insert(import.batch());
    import.record_stored(inserted);
    import.finish()
}

#[test]
fn test_empty_stdin_returns_zero_counts() {
    let result = import(&mut Store::default(), "");
    assert_eq!(result.total_read, 0);
    assert_eq!(result.inserted, 0);
    assert_eq!(result.duplicates, 0);
    assert_eq!(result.malformed, 0);
}

#[test]
fn test_valid_jsonl_all_inserted() {
    let mut store = Store::default();
    let input = format!(
        "{}\n{}\n",
        make_jsonl_event("e1", "2025-01-29T12:00:00Z"),
        make_jsonl_event("e2", "2025-01-29T12:01:00Z")
    );
    let result = import(&mut store, &input);
    assert_eq!(result.total_read, 2);
    assert_eq!(result.inserted, 2);
    assert_eq!(result.duplicates, 0);
    assert_eq!(result.malformed, 0);
    assert_eq!(store.events.len(), 2);
}

#[test]
fn test_malformed_lines_skipped() {
    let input = format!(
        "{}\nnot valid json\n{}\n",
        make_jsonl_event("e1", "2025-01-29T12:00:00Z"),
        make_jsonl_event("e2", "2025-01-29T12:01:00Z")
    );
    let result = import(&mut Store::default(), &input);
    assert_eq!(result.total_read, 2);
    assert_eq!(result.inserted, 2);
    assert_eq!(result.duplicates, 0);
    assert_eq!(result.malformed, 1);
}

#[test]
fn test_duplicate_events_idempotent() {
    let mut store = Store::default();
    let event_line = make_jsonl_event("dup-id", "2025-01-29T12:00:00Z");

    let result1 = import(&mut store, &format!("{event_line}\n"));
    assert_eq!(result1.inserted, 1);
    assert_eq!(result1.duplicates, 0);

    let result2 = import(&mut store, &format!("{event_line}\n"));
    assert_eq!(result2.total_read, 1);
    assert_eq!(result2.inserted, 0);
    assert_eq!(result2.duplicates, 1);

    assert_eq!(store.events.len(), 1);
}

#[test]
fn test_mixed_valid_invalid_partial_success() {
    let input = format!(
        "{}\n{{\n{}\n",
        make_jsonl_event("e1", "2025-01-29T12:00:00Z"),
        make_jsonl_event("e2", "2025-01-29T12:01:00Z")
    );
    let result = import(&mut Store::default(), &input);
    assert_eq!(result.total_read, 2);
    assert_eq!(result.inserted, 2);
    assert_eq!(result.malformed, 1);
}

#[test]
fn import_test_empty_lines_skipped() {
    let input = format!(
        "{}\n\n   \n{}\n",
        make_jsonl_event("e1", "2025-01-29T12:00:00Z"),
        make_jsonl_event("e2", "2025-01-29T12:01:00Z")
    );
    let result = import(&mut Store::default(), &input);
    assert_eq!(result.total_read, 2);
    assert_eq!(result.inserted, 2);
    assert_eq!(result.malformed, 0);
}

#[test]
fn test_import_legacy_session_types_rewritten() {
    let mut store = Store::default();
    let input = r#"{"id":"legacy-start","timestamp":"2025-01-29T12:00:00Z","source":"remote.agent","type":"session_start","session_id":"sess123"}
{"id":"legacy-end","timestamp":"2025-01-29T12:05:00Z","source":"remote.agent","type":"session_end","session_id":"sess123"}
"#;
    let result = import(&mut store, input);
    assert_eq!(result.inserted, 2);
    assert_eq!(result.malformed, 0);
    let start = store.events.iter().find(|event| event.id == "legacy-start").unwrap();
    let end = store.events.iter().find(|event| event.id == "legacy-end").unwrap();
    assert!(matches!(start.event_type, EventType::AgentSession));
    assert_eq!(start.action.as_deref(), Some("started"));
    assert!(matches!(end.event_type, EventType::AgentSession));
    assert_eq!(end.action.as_deref(), Some("ended"));
}

#[test]
fn only_a_legacy_type_itself_is_replaced() {
    assert_eq!(
        rewrite_legacy_session_types(r#"{"type":"session_start","x":1.5}"#).unwrap(),
        r#"{"action":"started","type":"agent_session","x":1.5}"#
    );
    let quoted = r#"{"note":"session_end","type":"other"}"#;
    assert_eq!(rewrite_legacy_session_types(quoted).unwrap(), quoted);
    let plain = r#"{"type":  "user_message"}"#;
    assert_eq!(rewrite_legacy_session_types(plain).unwrap(), plain);
    assert_eq!(rewrite_legacy_session_types(r#"{"type":"session_start""#), None);
    assert_eq!(rewrite_legacy_session_types("broken"), Some("broken".to_string()));
}

#[test]
fn test_batch_processing_large_input() {
    let mut store = Store::default();
    let num_events = BATCH_SIZE + 500;
    let mut input = String::new();
    for i in 0..num_events {
        let ts = Timestamp::from_parts(1_738_152_000 + i as i64, 0).unwrap();
        input.push_str(&format!(
            r#"{{"id":"batch-{}","timestamp":"{}","source":"test","type":"tmux_pane_focus","data":{{}}}}"#,
            i,
            ts.to_rfc3339()
        ));
        input.push('\n');
    }
    let result = import(&mut store, &input);
    assert_eq!(result.total_read, num_events);
    assert_eq!(result.inserted, num_events);
    assert_eq!(result.duplicates, 0);
    assert_eq!(store.events.len(), num_events);
}

#[test]
fn test_extract_machine_id_valid() {
    let id = "a1b2c3d4-e5f6-7890-abcd-ef1234567890:remote.tmux:tmux_pane_focus:2025-01-29T12:00:00.000Z:%1";
    assert_eq!(
        extract_machine_id(id),
        Some("a1b2c3d4-e5f6-7890-abcd-ef1234567890".to_string())
    );
}

#[test]
fn test_extract_machine_id_no_uuid() {
    let id = "remote.tmux:tmux_pane_focus:2025-01-29T12:00:00.000Z:%1";
    assert_eq!(extract_machine_id(id), None);
}

#[test]
fn test_extract_machine_id_invalid_uuid() {
    let id = "not-a-valid-uuid-at-all-but-36chars:remote.tmux:foo";
    assert_eq!(extract_machine_id(id), None);
}

const MACHINE_EVENT: &str = r#"{"id":"a1b2c3d4-e5f6-7890-abcd-ef1234567890:remote.tmux:tmux_pane_focus:2025-01-29T12:00:00.000Z:%1","timestamp":"2025-01-29T12:00:00.000Z","source":"remote.tmux","type":"tmux_pane_focus","pane_id":"%1","tmux_session":"main","cwd":"/tmp","stream_id":"elsewhere","assignment_source":"user"}"#;

#[test]
fn test_import_populates_machine_id() {
    let mut store = Store::default();
    let result = import(&mut store, MACHINE_EVENT);
    assert_eq!(result.inserted, 1);
    assert_eq!(store.events.len(), 1);
    assert_eq!(
        store.events[0].machine_id.as_deref(),
        Some("a1b2c3d4-e5f6-7890-abcd-ef1234567890")
    );
    // Streams of another machine are not taken over.
    assert_eq!(store.events[0].stream_id, None);
    assert_eq!(store.events[0].assignment_source, None);
    assert_eq!(store.events[0].cwd.as_deref(), Some("/tmp"));
}

#[test]
fn test_import_result_has_machine_id() {
    let result = import(&mut Store::default(), MACHINE_EVENT);
    assert_eq!(
        result.machine_id,
        Some("a1b2c3d4-e5f6-7890-abcd-ef1234567890".to_string())
    );
}

#[test]
fn test_import_invalid_session_metadata_not_malformed() {
    let bad_metadata = r#"{"type":"session_metadata","session_id":"ses_bad","source":"unknown_agent","session_type":"user","project_path":"/p","project_name":"p","start_time":"2025-01-29T12:00:00.000Z","message_count":1,"assistant_message_count":0,"tool_call_count":0}"#;
    let result = import(&mut Store::default(), bad_metadata);
    // Should NOT be counted as malformed (it's recognized metadata, just invalid)
    assert_eq!(result.malformed, 0);
    // Should NOT be imported (conversion failed)
    assert_eq!(result.total_read, 0);
}

#[test]
fn test_import_session_metadata() {
    let mut store = Store::default();
    let metadata_line = r#"{"type":"session_metadata","session_id":"ses_import_1","source":"opencode","session_type":"user","project_path":"/home/user/project","project_name":"project","start_time":"2025-01-29T12:00:00.000Z","end_time":"2025-01-29T13:00:00.000Z","message_count":10,"summary":"test session","user_prompts":["hello"],"starting_prompt":"hello","assistant_message_count":5,"tool_call_count":3}"#;
    let event_line = make_jsonl_event("e1", "2025-01-29T12:00:00Z");
    let result = import(&mut store, &format!("{event_line}\n{metadata_line}\n"));
    assert_eq!(result.total_read, 1); // Only the event counts as total_read
    assert_eq!(result.inserted, 1);
    assert_eq!(result.sessions_imported, 1);
    assert_eq!(result.malformed, 0);
    assert!(store.sessions.contains("ses_import_1"));
}

#[test]
fn test_import_session_metadata_idempotent() {
    let mut store = Store::default();
    let metadata_line = r#"{"type":"session_metadata","session_id":"ses_idem","source":"opencode","session_type":"user","project_path":"/home/user/p","project_name":"p","start_time":"2025-01-29T12:00:00.000Z","message_count":5,"assistant_message_count":2,"tool_call_count":1}"#;
    // Import twice
    let result1 = import(&mut store, &format!("{metadata_line}\n"));
    assert_eq!(result1.sessions_imported, 1);
    let result2 = import(&mut store, &format!("{metadata_line}\n"));
    assert_eq!(result2.sessions_imported, 1);
    // Should still be just 1 session
    assert_eq!(store.sessions.len(), 1);
}

#[test]
fn test_export_event_format_compatibility() {
    // Note: `type`, not `event_type`.
    let export_event = r#"{"id":"remote.agent:agent_session:2025-01-29T12:00:00Z:sess123:started","timestamp":"2025-01-29T12:00:00Z","source":"remote.agent","type":"agent_session","data":{"action":"started","agent":"code","session_id":"sess123"}}"#;
    let mut store = Store::default();
    let result = import(&mut store, &format!("{export_event}\n"));
    assert_eq!(result.inserted, 1);
    assert_eq!(result.malformed, 0);
    assert_eq!(store.events.len(), 1);
    assert!(matches!(store.events[0].event_type, EventType::AgentSession));
    assert_eq!(store.events[0].source, "remote.agent");
}

#[test]
fn metadata_is_told_by_its_type_and_not_by_its_words() {
    assert!(is_session_metadata_record(r#"{"type":"session_metadata"}"#));
    assert!(!is_session_metadata_record(r#"{"type":"note","text":"session_metadata"}"#));
    assert!(!is_session_metadata_record(r#"{"type":"session_metadata""#));
    assert!(!is_session_metadata_record(r#"["session_metadata"]"#));
}

#[test]
fn test_import_old_format_without_metadata() {
    let input = format!(
        "{}\n{}\n",
        make_jsonl_event("e1", "2025-01-29T12:00:00Z"),
        make_jsonl_event("e2", "2025-01-29T12:01:00Z")
    );
    let result = import(&mut Store::default(), &input);
    assert_eq!(result.total_read, 2);
    assert_eq!(result.inserted, 2);
    assert_eq!(result.sessions_imported, 0);
    assert_eq!(result.malformed, 0);
}

#[test]
fn test_optional_fields_default() {
    let mut store = Store::default();
    let minimal_event = r#"{"id":"min-1","timestamp":"2025-01-29T12:00:00Z","source":"test","type":"tmux_pane_focus","data":{}}"#;
    let result = import(&mut store, &format!("{minimal_event}\n"));
    assert_eq!(result.inserted, 1);
    assert_eq!(store.events[0].schema_version, 1); // default
    assert_eq!(store.events[0].cwd, None);
    assert_eq!(store.events[0].session_id, None);
}

#[test]
fn test_events_with_all_fields() {
    let mut store = Store::default();
    let full_event = r#"{"id":"full-1","timestamp":"2025-01-29T12:00:00Z","source":"remote.agent","type":"agent_session","schema_version":2,"data":{"action":"started"},"cwd":"/home/user/project","session_id":"sess123"}"#;
    let result = import(&mut store, &format!("{full_event}\n"));
    assert_eq!(result.inserted, 1);
    assert_eq!(store.events[0].schema_version, 2);
    assert_eq!(store.events[0].cwd, Some("/home/user/project".to_string()));
    assert_eq!(store.events[0].session_id, Some("sess123".to_string()));
}

#[test]
fn an_import_is_told_in_one_line() {
    let result = ImportResult {
        total_read: 12,
        inserted: 9,
        duplicates: 3,
        malformed: 1,
        sessions_imported: 2,
        machine_id: None,
    };
    assert_eq!(
        result_line(&result),
        "Imported 12 events, 2 sessions (9 new, 3 duplicates, 1 malformed)"
    );
}

#[test]
fn replacing_a_legacy_type_again_changes_nothing() {
    let mut value: Value =
        serde_json::from_str(r#"{"type":"session_end","action":"x","n":1}"#).unwrap();
    rename_session_type(&mut value);
    assert_eq!(text(&value, "type").as_deref(), Some("agent_session"));
    assert_eq!(text(&value, "action").as_deref(), Some("ended"));
    let once = value.clone();
    rename_session_type(&mut value);
    assert_eq!(value, once);
}

#[test]
fn importing_twice_counts_the_same_and_adds_nothing() {
    let mut input = String::new();
    for i in 0..BATCH_SIZE + 3 {
        input += &make_jsonl_event(&format!("e{}", i % (BATCH_SIZE - 1)), "2025-01-29T12:00:00Z");
        input += "\n";
    }
    input += "broken\n\n";
    input += r#"{"type":"session_metadata","session_id":"ses_twice","source":"opencode"}"#;
    let mut store = Store::default();
    let first = import(&mut store, &input);
    assert_eq!(first.total_read, BATCH_SIZE + 3);
    assert_eq!(first.inserted, BATCH_SIZE - 1);
    assert_eq!(first.total_read, first.inserted + first.duplicates);
    let second = import(&mut store, &input);
    assert_eq!(second.inserted, 0);
    assert_eq!(second.duplicates, second.total_read);
    assert_eq!(second.total_read, first.total_read);
    assert_eq!((second.malformed, second.sessions_imported), (1, 1));
    assert_eq!((first.malformed, first.sessions_imported), (1, 1));
    assert_eq!(store.events.len(), BATCH_SIZE - 1);
}
