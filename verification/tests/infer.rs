//! Inferred streams, and the identity of a machine.
use tt_cli::infer::{cleared_line, early_end_line, fresh_stream, summary, InferredStream};
use tt_cli::init::identity_text;
use tt_cli::time::Timestamp;

fn ts(minutes: i64) -> Timestamp {
    // 2025-01-15T09:00:00Z, and minutes after it.
    Timestamp::from_parts(1_736_931_600 + 60 * minutes, 0).unwrap()
}

fn inferred(id: &str, name: &str, from: i64, to: i64) -> InferredStream {
    InferredStream {
        id: id.to_string(),
        name: name.to_string(),
        first_event_at: ts(from),
        last_event_at: ts(to),
    }
}

fn pair(event: &str, stream: &str) -> (String, String) {
    (event.to_string(), stream.to_string())
}

#[test]
fn test_infer_creates_streams() {
    let streams = vec![inferred("a", "project-a", 0, 5), inferred("b", "project-b", 10, 10)];
    let assignments = vec![pair("e1", "a"), pair("e2", "a"), pair("e3", "b")];
    assert_eq!(early_end_line(3, streams.len()), None);
    assert_eq!(
        summary(&streams, &assignments, 3),
        "Created 2 stream(s), assigned 3 event(s)\n  project-a (2 events)\n  project-b (1 events)\n"
    );
    let fresh = fresh_stream(&streams[0], ts(60), ts(61));
    assert_eq!(fresh.id, "a");
    assert_eq!(fresh.name.as_deref(), Some("project-a"));
    assert_eq!((fresh.created_at, fresh.updated_at), (ts(60), ts(61)));
    assert_eq!((fresh.time_direct_ms, fresh.time_delegated_ms), (0, 0));
    assert_eq!(fresh.first_event_at, Some(ts(0)));
    assert_eq!(fresh.last_event_at, Some(ts(5)));
    assert!(fresh.needs_recompute);
}

#[test]
fn test_infer_force_clears_and_reinfers() {
    assert_eq!(
        cleared_line(2, 1),
        "Cleared 2 inferred assignments, deleted 1 orphaned streams"
    );
}

#[test]
fn test_infer_empty_database() {
    assert_eq!(early_end_line(0, 0).as_deref(), Some("No events to process"));
    assert_eq!(
        early_end_line(4, 0).as_deref(),
        Some("No new streams created (all events already assigned)")
    );
}

#[test]
fn an_identity_is_told_with_its_file() {
    assert_eq!(
        identity_text("id-1", "devbox", "/data/machine.json"),
        "Machine ID: id-1\nLabel:      devbox\nSaved to:   /data/machine.json\n"
    );
}
