//! Runs of window focus.
use tt_cli::classify_auto::window_runs::{newest_first, synthesize_window_runs, WindowRun};
use tt_cli::model::{EventType, StoredEvent};
use tt_cli::time::Timestamp;

fn ts(minutes: i64) -> Timestamp {
    // 2026-01-01T00:00:00Z, and minutes after it.
    Timestamp::from_parts(1_767_225_600 + 60 * minutes, 0).unwrap()
}

fn window_event(
    id: &str,
    timestamp: Timestamp,
    app_id: &str,
    title: &str,
    machine_id: Option<&str>,
) -> StoredEvent {
    StoredEvent {
        id: id.to_string(),
        timestamp,
        event_type: EventType::WindowFocus,
        source: "watcher".to_string(),
        machine_id: machine_id.map(String::from),
        schema_version: 1,
        cwd: None,
        git_project: None,
        git_workspace: None,
        pane_id: None,
        tmux_session: None,
        window_index: None,
        status: None,
        idle_duration_ms: None,
        action: None,
        session_id: None,
        stream_id: None,
        assignment_source: None,
        data: "{}".to_string(),
        window_app_id: Some(app_id.to_string()),
        window_title: Some(title.to_string()),
    }
}

#[test]
fn groups_by_app_gap_and_machine() {
    let events = [
        window_event("a", ts(0), "brave", "PR #1", Some("m1")),
        window_event("b", ts(1), "brave", "PR #2", Some("m1")),
        window_event("c", ts(2), "slack", "Threads", Some("m1")),
        window_event("d", ts(90), "slack", "Threads", Some("m1")),
        window_event("e", ts(3), "brave", "PR #1", Some("m2")),
    ];
    let refs: Vec<_> = events.iter().collect();

    let runs = synthesize_window_runs(&refs);

    assert_eq!(runs.len(), 4);
    assert_eq!(runs[0].event_ids, ["a", "b"]);
    assert_eq!(runs[0].titles, ["PR #1", "PR #2"]);
    assert_eq!(runs[1].event_ids, ["c"]);
    assert_eq!(runs[2].event_ids, ["d"]);
    assert_eq!(runs[3].machine_id.as_deref(), Some("m2"));
}

#[test]
fn every_event_is_in_one_run_and_runs_hold_close_events() {
    let events = [
        window_event("a", ts(0), "brave", "t", None),
        window_event("b", ts(29), "brave", "t", None),
        window_event("c", ts(59), "brave", "t", None),
        window_event("d", ts(90), "brave", "t", None),
    ];
    let refs: Vec<_> = events.iter().collect();
    let runs = synthesize_window_runs(&refs);
    let ids: Vec<Vec<String>> = runs.iter().map(|run| run.event_ids.clone()).collect();
    assert_eq!(ids.concat(), ["a", "b", "c", "d"]);
    assert_eq!(runs.last().unwrap().event_ids, ["d"]);
    assert_eq!(runs[0].titles, ["t"]);
}

fn run_starting(start: &str) -> WindowRun {
    WindowRun {
        start: start.to_string(),
        end: start.to_string(),
        duration_minutes: 0,
        app_id: "brave".to_string(),
        event_ids: vec![start.to_string()],
        titles: Vec::new(),
        machine_id: None,
        stream_id: None,
    }
}

#[test]
fn orders_runs_newest_first_across_machines() {
    let runs = vec![
        run_starting(&ts(0).to_rfc3339()),
        run_starting(&ts(120).to_rfc3339()),
        run_starting(&ts(60).to_rfc3339()),
    ];

    let ordered = newest_first(runs);

    let starts: Vec<_> = ordered.iter().map(|run| run.start.clone()).collect();
    assert_eq!(
        starts,
        [
            ts(120).to_rfc3339(),
            ts(60).to_rfc3339(),
            ts(0).to_rfc3339()
        ]
    );
}

#[test]
fn a_run_whose_start_cannot_be_read_sorts_to_the_tail() {
    let runs = vec![
        run_starting("not a timestamp"),
        run_starting(&ts(0).to_rfc3339()),
        run_starting(&ts(60).to_rfc3339()),
    ];

    let ordered = newest_first(runs);

    assert_eq!(ordered[0].start, ts(60).to_rfc3339());
    assert_eq!(ordered[1].start, ts(0).to_rfc3339());
    assert_eq!(ordered[2].start, "not a timestamp");
}

#[test]
fn shown_times_are_read_back_and_decide_the_order() {
    let events = [
        window_event("a", ts(0), "brave", "t", None),
        window_event("b", ts(30), "brave", "t", None),
        window_event("c", ts(61), "brave", "t", None),
    ];
    let refs: Vec<_> = events.iter().collect();
    let runs = synthesize_window_runs(&refs);
    // Half an hour apart is another run.
    assert_eq!(runs.len(), 3);
    assert_eq!(runs[0].start, "2026-01-01T00:00:00+00:00");
    for (run, event) in runs.iter().zip(&events) {
        assert_eq!(Timestamp::parse(&run.start), Some(event.timestamp));
    }
    let starts: Vec<_> =
        newest_first(runs).iter().map(|run| Timestamp::parse(&run.start).unwrap()).collect();
    assert_eq!(starts, [ts(61), ts(30), ts(0)]);
}

#[test]
fn events_share_a_run_while_app_machine_and_time_allow() {
    let second = |id: &str, minutes: i64, app: &str, machine: Option<&str>| {
        window_event(id, ts(minutes), app, "t", machine)
    };
    for (event, runs) in [
        (second("b", 29, "brave", Some("m1")), 1),
        (second("b", 30, "brave", Some("m1")), 2),
        (second("b", 1, "slack", Some("m1")), 2),
        (second("b", 1, "brave", Some("m2")), 2),
        (second("b", 1, "brave", None), 2),
    ] {
        let events = [second("a", 0, "brave", Some("m1")), event];
        let refs: Vec<_> = events.iter().collect();
        let built = synthesize_window_runs(&refs);
        assert_eq!(built.len(), runs);
        for run in &built {
            for id in &run.event_ids {
                let held = events.iter().find(|e| e.id == *id).unwrap();
                assert_eq!(held.window_app_id.as_deref(), Some(run.app_id.as_str()));
                assert_eq!(held.machine_id, run.machine_id);
            }
        }
    }
}
