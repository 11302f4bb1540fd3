//! Machines and their silence.
use tt_cli::machines::{
    dark_machine_warnings, format_machines, is_dark, machine_status, MachineStatus,
};
use tt_cli::time::Timestamp;

const DAY: u64 = 86_400;

fn now() -> Timestamp {
    Timestamp::parse("2026-08-01T12:00:00Z").unwrap()
}

fn ago(seconds: u64) -> Option<Timestamp> {
    now().minus(seconds)
}

fn status(label: &str, last_event_at: Option<Timestamp>) -> MachineStatus {
    MachineStatus {
        machine_id: format!("{label}-uuid"),
        label: label.to_owned(),
        last_sync_at: Some("2026-08-01T11:00:00.000Z".to_owned()),
        last_event_at,
    }
}

#[test]
fn machine_silent_for_six_days_is_not_dark() {
    assert!(!is_dark(ago(6 * DAY), &now()));
}

#[test]
fn machine_silent_for_eight_days_is_dark() {
    assert!(is_dark(ago(8 * DAY), &now()));
}

#[test]
fn machine_silent_for_exactly_seven_days_is_dark() {
    assert!(is_dark(ago(7 * DAY), &now()));
    assert!(!is_dark(ago(7 * DAY - 1), &now()));
}

#[test]
fn machine_with_zero_events_is_dark() {
    assert!(is_dark(None, &now()));
}

#[test]
fn machine_with_recent_events_is_not_dark() {
    assert!(!is_dark(ago(3600), &now()));
}

fn three_machines() -> (Vec<MachineStatus>, Vec<String>) {
    let statuses = vec![
        status("devbox", ago(3 * DAY)),
        status("ghost-wispr", ago(50 * DAY)),
        status("never-seen", None),
    ];
    (statuses, vec!["3d".to_owned(), "50d".to_owned(), String::new()])
}

#[test]
fn dark_machine_warnings_name_the_machine_and_its_silence() {
    let (statuses, ages) = three_machines();
    let warnings = dark_machine_warnings(&statuses, &ages, &now());
    // Only the dark ones warn, each naming itself and its silence.
    assert_eq!(
        warnings,
        [
            "⚠ ghost-wispr has sent no events for 50d — check that tt is still running there."
                .to_owned(),
            "⚠ never-seen has never sent any events — check that tt is still running there."
                .to_owned(),
        ]
    );
}

#[test]
fn dark_machine_warnings_are_empty_when_every_remote_reports() {
    let statuses = vec![status("devbox", ago(DAY))];
    assert!(dark_machine_warnings(&statuses, &vec!["1d".to_owned()], &now()).is_empty());
}

#[test]
fn machines_empty() {
    assert_eq!(
        format_machines(&Vec::new(), &Vec::new(), &now()),
        "No machines registered yet. Run 'tt sync <remote>' to import from a remote.\n"
    );
}

#[test]
fn machines_with_entries() {
    let (mut statuses, ages) = three_machines();
    statuses[2].last_sync_at = None;
    let row = |id: &str, label: &str, sync: &str, event: &str, health: &str| {
        format!("{id:<38} {label:<20} {sync:<26} {event:<11} {health}\n")
    };
    let sync = "2026-08-01T11:00:00.000Z";
    let expected = [
        row("MACHINE ID", "LABEL", "LAST SYNC", "LAST EVENT", "STATUS"),
        row("devbox-uuid", "devbox", sync, "3d ago", "ok"),
        row("ghost-wispr-uuid", "ghost-wispr", sync, "50d ago", "⚠ DARK"),
        row("never-seen-uuid", "never-seen", "never", "never", "⚠ DARK"),
        "\n⚠ ghost-wispr has sent no events for 50d — check that tt is still running there.\n"
            .to_owned(),
        "⚠ never-seen has never sent any events — check that tt is still running there.\n"
            .to_owned(),
    ]
    .concat();
    assert_eq!(format_machines(&statuses, &ages, &now()), expected);
}

#[test]
fn load_statuses_reports_each_machines_newest_event() {
    let of = |id: &str, label: &str, last: Option<&str>| {
        machine_status(id.to_owned(), label.to_owned(), None, last)
    };
    let live = of("live-uuid", "devbox", Some("2026-08-01T10:00:00+00:00")).unwrap();
    let dark = of("dark-uuid", "ghost-wispr", None).unwrap();
    assert_eq!(live.label, "devbox");
    assert_eq!(live.last_event_at, ago(2 * 3600));
    assert_eq!(dark.last_event_at, None);
    assert!(!is_dark(live.last_event_at, &now()));
    assert!(is_dark(dark.last_event_at, &now()));
    assert_eq!(
        of("x", "broken", Some("yesterday")).unwrap_err(),
        "invalid event timestamp for machine broken"
    );
}

#[test]
fn silence_lasts_until_an_event_comes() {
    let last = ago(7 * DAY);
    assert!(is_dark(last, &now()));
    for later in ["2026-08-01T12:00:00.5Z", "2026-08-01T12:00:01Z", "2027-01-01T00:00:00Z"] {
        assert!(is_dark(last, &Timestamp::parse(later).unwrap()));
    }
    // The leap second after the newest event is counted from the next midnight on only.
    let leap = Timestamp::from_parts(1_483_228_799, 1_500_000_000);
    let week = |secs: i64, nanos: u32| Timestamp::from_parts(1_483_228_799 + secs, nanos).unwrap();
    assert!(!is_dark(leap, &week(7 * 86_400, 900_000_000)));
    assert!(is_dark(leap, &week(7 * 86_400 + 3, 0)));
}
