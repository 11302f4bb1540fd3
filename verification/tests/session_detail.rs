//! What a classifier may read of a session.
use tt_cli::classify_auto::session_detail::{messages, overview};
use tt_cli::model::{AgentSession, SessionType};
use tt_cli::time::Timestamp;

fn session(prompts: &[&str], summary: Option<&str>) -> AgentSession {
    AgentSession {
        session_id: "ses-1".to_owned(),
        source: "opencode".to_owned(),
        parent_session_id: None,
        session_type: SessionType::User,
        project_path: "/home/sami/Code/dotfiles".to_owned(),
        project_name: "dotfiles".to_owned(),
        start_time: Timestamp::parse("2026-08-02T09:00:00Z").unwrap(),
        end_time: Timestamp::parse("2026-08-02T11:30:00Z"),
        message_count: 12,
        summary: summary.map(str::to_owned),
        user_prompts: prompts.iter().map(|text| (*text).to_owned()).collect(),
        starting_prompt: prompts.first().map(|text| (*text).to_owned()),
        assistant_message_count: 6,
        tool_call_count: 41,
        user_message_timestamps: Vec::new(),
        tool_call_timestamps: Vec::new(),
    }
}

#[test]
fn an_overview_carries_the_summary_the_payload_has_no_field_for() {
    let session = session(&["list a file"], Some("COSMIC DisplayLink rotation bug fix"));
    let overview = overview("ses-1", Some((session, Some("devbox".to_owned())))).unwrap();
    assert_eq!(
        overview.summary.as_deref(),
        Some("COSMIC DisplayLink rotation bug fix")
    );
    assert_eq!(overview.tool_call_count, 41);
    assert_eq!(overview.message_count, 12);
    assert_eq!(overview.assistant_message_count, 6);
    assert_eq!(overview.machine.as_deref(), Some("devbox"));
    assert_eq!(overview.source.as_deref(), Some("opencode"));
    assert!(overview.ended_at.is_some());
}

#[test]
fn a_claude_session_reports_its_missing_summary_without_failing() {
    let overview = overview("ses-1", Some((session(&["list a file"], None), None))).unwrap();
    assert_eq!(overview.summary, None);
}

#[test]
fn a_fetched_message_arrives_longer_than_the_default_payload_shows() {
    let long_prompt = format!("Investigate {}", "detail ".repeat(200));
    let session = session(&[long_prompt.as_str()], None);
    let page = messages("ses-1", Some(&session), 0, 1).unwrap();
    let rendered = page.messages.concat();
    assert!(rendered.len() > 900, "rendered {} chars", rendered.len());
}

#[test]
fn a_later_page_reports_where_it_sits_in_the_whole() {
    let session = session(&["one", "two", "three", "four", "five"], None);
    let page = messages("ses-1", Some(&session), 3, 3).unwrap();
    assert_eq!(page.total, 5);
    assert_eq!(page.offset, 3);
    assert_eq!(page.messages, ["four", "five"]);
}

#[test]
fn a_session_that_was_never_indexed_is_reported_as_missing() {
    assert_eq!(overview("ses-absent", None).unwrap_err().0, "ses-absent");
    assert_eq!(messages("ses-absent", None, 0, 1).unwrap_err().0, "ses-absent");
}

#[test]
fn pages_of_one_size_give_every_message_once() {
    let session = session(&["one", "two", "three", "four", "five"], None);
    let mut all = Vec::new();
    for offset in [0, 2, 4, 6] {
        all.extend(messages("ses-1", Some(&session), offset, 2).unwrap().messages);
    }
    assert_eq!(all, ["one", "two", "three", "four", "five"]);
}
