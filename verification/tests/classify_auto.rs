//! What a classifier's verdicts do, and what a pass reports.
use serde_json::Value;

use tt_cli::classify_auto::resolver::{
    adopt, draft_proposal, list_streams, mint, name_step, next_step, proposal_text,
    ActivityWindows, Facts, FoundStream, InheritWalk, Move, NameFacts, NameStep, Next, Question,
    StreamChoice, StreamSummary, Verdict, INFERRED_ASSIGNMENT_SOURCE,
};
use tt_cli::classify_auto::target::AssignmentTarget;
use tt_cli::classify_auto::window_runs::WindowRun;
use tt_cli::classify_auto::{
    panicked, plan_sessions, recheck_step, run_question, runs_for_pass, summary_line,
    AutoClassifyOutcome, ErrorCauses, FailureCause, RecheckStep, SessionCandidate, SessionStep,
    WINDOW_RUNS_PER_PASS,
};
use tt_cli::model::{AgentSession, SessionType};
use tt_cli::time::Timestamp;

fn timestamp(minutes: i64) -> Timestamp {
    // 2026-01-01T09:00:00Z, and minutes after it.
    Timestamp::from_parts(1_767_258_000 + 60 * minutes, 0).unwrap()
}

fn session(id: &str, prompts: &[&str]) -> AgentSession {
    AgentSession {
        session_id: id.to_string(),
        source: "opencode".to_string(),
        parent_session_id: None,
        session_type: SessionType::User,
        project_path: "/work/project".to_string(),
        project_name: "project".to_string(),
        start_time: timestamp(0),
        end_time: None,
        message_count: 4,
        summary: None,
        user_prompts: prompts.iter().map(ToString::to_string).collect(),
        starting_prompt: prompts.first().map(ToString::to_string),
        assistant_message_count: 2,
        tool_call_count: 3,
        user_message_timestamps: Vec::new(),
        tool_call_timestamps: Vec::new(),
    }
}

/// What a store knows: its streams, what was rejected, and what waits for review.
#[derive(Default)]
struct Desk {
    streams: Vec<String>,
    rejected: Vec<String>,
    new_rejected: bool,
    pending: bool,
    stamped: bool,
    outcome: AutoClassifyOutcome,
}

impl Desk {
    fn with(streams: &[&str]) -> Desk {
        Desk { streams: streams.iter().map(ToString::to_string).collect(), ..Desk::default() }
    }

    /// Settles a choice: answers what is asked, and counts what is done.
    fn settle(&mut self, choice: StreamChoice, confident: bool, target: &AssignmentTarget) -> Move {
        let verdict = Verdict { choice, confident };
        let mut facts = Facts::none();
        loop {
            match next_step(&verdict, target, &facts) {
                Next::Ask(question) => {
                    let answer = match &question {
                        Question::StreamExists(id) => self.streams.contains(id),
                        Question::WasRejected(id) => self.rejected.contains(id),
                        Question::WasNewStreamRejected => self.new_rejected,
                        Question::HasPending => self.pending,
                    };
                    facts.learn(&question, answer);
                }
                Next::Act(act) => {
                    let assigns =
                        matches!(act, Move::Junk | Move::Assign(_) | Move::AssignNamed { .. });
                    let assigned = u64::from(assigns);
                    let superseded = u64::from(assigns && self.pending);
                    if assigns {
                        self.pending = false;
                    }
                    self.stamped = matches!(act, Move::StampPending);
                    self.outcome.record(&act, assigned, superseded);
                    return act;
                }
            }
        }
    }
}

fn on_session() -> AssignmentTarget {
    AssignmentTarget::Session { session_id: "session-a".to_string(), prompt_count: 1 }
}

fn on_recheck() -> AssignmentTarget {
    AssignmentTarget::Recheck { session_id: "session-a".to_string(), prompt_count: 2 }
}

fn on_window() -> AssignmentTarget {
    AssignmentTarget::Events(vec!["window-a".to_string()])
}

fn existing(id: &str) -> StreamChoice {
    StreamChoice::Existing { stream_id: id.to_string() }
}

fn new_stream(name: &str, description: Option<&str>) -> StreamChoice {
    StreamChoice::New {
        name: name.to_string(),
        description: description.map(str::to_string),
        misnamed: false,
    }
}

fn misnamed(name: &str, description: Option<&str>) -> StreamChoice {
    StreamChoice::New {
        name: name.to_string(),
        description: description.map(str::to_string),
        misnamed: true,
    }
}

#[test]
fn high_confidence_existing_classification_is_resolved_automatically() {
    let mut desk = Desk::with(&["stream-a"]);
    let act = desk.settle(existing("stream-a"), true, &on_session());
    assert_eq!(desk.outcome.assigned, 1);
    assert!(matches!(act, Move::Assign(id) if id == "stream-a"));
    assert_eq!(INFERRED_ASSIGNMENT_SOURCE, "inferred");
}

#[test]
fn low_confidence_existing_classification_creates_proposal_without_assignment() {
    let mut desk = Desk::with(&["stream-a"]);
    let act = desk.settle(existing("stream-a"), false, &on_session());
    assert_eq!(desk.outcome.proposed, 1);
    assert_eq!(desk.outcome.assigned, 0);
    assert!(matches!(act, Move::ProposeStream(id) if id == "stream-a"));
}

#[test]
fn high_confidence_new_classification_creates_described_stream_and_assigns() {
    let mut desk = Desk::default();
    let act = desk.settle(
        new_stream("Priority dashboard", Some("Dashboard work")),
        true,
        &on_session(),
    );
    assert_eq!(desk.outcome.assigned, 1);
    match act {
        Move::AssignNamed { name, description } => {
            let mut roster = Vec::new();
            let minted = mint(&mut roster, &name, &description, Some(timestamp(0)));
            assert_eq!(minted.name, "Priority dashboard");
            assert_eq!(minted.description.as_deref(), Some("Dashboard work"));
            assert_eq!(roster[0].description.as_deref(), Some("Dashboard work"));
        }
        other => panic!("{other:?}"),
    }
}

#[test]
fn a_named_stream_with_no_description_is_created_for_backfill_to_finish() {
    let mut desk = Desk::default();
    let act = desk.settle(new_stream("Priority dashboard", None), true, &on_session());
    assert_eq!(desk.outcome.assigned, 1);
    assert_eq!(desk.outcome.errors, 0);
    assert!(matches!(
        act,
        Move::AssignNamed { name, description: None } if name == "Priority dashboard"
    ));
}

#[test]
fn low_confidence_new_classification_creates_proposal_without_stream() {
    let mut desk = Desk::default();
    let act = desk.settle(
        new_stream("Priority dashboard", Some("Dashboard work")),
        false,
        &on_session(),
    );
    assert_eq!(desk.outcome.proposed, 1);
    match act {
        Move::ProposeNew { name, description } => {
            let payload: Value =
                serde_json::from_str(&proposal_text(&name, &description)).unwrap();
            assert_eq!(payload["name"], "Priority dashboard");
            assert_eq!(payload["description"], "Dashboard work");
            assert_eq!(payload["tags"], Value::Array(Vec::new()));
            assert_eq!(payload.as_object().unwrap().len(), 3);
        }
        other => panic!("{other:?}"),
    }
}

#[test]
fn a_proposal_for_an_undescribed_stream_can_still_be_accepted() {
    let mut desk = Desk::default();
    let act = desk.settle(new_stream("Priority dashboard", None), false, &on_session());
    assert_eq!(desk.outcome.proposed, 1);
    match act {
        Move::ProposeNew { name, description } => {
            assert_eq!(
                proposal_text(&name, &description),
                r#"{"description":null,"name":"Priority dashboard","tags":[]}"#
            );
        }
        other => panic!("{other:?}"),
    }
}

/// Settles the stream of a name: what the table holds is looked up by the very name,
/// and `near` is what is near it. A stream that is created goes to the table.
fn stream_named(
    roster: &mut Vec<StreamSummary>,
    table: &mut Vec<(String, String)>,
    name: &str,
    description: &Option<String>,
    near: Option<(&str, &str)>,
) -> String {
    let mut facts = NameFacts { exact: None, near: None };
    loop {
        let exact = table.iter().find(|(_, held)| held == name);
        match name_step(roster, name, facts) {
            NameStep::Reuse(id) => return id,
            NameStep::LookUpExact => {
                let exact = exact.map(|(id, held)| found(id, held));
                facts = NameFacts { exact: Some(exact), near: None };
            }
            NameStep::LookUpNear => {
                let near = near.map(|(id, held)| found(id, held));
                facts = NameFacts { exact: Some(None), near: Some(near) };
            }
            NameStep::Adopt(stream) => return adopt(roster, stream, Vec::new(), None, None),
            NameStep::Mint => {
                let minted = mint(roster, name, description, Some(timestamp(0)));
                table.push((minted.id.clone(), minted.name));
                return minted.id;
            }
        }
    }
}

#[test]
fn repeated_high_confidence_new_choice_reuses_the_created_stream() {
    let mut desk = Desk::default();
    let mut roster = Vec::new();
    let mut table = Vec::new();
    let mut landed_on = Vec::new();
    for session_id in ["session-a", "session-b"] {
        let target =
            AssignmentTarget::Session { session_id: session_id.to_string(), prompt_count: 1 };
        let choice = new_stream("Priority dashboard", Some("Dashboard work"));
        match desk.settle(choice, true, &target) {
            Move::AssignNamed { name, description } => {
                landed_on.push(stream_named(&mut roster, &mut table, &name, &description, None));
            }
            other => panic!("{other:?}"),
        }
    }
    assert_eq!(desk.outcome.assigned, 2);
    assert_eq!(table.len(), 1);
    assert_eq!(landed_on, [table[0].0.clone(), table[0].0.clone()]);
}

#[test]
fn a_name_answered_by_a_near_stream_gets_that_stream_again() {
    let mut roster = vec![listed("other", "agent-c: integration")];
    let mut table = Vec::new();
    let near = Some(("held", "dojo: smart home ideation + planning"));
    for _ in 0..3 {
        let name = "dojo: smart home automation ideation + planning";
        assert_eq!(stream_named(&mut roster, &mut table, name, &None, near), "held");
        stream_named(&mut roster, &mut table, "agent-d: something else", &None, None);
    }
    assert_eq!(table.len(), 1);
}

#[test]
fn rejected_existing_choice_is_not_proposed_again() {
    let mut desk = Desk::with(&["stream-a"]);
    desk.rejected.push("stream-a".to_string());
    let act = desk.settle(existing("stream-a"), false, &on_session());
    assert_eq!(desk.outcome.skipped, 1);
    assert!(matches!(act, Move::Skip));
}

#[test]
fn rejected_new_stream_choice_is_not_proposed_again() {
    let mut desk = Desk::default();
    desk.new_rejected = true;
    let act = desk.settle(
        new_stream("Priority dashboard", Some("Dashboard work")),
        false,
        &on_session(),
    );
    assert_eq!(desk.outcome.skipped, 1);
    assert!(matches!(act, Move::Skip));
}

#[test]
fn a_confident_answer_supersedes_the_proposal_it_answers_past() {
    let mut desk = Desk::with(&["stream-a"]);
    desk.pending = true;
    let act = desk.settle(existing("stream-a"), true, &on_session());
    assert_eq!(desk.outcome.assigned, 1);
    assert_eq!(desk.outcome.superseded, 1);
    assert!(matches!(act, Move::Assign(id) if id == "stream-a"));
}

#[test]
fn a_second_weak_answer_leaves_the_pending_proposal_exactly_as_it_was() {
    let mut desk = Desk::with(&["stream-a"]);
    desk.pending = true;
    desk.settle(existing("stream-a"), false, &on_session());
    assert_eq!(desk.outcome.proposed, 0);
    assert_eq!(desk.outcome.superseded, 0);
    assert_eq!(desk.outcome.skipped, 1);
    assert!(desk.pending);
}

#[test]
fn a_confident_window_run_answer_supersedes_its_pending_proposal() {
    let mut desk = Desk::with(&["stream-a"]);
    desk.pending = true;
    desk.settle(existing("stream-a"), true, &on_window());
    assert_eq!(desk.outcome.assigned, 1);
    assert_eq!(desk.outcome.superseded, 1);
}

#[test]
fn a_second_weak_window_run_answer_adds_no_duplicate_proposal() {
    let mut desk = Desk::with(&["stream-a"]);
    desk.pending = true;
    desk.settle(existing("stream-a"), false, &on_window());
    assert_eq!(desk.outcome.proposed, 0);
    assert_eq!(desk.outcome.skipped, 1);
    assert!(desk.pending);
}

#[test]
fn a_weak_session_answer_stamps_the_pending_proposal_with_this_generation() {
    let mut desk = Desk::with(&["stream-a"]);
    desk.pending = true;
    let act = desk.settle(existing("stream-a"), false, &on_session());
    assert_eq!(desk.outcome.proposed, 0);
    assert_eq!(desk.outcome.skipped, 1);
    assert!(matches!(act, Move::StampPending));
    assert!(desk.stamped);
}

#[test]
fn a_window_run_this_generation_already_answered_costs_no_model_call() {
    let mut outcome = AutoClassifyOutcome::default();
    outcome.record_answered();
    assert_eq!(outcome.skipped_answered, 1);
    assert_eq!(outcome.assigned, 0);
    assert_eq!(outcome.errors, 0);
}

#[test]
fn window_focus_run_is_assigned_with_existing_stream_choice() {
    let mut desk = Desk::with(&["stream-a"]);
    let act = desk.settle(existing("stream-a"), true, &on_window());
    assert_eq!(desk.outcome.assigned, 1);
    assert!(matches!(act, Move::Assign(id) if id == "stream-a"));
}

#[test]
fn recheck_reassigns_only_inferred_events_and_marks_session_complete() {
    let found = Some((session("session-a", &["one", "two"]), Some("machine-a".to_string())));
    match recheck_step(found, 1) {
        RecheckStep::Ask { input, prompt_count } => {
            assert!(input.has_session);
            assert_eq!(input.session_id, "session-a");
            assert_eq!(input.user_prompts, ["one", "two"]);
            assert_eq!(prompt_count, 2);
        }
        other => panic!("{other:?}"),
    }
    let mut desk = Desk::with(&["stream-a", "stream-b"]);
    let act = desk.settle(existing("stream-b"), true, &on_recheck());
    assert!(matches!(act, Move::Assign(id) if id == "stream-b"));
}

#[test]
fn a_session_is_looked_at_again_only_where_it_gained_prompts() {
    assert!(matches!(recheck_step(None, 1), RecheckStep::Gone));
    let same = Some((session("session-a", &["one", "two"]), None));
    assert!(matches!(recheck_step(same, 2), RecheckStep::Wait));
    let fewer = Some((session("session-a", &[]), None));
    assert!(matches!(recheck_step(fewer, 2), RecheckStep::Wait));
}

#[test]
fn a_panicking_worker_costs_its_own_session_and_no_other() {
    let (cause, last_error) = panicked(Some("deliberate test panic"));
    let mut desk = Desk::with(&["stream-a"]);
    desk.settle(existing("stream-a"), true, &on_session());
    desk.outcome.record_failure(cause);
    desk.settle(existing("stream-a"), true, &on_session());
    assert_eq!(desk.outcome.assigned, 2);
    assert_eq!(desk.outcome.errors, 1);
    assert_eq!(desk.outcome.causes, ErrorCauses { api: 1, ..ErrorCauses::default() });
    assert!(last_error.contains("panicked"), "{last_error}");
    assert_eq!(panicked(None).1, "classifier worker panicked: no message");
}

#[test]
fn a_session_with_no_tools_and_one_exchange_is_junked_without_an_llm_call() {
    let plan = plan_sessions(vec![SessionCandidate {
        session: session("session-a", &["hello"]),
        machine: Some("machine-a".to_string()),
        structurally_junk: true,
    }]);
    assert!(!plan.failed);
    assert_eq!(plan.steps.len(), 1);
    assert!(matches!(
        &plan.steps[0],
        SessionStep::Junk { session_id, prompt_count: 1 } if session_id == "session-a"
    ));
    let mut outcome = AutoClassifyOutcome::default();
    outcome.record_junk(1, 1);
    assert_eq!(outcome.junked, 1);
    assert_eq!(outcome.errors, 0);
}

#[test]
fn a_tool_free_session_with_depth_still_reaches_the_classifier() {
    let plan = plan_sessions(vec![SessionCandidate {
        session: session("session-a", &["hello"]),
        machine: Some("machine-a".to_string()),
        structurally_junk: false,
    }]);
    match &plan.steps[0] {
        SessionStep::Ask { input, prompt_count } => {
            assert!(input.has_session);
            assert_eq!(input.session_id, "session-a");
            assert_eq!(input.machine.as_deref(), Some("machine-a"));
            assert_eq!(input.cwd.as_deref(), Some("/work/project"));
            assert_eq!(input.starting_prompt.as_deref(), Some("hello"));
            assert_eq!(input.started_at, Some(timestamp(0)));
            assert!(input.window_titles.is_empty());
            assert_eq!(*prompt_count, 1);
        }
        other => panic!("{other:?}"),
    }
}

#[test]
fn subagents_inherit_their_parents_stream_without_an_llm_call() {
    let mut walk = InheritWalk::start("session-a");
    assert_eq!(walk.next().as_deref(), Some("session-a"));
    walk.queue(&vec!["sub-a".to_string(), "sub-b".to_string()]);
    let mut reached = Vec::new();
    while let Some(id) = walk.next() {
        // A session that is its own descendant does not keep the walk going.
        walk.queue(&vec!["session-a".to_string(), id.clone()]);
        reached.push(id);
    }
    reached.sort();
    assert_eq!(reached, ["sub-a", "sub-b"]);
    let mut outcome = AutoClassifyOutcome::default();
    outcome.record_inherited(2);
    assert_eq!(outcome.assigned, 2);
    assert_eq!(outcome.errors, 0);
}

#[test]
fn a_throwaway_verdict_routes_the_session_to_junk_without_creating_a_stream() {
    let mut desk = Desk::default();
    let act = desk.settle(StreamChoice::Throwaway, true, &on_session());
    assert_eq!(desk.outcome.junked, 1);
    assert!(matches!(act, Move::Junk));
}

#[test]
fn a_misnamed_new_stream_is_refused_and_the_session_stays_unassigned() {
    let mut desk = Desk::default();
    let act = desk.settle(
        misnamed("other: shell / nav / transitional", Some("Terminal navigation between tasks")),
        true,
        &on_session(),
    );
    assert_eq!(desk.outcome.refused, 1);
    assert_eq!(desk.outcome.assigned, 0);
    assert!(matches!(act, Move::RefuseName(name) if name == "other: shell / nav / transitional"));
}

#[test]
fn a_misnamed_name_is_refused_even_when_no_description_came_with_it() {
    let mut desk = Desk::default();
    desk.settle(misnamed("other: shell / nav / transitional", None), true, &on_session());
    assert_eq!(desk.outcome.refused, 1);
    assert_eq!(desk.outcome.assigned, 0);
}

#[test]
fn a_low_confidence_misnamed_name_is_refused_rather_than_left_for_review() {
    let mut desk = Desk::default();
    desk.settle(misnamed("misc: stragglers", Some("Leftover sessions")), false, &on_session());
    assert_eq!(desk.outcome.refused, 1);
    assert_eq!(desk.outcome.proposed, 0);
}

#[test]
fn a_verdict_naming_a_vanished_stream_is_refused_and_the_pass_completes() {
    let mut desk = Desk::default();
    let act = desk.settle(existing("dissolved-stream"), true, &on_session());
    assert_eq!(desk.outcome.refused_missing_stream, 1);
    assert_eq!(desk.outcome.assigned, 0);
    assert_eq!(desk.outcome.junked, 0);
    assert_eq!(desk.outcome.proposed, 0);
    assert!(matches!(act, Move::RefuseMissing(id) if id == "dissolved-stream"));
}

#[test]
fn a_low_confidence_verdict_naming_a_vanished_stream_is_not_left_as_a_proposal() {
    let mut desk = Desk::default();
    desk.settle(existing("dissolved-stream"), false, &on_session());
    assert_eq!(desk.outcome.refused_missing_stream, 1);
    assert_eq!(desk.outcome.proposed, 0);
}

#[test]
fn one_vanished_stream_verdict_does_not_cost_the_rest_of_the_pass() {
    let mut desk = Desk::with(&["stream-a", "stream-b"]);
    let third = desk.settle(existing("stream-a"), true, &on_session());
    let second = desk.settle(existing("dissolved-stream"), true, &on_session());
    let first = desk.settle(existing("stream-b"), true, &on_session());
    assert_eq!(desk.outcome.refused_missing_stream, 1);
    assert_eq!(desk.outcome.assigned, 2);
    assert_eq!(desk.outcome.errors, 0);
    assert!(matches!(third, Move::Assign(id) if id == "stream-a"));
    assert!(matches!(second, Move::RefuseMissing(_)));
    assert!(matches!(first, Move::Assign(id) if id == "stream-b"));
}

#[test]
fn a_window_run_verdict_naming_a_vanished_stream_is_refused() {
    let mut desk = Desk::default();
    desk.settle(existing("dissolved-stream"), true, &on_window());
    assert_eq!(desk.outcome.refused_missing_stream, 1);
    assert_eq!(desk.outcome.assigned, 0);
}

#[test]
fn a_recheck_verdict_naming_a_vanished_stream_leaves_the_earlier_assignment() {
    let mut desk = Desk::with(&["stream-a"]);
    let act = desk.settle(existing("dissolved-stream"), true, &on_recheck());
    assert_eq!(desk.outcome.refused_missing_stream, 1);
    assert!(matches!(act, Move::RefuseMissing(_)));
}

#[test]
fn a_verdict_answering_with_a_slug_instead_of_an_id_is_refused() {
    let mut desk = Desk::with(&["ab33c96c"]);
    desk.settle(existing("agentc-core"), true, &on_session());
    assert_eq!(desk.outcome.refused_missing_stream, 1);
    assert_eq!(desk.outcome.assigned, 0);
}

#[test]
fn classifier_failures_are_counted_by_cause() {
    let mut outcome = AutoClassifyOutcome::default();
    for cause in [
        FailureCause::Api,
        FailureCause::Overloaded,
        FailureCause::Parse,
        FailureCause::MissingApiKey,
        FailureCause::Timeout,
    ] {
        outcome.record_failure(cause);
    }
    assert_eq!(outcome.errors, 5);
    assert_eq!(
        outcome.causes,
        ErrorCauses { api: 1, overloaded: 1, timeout: 1, parse: 1, missing_api_key: 1 }
    );
    assert!(summary_line(&outcome)
        .ends_with("errors=5 (api=1, overloaded=1, timeout=1, parse=1, missing_api_key=1)"));
}

#[test]
fn classifier_failure_leaves_events_unclassified_and_records_health() {
    let mut outcome = AutoClassifyOutcome::default();
    outcome.record_failure(FailureCause::Api);
    assert_eq!(outcome.errors, 1);
    assert_eq!(outcome.assigned, 0);
}

#[test]
fn an_undetermined_verdict_leaves_the_session_unassigned_without_failing_the_pass() {
    let mut desk = Desk::default();
    let act = desk.settle(StreamChoice::Undetermined, false, &on_session());
    assert_eq!(desk.outcome.undetermined, 1);
    assert_eq!(desk.outcome.errors, 0);
    assert_eq!(desk.outcome.causes, ErrorCauses::default());
    assert_eq!(desk.outcome.junked, 0);
    assert_eq!(desk.outcome.assigned, 0);
    assert_eq!(desk.outcome.proposed, 0);
    assert!(matches!(act, Move::Decline));
}

#[test]
fn a_mixed_pass_completes_and_tallies_each_verdict_in_its_own_bucket() {
    let mut desk = Desk::with(&["stream-1"]);
    let determined = desk.settle(existing("stream-1"), true, &on_session());
    desk.settle(StreamChoice::Undetermined, false, &on_session());
    desk.outcome.record_failure(FailureCause::Parse);
    assert_eq!(desk.outcome.assigned, 1);
    assert_eq!(desk.outcome.undetermined, 1);
    assert_eq!(desk.outcome.errors, 1);
    assert_eq!(desk.outcome.causes, ErrorCauses { parse: 1, ..ErrorCauses::default() });
    assert!(matches!(determined, Move::Assign(id) if id == "stream-1"));
}

#[test]
fn a_declined_answer_and_a_throwaway_are_not_the_same_verdict() {
    let mut junked = Desk::default();
    junked.settle(StreamChoice::Throwaway, true, &on_session());
    let mut declined = Desk::default();
    declined.settle(StreamChoice::Undetermined, true, &on_session());
    assert_eq!(junked.outcome.junked, 1);
    assert_eq!(junked.outcome.undetermined, 0);
    assert_eq!(declined.outcome.undetermined, 1);
    assert_eq!(declined.outcome.junked, 0);
}

#[test]
fn a_spent_turn_budget_leaves_the_session_unassigned_without_failing_the_pass() {
    let mut desk = Desk::default();
    let act = desk.settle(StreamChoice::TurnsExhausted, false, &on_session());
    assert_eq!(desk.outcome.turns_exhausted, 1);
    assert_eq!(desk.outcome.errors, 0);
    assert_eq!(desk.outcome.causes, ErrorCauses::default());
    assert_eq!(desk.outcome.junked, 0);
    assert_eq!(desk.outcome.assigned, 0);
    assert_eq!(desk.outcome.proposed, 0);
    assert!(matches!(act, Move::SpentTurns));
}

#[test]
fn a_spent_turn_budget_is_tallied_apart_from_a_model_that_answered_nothing() {
    let mut declined = Desk::default();
    declined.settle(StreamChoice::Undetermined, false, &on_session());
    let mut exhausted = Desk::default();
    exhausted.settle(StreamChoice::TurnsExhausted, false, &on_session());
    assert_eq!(declined.outcome.undetermined, 1);
    assert_eq!(declined.outcome.turns_exhausted, 0);
    assert_eq!(exhausted.outcome.turns_exhausted, 1);
    assert_eq!(exhausted.outcome.undetermined, 0);
}

fn listed(id: &str, name: &str) -> StreamSummary {
    StreamSummary {
        slug: None,
        id: id.to_string(),
        name: Some(name.to_string()),
        description: None,
        tags: Vec::new(),
        first_active: None,
        last_active: None,
        match_name: Some(name.to_string()),
    }
}

fn found(id: &str, name: &str) -> FoundStream {
    FoundStream {
        id: id.to_string(),
        name: Some(name.to_string()),
        slug: None,
        description: None,
        match_name: Some(name.to_string()),
    }
}

#[test]
fn a_new_stream_name_differing_only_in_whitespace_reuses_the_existing_stream() {
    let roster = vec![listed("held", "agent-c: eval-3 integration")];
    let step = name_step(
        &roster,
        "agent-c: eval-3 integration",
        NameFacts { exact: None, near: None },
    );
    assert!(matches!(step, NameStep::Reuse(id) if id == "held"));
}

#[test]
fn a_new_stream_name_matching_a_stream_absent_from_the_roster_still_reuses_it() {
    let name = "agent-c: eval-3 integration";
    let mut roster = Vec::new();
    let first = name_step(&roster, name, NameFacts { exact: None, near: None });
    assert!(matches!(first, NameStep::LookUpExact));
    let facts = NameFacts { exact: Some(Some(found("planted-later", name))), near: None };
    match name_step(&roster, name, facts) {
        NameStep::Adopt(stream) => {
            let landed_on =
                adopt(&mut roster, stream, vec!["backend".to_string()], None, Some(timestamp(5)));
            assert_eq!(landed_on, "planted-later");
        }
        other => panic!("{other:?}"),
    }
    assert_eq!(roster.len(), 1);
    assert_eq!(roster[0].tags, ["backend"]);
    assert_eq!(roster[0].last_active, Some(timestamp(5)));
    let again = name_step(&roster, name, NameFacts { exact: None, near: None });
    assert!(matches!(again, NameStep::Reuse(id) if id == "planted-later"));
}

#[test]
fn a_new_stream_name_naming_an_existing_initiative_reuses_it_rather_than_minting() {
    let name = "dojo: smart home automation ideation + planning";
    let near = found("held", "dojo: smart home ideation + planning");
    let step = name_step(
        &Vec::new(),
        name,
        NameFacts { exact: Some(None), near: Some(Some(near)) },
    );
    assert!(matches!(step, NameStep::Adopt(stream) if stream.id == "held"));
}

#[test]
fn an_exactly_named_stream_wins_over_a_merely_near_one() {
    let name = "dojo: smart home automation ideation + planning";
    let step = name_step(
        &Vec::new(),
        name,
        NameFacts {
            exact: Some(Some(found("exact", name))),
            near: Some(Some(found("near", "dojo: smart home ideation + planning"))),
        },
    );
    assert!(matches!(step, NameStep::Adopt(stream) if stream.id == "exact"));
}

#[test]
fn a_stream_is_created_only_where_no_lookup_finds_one() {
    let roster = vec![listed("other", "something else")];
    let unknown = NameFacts { exact: Some(None), near: None };
    assert!(matches!(name_step(&roster, "new work", unknown), NameStep::LookUpNear));
    let absent = NameFacts { exact: Some(None), near: Some(None) };
    assert!(matches!(name_step(&roster, "new work", absent), NameStep::Mint));
}

#[test]
fn a_stream_minted_mid_pass_carries_the_period_it_was_minted_for() {
    let mut roster = Vec::new();
    let minted = mint(&mut roster, "dojo: smart home ideation", &None, Some(timestamp(0)));
    let entry = roster.iter().find(|entry| entry.id == minted.id).unwrap();
    assert_eq!(
        (entry.first_active, entry.last_active),
        (Some(timestamp(0)), Some(timestamp(0)))
    );
    let other = mint(&mut roster, "other work", &None, None);
    assert_ne!(minted.id, other.id);
    assert_eq!(minted.id.len(), 36);
}

#[test]
fn a_stream_id_the_model_spaced_out_still_resolves() {
    let mut desk = Desk::with(&["eb2754ad-e9a3-469b-bdb3-1768bc8860e8"]);
    let act = desk.settle(
        existing(" eb2754ad-e9a3 -469b -bdb3-1768bc8860e8 "),
        true,
        &on_session(),
    );
    assert!(matches!(act, Move::Assign(id) if id == "eb2754ad-e9a3-469b-bdb3-1768bc8860e8"));
    assert_eq!(desk.outcome.refused_missing_stream, 0);
}

#[test]
fn a_stream_id_that_is_merely_short_is_still_refused() {
    let mut desk = Desk::with(&["ff383f53-1111-2222-3333-444455556666"]);
    let act = desk.settle(existing("ff383f53"), true, &on_session());
    assert!(matches!(act, Move::RefuseMissing(_)));
    assert_eq!(desk.outcome.refused_missing_stream, 1);
}

fn window_run(index: usize) -> WindowRun {
    WindowRun {
        start: timestamp(index as i64).to_rfc3339(),
        end: timestamp(index as i64).to_rfc3339(),
        duration_minutes: 0,
        app_id: format!("org.example.App{index}"),
        event_ids: vec![format!("window-{index}")],
        titles: vec![format!("file-{index}.rs")],
        machine_id: None,
        stream_id: None,
    }
}

#[test]
fn the_window_run_phase_stops_at_its_per_pass_bound() {
    let runs = WINDOW_RUNS_PER_PASS + 5;
    let selected = runs_for_pass((0..runs).map(window_run).collect());
    assert_eq!(selected.len(), WINDOW_RUNS_PER_PASS);
    assert_eq!(selected[0].event_ids, [format!("window-{}", runs - 1)]);
    assert!(selected.iter().all(|run| run.event_ids != ["window-0"]));
}

#[test]
fn a_window_run_is_asked_about_by_its_first_event_and_its_titles() {
    let mut run = window_run(3);
    run.machine_id = Some("machine-a".to_string());
    let (input, events) = run_question(run).unwrap();
    assert!(!input.has_session);
    assert_eq!(input.session_id, "window:window-3");
    assert_eq!(input.machine.as_deref(), Some("machine-a"));
    assert_eq!(input.window_titles, ["file-3.rs"]);
    assert_eq!(input.started_at, Some(timestamp(3)));
    assert!(input.user_prompts.is_empty());
    assert_eq!(events, ["window-3"]);
    let mut empty = window_run(4);
    empty.event_ids.clear();
    assert!(run_question(empty).is_none());
}

#[test]
fn a_target_names_its_candidate_and_the_scope_of_a_proposal() {
    assert_eq!(on_session().label(), "session-a");
    assert_eq!(on_window().label(), "window-a");
    assert_eq!(AssignmentTarget::Events(Vec::new()).label(), "window-run");
    assert_eq!(on_recheck().proposal_scope(), (Some("session-a".to_string()), None));
    assert_eq!(on_window().proposal_scope(), (None, Some(vec!["window-a".to_string()])));
    assert_eq!(on_session().seen(1), Some(("session-a", 1)));
    assert_eq!(on_session().seen(0), None);
    assert_eq!(on_window().seen(1), None);
}

#[test]
fn the_pass_summary_names_what_the_failures_were() {
    let outcome = AutoClassifyOutcome {
        assigned: 35_505,
        junked: 181,
        errors: 3,
        causes: ErrorCauses {
            api: 2,
            overloaded: 0,
            timeout: 0,
            parse: 1,
            missing_api_key: 0,
        },
        ..AutoClassifyOutcome::default()
    };

    let line = summary_line(&outcome);

    assert_eq!(
        line,
        "Auto-classify: assigned=35505, junked=181, proposed=0, superseded=0, refused=0, \
         missing_stream=0, undetermined=0, turns_exhausted=0, skipped_answered=0, skipped=0, \
         errors=3 (api=2, parse=1)"
    );
}

#[test]
fn a_pass_the_provider_never_answered_reads_differently_from_an_overloaded_one() {
    let overloaded = AutoClassifyOutcome {
        errors: 3,
        causes: ErrorCauses {
            overloaded: 3,
            ..ErrorCauses::default()
        },
        ..AutoClassifyOutcome::default()
    };
    let silent = AutoClassifyOutcome {
        errors: 3,
        causes: ErrorCauses {
            timeout: 3,
            ..ErrorCauses::default()
        },
        ..AutoClassifyOutcome::default()
    };

    let (capacity, reachability) = (summary_line(&overloaded), summary_line(&silent));

    assert!(capacity.ends_with("errors=3 (overloaded=3)"), "{capacity}");
    assert!(
        reachability.ends_with("errors=3 (timeout=3)"),
        "{reachability}"
    );
}

#[test]
fn a_pass_degraded_by_provider_overload_reads_differently_from_a_broken_one() {
    let overloaded = AutoClassifyOutcome {
        errors: 3,
        causes: ErrorCauses {
            overloaded: 3,
            ..ErrorCauses::default()
        },
        ..AutoClassifyOutcome::default()
    };
    let broken = AutoClassifyOutcome {
        errors: 3,
        causes: ErrorCauses {
            api: 3,
            ..ErrorCauses::default()
        },
        ..AutoClassifyOutcome::default()
    };

    let (degraded, failing) = (summary_line(&overloaded), summary_line(&broken));

    assert!(degraded.ends_with("errors=3 (overloaded=3)"), "{degraded}");
    assert!(failing.ends_with("errors=3 (api=3)"), "{failing}");
    assert_ne!(degraded, failing);
}

#[test]
fn a_pass_that_failed_nowhere_carries_no_breakdown() {
    let outcome = AutoClassifyOutcome {
        assigned: 12,
        ..AutoClassifyOutcome::default()
    };

    assert_eq!(
        summary_line(&outcome),
        "Auto-classify: assigned=12, junked=0, proposed=0, superseded=0, refused=0, \
         missing_stream=0, undetermined=0, turns_exhausted=0, skipped_answered=0, skipped=0, \
         errors=0"
    );
}

#[test]
fn the_pass_summary_reports_declined_answers_apart_from_failures() {
    let outcome = AutoClassifyOutcome {
        assigned: 40,
        undetermined: 7,
        errors: 2,
        causes: ErrorCauses {
            parse: 2,
            ..ErrorCauses::default()
        },
        ..AutoClassifyOutcome::default()
    };

    assert_eq!(
        summary_line(&outcome),
        "Auto-classify: assigned=40, junked=0, proposed=0, superseded=0, refused=0, \
         missing_stream=0, undetermined=7, turns_exhausted=0, skipped_answered=0, skipped=0, \
         errors=2 (parse=2)"
    );
}

#[test]
fn the_pass_summary_reports_spent_turn_budgets_apart_from_declined_answers() {
    let outcome = AutoClassifyOutcome {
        assigned: 40,
        undetermined: 7,
        turns_exhausted: 4,
        errors: 2,
        causes: ErrorCauses {
            parse: 2,
            ..ErrorCauses::default()
        },
        ..AutoClassifyOutcome::default()
    };

    assert_eq!(
        summary_line(&outcome),
        "Auto-classify: assigned=40, junked=0, proposed=0, superseded=0, refused=0, \
         missing_stream=0, undetermined=7, turns_exhausted=4, skipped_answered=0, skipped=0, \
         errors=2 (parse=2)"
    );
}

#[test]
fn the_pass_summary_reports_superseded_proposals() {
    let outcome = AutoClassifyOutcome {
        assigned: 40,
        proposed: 3,
        superseded: 5,
        ..AutoClassifyOutcome::default()
    };

    assert_eq!(
        summary_line(&outcome),
        "Auto-classify: assigned=40, junked=0, proposed=3, superseded=5, refused=0, \
         missing_stream=0, undetermined=0, turns_exhausted=0, skipped_answered=0, skipped=0, \
         errors=0"
    );
}

#[test]
fn the_pass_summary_reports_questions_this_generation_already_answered() {
    let outcome = AutoClassifyOutcome {
        assigned: 40,
        skipped_answered: 97,
        skipped: 3,
        ..AutoClassifyOutcome::default()
    };

    assert_eq!(
        summary_line(&outcome),
        "Auto-classify: assigned=40, junked=0, proposed=0, superseded=0, refused=0, \
         missing_stream=0, undetermined=0, turns_exhausted=0, skipped_answered=97, skipped=3, \
         errors=0"
    );
}

#[test]
fn roster_includes_existing_stream_tags() {
    let tags = vec!["backend".to_string(), "urgent".to_string()];
    let mut windows = ActivityWindows::new();
    windows.insert("stream-a".to_string(), (timestamp(1), timestamp(2)));
    let roster = list_streams(vec![(found("stream-a", "Stream A"), tags)], &windows);
    assert_eq!(roster[0].tags, ["backend", "urgent"]);
    assert_eq!(roster[0].id, "stream-a");
    assert_eq!(roster[0].first_active, Some(timestamp(1)));
    assert_eq!(roster[0].last_active, Some(timestamp(2)));
}

#[test]
fn a_stream_with_no_events_reports_no_activity() {
    let streams = vec![(found("quiet", "Quiet"), Vec::new())];
    let roster = list_streams(streams, &ActivityWindows::new());
    assert_eq!(roster[0].first_active, None);
    assert_eq!(roster[0].last_active, None);
}

#[test]
fn a_window_run_with_no_queued_answer_is_classified_normally() {
    let mut desk = Desk::with(&["stream-a"]);
    let act = desk.settle(existing("stream-a"), true, &on_window());
    assert_eq!(desk.outcome.skipped_answered, 0);
    assert_eq!(desk.outcome.assigned, 1);
    assert!(matches!(act, Move::Assign(id) if id == "stream-a"));
}

#[test]
fn a_session_whose_answer_is_queued_is_still_re_classified() {
    let mut desk = Desk::with(&["stream-a"]);
    desk.pending = true;
    desk.settle(existing("stream-a"), true, &on_session());
    assert_eq!(desk.outcome.skipped_answered, 0);
    assert_eq!(desk.outcome.assigned, 1);
}

#[test]
fn a_window_run_answered_by_an_older_classifier_is_re_asked_exactly_once() {
    let mut desk = Desk::with(&["stream-a"]);
    desk.pending = true;
    // The run is asked, and the weak answer adds no duplicate to the queue: the queued
    // question is stamped instead.
    desk.settle(existing("stream-a"), false, &on_window());
    assert_eq!(desk.outcome.skipped_answered, 0);
    assert_eq!(desk.outcome.skipped, 1);
    assert_eq!(desk.outcome.proposed, 0);
    assert!(desk.stamped);
    // A run whose question carries the stamp is not asked again.
    desk.outcome.record_answered();
    assert_eq!(desk.outcome.skipped_answered, 1);
}

#[test]
fn one_chunk_naming_one_new_stream_many_times_creates_it_once() {
    let name = "Priority dashboard";
    let mut roster = Vec::new();
    let mut streams = Vec::new();
    let mut landed_on = Vec::new();
    for _ in 0..8 {
        let mut facts = NameFacts { exact: None, near: None };
        let id = loop {
            match name_step(&roster, name, facts) {
                NameStep::Reuse(id) => break id,
                NameStep::LookUpExact => facts = NameFacts { exact: Some(None), near: None },
                NameStep::LookUpNear => {
                    facts = NameFacts { exact: Some(None), near: Some(None) };
                }
                NameStep::Adopt(stream) => break stream.id,
                NameStep::Mint => {
                    let minted = mint(&mut roster, name, &None, Some(timestamp(0)));
                    streams.push(minted.id.clone());
                    break minted.id;
                }
            }
        };
        landed_on.push(id);
    }
    assert_eq!(streams.len(), 1);
    assert!(landed_on.iter().all(|id| *id == streams[0]));
}

#[test]
fn a_weak_answer_still_files_a_proposal_when_the_pending_one_is_unacceptable() {
    // A queued proposal that nobody can accept counts as none.
    let mut desk = Desk::with(&["stream-a"]);
    let act = desk.settle(existing("stream-a"), false, &on_session());
    assert_eq!(desk.outcome.proposed, 1);
    assert_eq!(desk.outcome.skipped, 0);
    assert!(matches!(act, Move::ProposeStream(id) if id == "stream-a"));
}

#[test]
fn subagents_of_a_junked_session_inherit_the_junk_stream() {
    let mut walk = InheritWalk::start("session-a");
    assert_eq!(walk.next().as_deref(), Some("session-a"));
    walk.queue(&vec!["sub-a".to_string()]);
    assert_eq!(walk.next().as_deref(), Some("sub-a"));
    assert_eq!(walk.next(), None);
}

#[test]
fn subagents_whose_parent_was_never_indexed_are_junked_without_an_llm_call() {
    let mut outcome = AutoClassifyOutcome::default();
    outcome.record_junk(1, 1);
    assert_eq!(outcome.junked, 1);
    assert_eq!(outcome.assigned, 1);
    assert_eq!(outcome.errors, 0);
}

#[test]
fn every_move_is_counted_in_a_bucket_of_its_own() {
    let named = || "s".to_string();
    let moves = [
        Move::Junk,
        Move::Decline,
        Move::SpentTurns,
        Move::RefuseMissing(named()),
        Move::RefuseName(named()),
        Move::Assign(named()),
        Move::AssignNamed { name: named(), description: None },
        Move::Skip,
        Move::StampPending,
        Move::ProposeStream(named()),
        Move::ProposeNew { name: named(), description: None },
    ];
    let mut outcome = AutoClassifyOutcome::default();
    for act in &moves {
        outcome.record(act, 2, 0);
    }
    assert_eq!(
        outcome,
        AutoClassifyOutcome {
            assigned: 6,
            junked: 1,
            undetermined: 1,
            turns_exhausted: 1,
            refused_missing_stream: 1,
            refused: 1,
            skipped: 2,
            proposed: 2,
            ..AutoClassifyOutcome::default()
        }
    );
}

#[test]
fn a_proposal_is_filed_for_the_session_or_for_the_events() {
    let on_events = AssignmentTarget::Events(vec!["e1".to_string(), "e2".to_string()]);
    let by_id = draft_proposal(&on_events, &Move::ProposeStream("s1".to_string())).unwrap();
    assert_eq!(by_id.session_id, None);
    assert_eq!(by_id.event_ids, Some(vec!["e1".to_string(), "e2".to_string()]));
    assert_eq!(by_id.proposed_stream_id.as_deref(), Some("s1"));
    assert_eq!(by_id.proposed_new_stream, None);

    let act = Move::ProposeNew { name: "Billing".to_string(), description: None };
    let by_name = draft_proposal(&on_session(), &act).unwrap();
    assert_eq!(by_name.session_id.as_deref(), Some("session-a"));
    assert_eq!(by_name.event_ids, None);
    assert_eq!(by_name.proposed_stream_id, None);
    assert_eq!(
        by_name.proposed_new_stream.as_deref(),
        Some(r#"{"description":null,"name":"Billing","tags":[]}"#)
    );
    assert_ne!(by_id.id, by_name.id);
    assert!(draft_proposal(&on_session(), &Move::Skip).is_none());
}

#[test]
fn every_counter_and_cause_is_told_in_the_line() {
    let none = AutoClassifyOutcome::default();
    let mut lines = vec![summary_line(&none)];
    for outcome in [
        AutoClassifyOutcome { assigned: 1, ..none },
        AutoClassifyOutcome { assigned: 11, ..none },
        AutoClassifyOutcome { proposed: 1, ..none },
        AutoClassifyOutcome { superseded: 1, ..none },
        AutoClassifyOutcome { skipped_answered: 1, ..none },
        AutoClassifyOutcome { skipped: 1, ..none },
        AutoClassifyOutcome { errors: 1, ..none },
        AutoClassifyOutcome { junked: 1, ..none },
        AutoClassifyOutcome { refused: 1, ..none },
        AutoClassifyOutcome { refused_missing_stream: 1, ..none },
        AutoClassifyOutcome { undetermined: 1, ..none },
        AutoClassifyOutcome { turns_exhausted: 1, ..none },
    ] {
        lines.push(summary_line(&outcome));
    }
    for cause in [
        FailureCause::Api,
        FailureCause::Overloaded,
        FailureCause::Timeout,
        FailureCause::Parse,
        FailureCause::MissingApiKey,
    ] {
        let mut outcome = none;
        outcome.record_failure(cause);
        lines.push(summary_line(&outcome));
    }
    let count = lines.len();
    lines.sort();
    lines.dedup();
    assert_eq!(lines.len(), count);
}
