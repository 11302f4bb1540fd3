//! Lookups that a command answers.
use tt_cli::classify_auto::context_provider::{
    bounded_text, conclude, drain_capped, poll_step, ChildState, CommandContextProvider, PollStep,
    CAPTURE_BYTES, CONTEXT_LOOKUP_TIMEOUT_MS, MAX_CONTEXT_LOOKUP_RESULT_BYTES,
};

#[test]
fn a_failed_lookup_command_is_a_clean_tool_result_and_the_classification_continues() {
    let rendered =
        conclude(false, "exit status: 17", Vec::new(), b"lookup is unavailable\n".to_vec())
            .unwrap_err();
    assert!(rendered.contains("context command failed"), "{rendered}");
    assert!(rendered.contains("lookup is unavailable"), "{rendered}");
    assert_eq!(
        rendered,
        "context command failed with exit status: 17: lookup is unavailable"
    );
    assert_eq!(
        conclude(false, "signal: 9", b"ignored".to_vec(), b" \n".to_vec()).unwrap_err(),
        "context command failed with signal: 9: no error output"
    );
}

#[test]
fn lookup_results_are_truncated_with_a_marker() {
    let mut captured = Vec::new();
    drain_capped(&mut captured, "0".repeat(5000).as_bytes());
    let text = conclude(true, "", captured, Vec::new()).unwrap();
    assert!(
        text.len() <= MAX_CONTEXT_LOOKUP_RESULT_BYTES,
        "{} bytes",
        text.len()
    );
    assert!(
        text.ends_with("[context lookup output truncated]"),
        "{text}"
    );
}

#[test]
fn valid_multibyte_lookup_output_split_by_the_capture_cap_is_truncated() {
    let mut captured = Vec::new();
    for _ in 0..2000 {
        drain_capped(&mut captured, "€".as_bytes());
    }
    assert_eq!(captured.len(), CAPTURE_BYTES);
    let text = bounded_text(captured, "stdout").unwrap();
    assert!(
        text.len() <= MAX_CONTEXT_LOOKUP_RESULT_BYTES,
        "{}",
        text.len()
    );
    assert!(
        text.ends_with("[context lookup output truncated]"),
        "{text}"
    );
    assert!(text.starts_with("€€€"));
}

#[test]
fn configured_lookup_command_appends_the_query_as_one_argument() {
    let provider = CommandContextProvider::new("/bin/lookup --source 'operator notes'").unwrap();
    assert_eq!(provider.program, "/bin/lookup");
    assert_eq!(
        provider.arguments("sample migration initiative"),
        ["--source", "operator notes", "sample migration initiative"]
    );
    assert_eq!(provider.timeout_ms, CONTEXT_LOOKUP_TIMEOUT_MS);
}

#[test]
fn a_command_must_name_a_program_and_end_its_quotes() {
    assert_eq!(
        CommandContextProvider::new("  ").unwrap_err(),
        "context command must name a program"
    );
    assert_eq!(
        CommandContextProvider::new("lookup 'open").unwrap_err(),
        "context command contains an unmatched quote or escape"
    );
    let provider = CommandContextProvider::with_timeout("look\\ up x", 100).unwrap();
    assert_eq!(provider.program, "look up");
    assert_eq!(provider.args, ["x"]);
    assert_eq!(provider.timeout_ms, 100);
}

#[test]
fn output_that_is_no_text_is_an_error() {
    let error = bounded_text(vec![97, 0xff, 98], "stdout").unwrap_err();
    assert!(error.starts_with("context command emitted non-UTF-8 stdout: "), "{error}");
    // A character that the command itself left unfinished is no cut of ours.
    assert!(bounded_text(vec![97, 0xe2, 0x82], "stderr").is_err());
    assert_eq!(bounded_text(b"fine".to_vec(), "stdout").unwrap(), "fine");
    assert_eq!(bounded_text(Vec::new(), "stdout").unwrap(), "");
}

#[test]
fn a_command_may_run_until_its_deadline() {
    assert_eq!(poll_step(ChildState::Running, false), PollStep::Wait);
    assert_eq!(poll_step(ChildState::Running, true), PollStep::TimeOut);
    assert_eq!(poll_step(ChildState::Ended, true), PollStep::Collect);
    assert_eq!(poll_step(ChildState::Unreadable, false), PollStep::Fail);
}

#[test]
fn long_output_is_refused_where_its_end_is_wrong_and_kept_where_it_is_unfinished() {
    let output = |end: &[u8]| {
        let mut bytes = vec![b'a'; MAX_CONTEXT_LOOKUP_RESULT_BYTES];
        bytes.extend_from_slice(end);
        bounded_text(bytes, "stdout")
    };
    for unfinished in [&[0xe2u8, 0x82][..], &[0xf0, 0x9f, 0x98], &[0xc3]] {
        assert!(output(unfinished).is_ok(), "{unfinished:?}");
    }
    for wrong in [&[0xffu8][..], &[0xe0, 0x80], &[0xed, 0xa0], &[0xf4, 0x90, 0x80], &[0xc3, b'a']] {
        assert!(output(wrong).is_err(), "{wrong:?}");
    }
}
