//! Which agent session runs in a pane.
use std::cell::RefCell;
use std::collections::HashMap;

use tt_cli::ingest::pane_session::{
    fdinfo_is_writable, listed_children, omp_session_in_open_files, parse_pane_pid,
    resolve_pane_session, session_for_pane, session_id_in_environ, ProcessSource, MAX_DEPTH,
    MAX_PROCESSES,
};
use tt_cli::ingest::pane_sweep::{
    parse_panes, resolve_panes, tmux_invocations, tmux_sockets, PaneSweepOutcome,
};

/// Content an agent process really does carry beside its session id, and
/// which must never come back out of this module.
const SECRETS: [&str; 4] = [
    "AWS_SECRET_ACCESS_KEY=wJalrXUtnFEMIfake",
    "ANTHROPIC_API_KEY=sk-ant-notreal",
    "HOME=/home/sami",
    "PATH=/usr/bin:/bin",
];

/// Builds a NUL-separated environment block in `/proc` layout.
fn environ_blob(entries: &[&str]) -> Vec<u8> {
    let mut raw = Vec::new();
    for entry in entries {
        raw.extend_from_slice(entry.as_bytes());
        raw.push(0);
    }
    raw
}

/// The sessions directory every walk test resolves against.
fn sessions_dir() -> &'static str {
    "/home/user/.omp/agent/sessions"
}

/// A top-level omp transcript path for `uuid` inside [`sessions_dir`].
fn transcript(uuid: &str) -> String {
    in_sessions_dir(&format!(
        "-Code-project/2026-08-30T16-55-24-400Z_{uuid}.jsonl"
    ))
}

/// A path inside [`sessions_dir`].
fn in_sessions_dir(path: &str) -> String {
    format!("{}/{path}", sessions_dir())
}

/// A scripted process tree. A pid absent from `environs` models one whose
/// environment cannot be read: permission denied, or the process exited
/// mid-walk.
struct FakeTree {
    children: HashMap<u32, Vec<u32>>,
    environs: HashMap<u32, Vec<u8>>,
    open_files: HashMap<u32, Vec<String>>,
    examined: RefCell<Vec<u32>>,
}

impl FakeTree {
    fn new() -> Self {
        Self {
            children: HashMap::new(),
            environs: HashMap::new(),
            open_files: HashMap::new(),
            examined: RefCell::new(Vec::new()),
        }
    }

    fn with_children(mut self, pid: u32, children: &[u32]) -> Self {
        self.children.insert(pid, children.to_vec());
        self
    }

    fn with_environ(mut self, pid: u32, entries: &[&str]) -> Self {
        self.environs.insert(pid, environ_blob(entries));
        self
    }

    fn with_open_files(mut self, pid: u32, paths: &[String]) -> Self {
        self.open_files.insert(pid, paths.to_vec());
        self
    }

    fn examined_count(&self) -> usize {
        self.examined.borrow().len()
    }
}

impl ProcessSource for FakeTree {
    fn children(&self, pid: u32) -> Vec<u32> {
        self.children.get(&pid).cloned().unwrap_or_default()
    }

    fn environ(&self, pid: u32) -> Option<Vec<u8>> {
        self.examined.borrow_mut().push(pid);
        self.environs.get(&pid).cloned()
    }

    fn open_file_paths(&self, pid: u32) -> Vec<String> {
        self.open_files.get(&pid).cloned().unwrap_or_default()
    }
}

/// A chain `root -> root+1 -> ... -> root+len`, session id on the deepest.
fn chain(root: u32, len: u32, session_id: &str) -> FakeTree {
    let mut tree = FakeTree::new();
    for step in 0..len {
        tree = tree
            .with_children(root + step, &[root + step + 1])
            .with_environ(root + step, &SECRETS);
    }
    let deepest = format!("OPENCODE_SESSION_ID={session_id}");
    let mut entries: Vec<&str> = SECRETS.to_vec();
    entries.push(&deepest);
    tree.with_environ(root + len, &entries)
}

#[test]
fn an_opencode_session_id_is_extracted() {
    let raw = environ_blob(&["OPENCODE_SESSION_ID=ses_0210f2ed2ffedhF4"]);
    assert_eq!(
        session_id_in_environ(&raw),
        Some("ses_0210f2ed2ffedhF4".to_string())
    );
}

#[test]
fn a_claude_session_id_is_extracted() {
    let raw = environ_blob(&["CLAUDE_CODE_SESSION_ID=1f7c0e3a-code"]);
    assert_eq!(
        session_id_in_environ(&raw),
        Some("1f7c0e3a-code".to_string())
    );
}

#[test]
fn a_session_id_is_found_past_leading_entries() {
    let mut entries: Vec<&str> = SECRETS.to_vec();
    entries.push("OPENCODE_SESSION_ID=ses_late");
    let raw = environ_blob(&entries);
    assert_eq!(session_id_in_environ(&raw), Some("ses_late".to_string()));
}

#[test]
fn only_the_two_session_variables_are_ever_extracted() {
    let mut entries: Vec<&str> = SECRETS.to_vec();
    // Names that contain a session variable's name but are not one.
    entries.push("MY_OPENCODE_SESSION_ID=decoy");
    entries.push("OPENCODE_SESSION_ID_OLD=decoy");
    entries.push("XCLAUDE_CODE_SESSION_ID=decoy");
    entries.push("NOTES=OPENCODE_SESSION_ID=decoy");
    assert_eq!(session_id_in_environ(&environ_blob(&entries)), None);
}

#[test]
fn no_other_environment_content_is_returned() {
    let mut entries: Vec<&str> = SECRETS.to_vec();
    entries.push("OPENCODE_SESSION_ID=ses_real");
    entries.push("GITHUB_TOKEN=ghp_notreal");
    let extracted =
        session_id_in_environ(&environ_blob(&entries)).expect("session id is present");
    assert_eq!(extracted, "ses_real");
    for secret in SECRETS.iter().chain(std::iter::once(&"ghp_notreal")) {
        assert!(
            !extracted.contains(secret),
            "extracted value leaked {secret}"
        );
    }
}

#[test]
fn an_environment_without_a_session_variable_yields_nothing() {
    assert_eq!(session_id_in_environ(&environ_blob(&SECRETS)), None);
    assert_eq!(session_id_in_environ(&[]), None);
}

#[test]
fn an_exported_but_empty_session_variable_is_not_a_session() {
    let raw = environ_blob(&["OPENCODE_SESSION_ID=", "CLAUDE_CODE_SESSION_ID="]);
    assert_eq!(session_id_in_environ(&raw), None);
}

#[test]
fn a_session_id_on_the_pane_process_itself_is_found() {
    let tree = FakeTree::new().with_environ(500, &["OPENCODE_SESSION_ID=ses_root"]);
    assert_eq!(
        resolve_pane_session(&tree, 500, sessions_dir()),
        Some("ses_root".to_string())
    );
}

#[test]
fn a_session_id_on_a_descendant_is_found() {
    // The measured shape on this machine: the pane's shell at depth 0, the
    // harness three generations below it.
    let tree = chain(64_344, 3, "ses_0210f2ed2ffedhF4");
    assert_eq!(
        resolve_pane_session(&tree, 64_344, sessions_dir()),
        Some("ses_0210f2ed2ffedhF4".to_string())
    );
}

#[test]
fn a_pane_running_no_agent_yields_no_session() {
    let tree = FakeTree::new()
        .with_children(600, &[601])
        .with_environ(600, &SECRETS)
        .with_environ(601, &SECRETS);
    assert_eq!(resolve_pane_session(&tree, 600, sessions_dir()), None);
}

#[test]
fn an_unreadable_process_does_not_abort_the_walk() {
    // 701 has no environ entry at all, modelling permission denied or a
    // process that exited mid-walk. The sibling behind it must still be seen.
    let tree = FakeTree::new()
        .with_children(700, &[701, 702])
        .with_environ(700, &SECRETS)
        .with_environ(702, &["OPENCODE_SESSION_ID=ses_sibling"]);
    assert_eq!(
        resolve_pane_session(&tree, 700, sessions_dir()),
        Some("ses_sibling".to_string())
    );
}

#[test]
fn an_unreadable_pane_process_yields_no_session() {
    let tree = FakeTree::new();
    assert_eq!(resolve_pane_session(&tree, 999, sessions_dir()), None);
}

#[test]
fn the_walk_examines_no_more_than_max_processes() {
    let children: Vec<u32> = (1..=200).map(|child| 1_000 + child).collect();
    let mut tree = FakeTree::new()
        .with_children(1_000, &children)
        .with_environ(1_000, &SECRETS);
    for child in &children {
        tree = tree.with_environ(*child, &SECRETS);
    }
    // Beyond the budget, so it must not be reached.
    tree = tree.with_environ(1_200, &["OPENCODE_SESSION_ID=ses_beyond_budget"]);

    assert_eq!(resolve_pane_session(&tree, 1_000, sessions_dir()), None);
    assert_eq!(tree.examined_count(), MAX_PROCESSES);
}

#[test]
fn a_session_id_at_the_depth_bound_is_still_found() {
    let tree = chain(2_000, MAX_DEPTH, "ses_at_bound");
    assert_eq!(
        resolve_pane_session(&tree, 2_000, sessions_dir()),
        Some("ses_at_bound".to_string())
    );
}

#[test]
fn a_session_id_below_the_depth_bound_is_not_reached() {
    let tree = chain(3_000, MAX_DEPTH + 1, "ses_too_deep");
    assert_eq!(resolve_pane_session(&tree, 3_000, sessions_dir()), None);
}

#[test]
fn a_cycle_in_the_reported_tree_terminates() {
    let tree = FakeTree::new()
        .with_children(4_000, &[4_001])
        .with_children(4_001, &[4_000, 4_001])
        .with_environ(4_000, &SECRETS)
        .with_environ(4_001, &SECRETS);
    assert_eq!(resolve_pane_session(&tree, 4_000, sessions_dir()), None);
    assert_eq!(tree.examined_count(), 2);
}

const OMP_UUID: &str = "01a05398-e5f0-7000-a23d-362dc282c9df";
const OTHER_UUID: &str = "01a0448c-641d-7000-ad02-75ed95a69f0a";

#[test]
fn an_open_omp_transcript_identifies_the_session() {
    let tree = FakeTree::new()
        .with_environ(500, &SECRETS)
        .with_open_files(500, &[transcript(OMP_UUID)]);
    assert_eq!(
        resolve_pane_session(&tree, 500, sessions_dir()),
        Some(OMP_UUID.to_string())
    );
}

#[test]
fn an_open_transcript_on_a_descendant_is_found() {
    // The measured shape: the pane's shell at depth 0, omp one generation below.
    let tree = FakeTree::new()
        .with_children(600, &[601])
        .with_environ(600, &SECRETS)
        .with_environ(601, &SECRETS)
        .with_open_files(601, &[transcript(OMP_UUID)]);
    assert_eq!(
        resolve_pane_session(&tree, 600, sessions_dir()),
        Some(OMP_UUID.to_string())
    );
}

#[test]
fn a_stamped_variable_wins_over_an_open_transcript() {
    // Within one process the environment is the harness's own claim about
    // itself; an open file is one step more inferred, so it must not shadow.
    let tree = FakeTree::new()
        .with_environ(700, &["OPENCODE_SESSION_ID=ses_env"])
        .with_open_files(700, &[transcript(OMP_UUID)]);
    assert_eq!(
        resolve_pane_session(&tree, 700, sessions_dir()),
        Some("ses_env".to_string())
    );
}

#[test]
fn a_subagent_transcript_is_not_an_identity() {
    // Three components below the sessions dir: a subagent transcript. Its stem
    // carries no session id, and the parent's own transcript is the identity.
    let subagent = in_sessions_dir("-Code-project/2026-08-30T16-55-24-400Z_x/Scout.jsonl");
    let tree = FakeTree::new()
        .with_environ(800, &SECRETS)
        .with_open_files(800, &[subagent]);
    assert_eq!(resolve_pane_session(&tree, 800, sessions_dir()), None);
}

#[test]
fn files_that_are_not_top_level_transcripts_are_ignored() {
    let noise = [
        // Outside the sessions dir entirely, uuid-shaped name or not.
        (format!(
            "/home/user/notes/2026-08-30T00-00-00-000Z_{OMP_UUID}.jsonl"
        )),
        "/home/user/.omp/agent/agent.db".to_string(),
        // Right depth, wrong extension: the .log and .md omp writes beside
        // every transcript, and /proc's rendering of an unlinked transcript.
        in_sessions_dir(&format!(
            "-Code-project/2026-08-30T00-00-00-000Z_{OMP_UUID}.log"
            )),
        in_sessions_dir(&format!(
            "-Code-project/2026-08-30T00-00-00-000Z_{OMP_UUID}.jsonl (deleted)"
            )),
        // Right place and extension, stem naming no session.
        in_sessions_dir("-Code-project/notes.jsonl"),
        in_sessions_dir("-Code-project/2026-08-30T00-00-00-000Z_not-a-uuid.jsonl"),
    ];
    let tree = FakeTree::new()
        .with_environ(900, &SECRETS)
        .with_open_files(900, &noise);
    assert_eq!(resolve_pane_session(&tree, 900, sessions_dir()), None);
}

#[test]
fn two_different_open_sessions_are_refused_as_ambiguous() {
    let tree = FakeTree::new()
        .with_environ(1_000, &SECRETS)
        .with_open_files(1_000, &[transcript(OMP_UUID), transcript(OTHER_UUID)]);
    assert_eq!(resolve_pane_session(&tree, 1_000, sessions_dir()), None);
}

#[test]
fn the_same_transcript_open_twice_still_resolves() {
    let tree = FakeTree::new()
        .with_environ(1_100, &SECRETS)
        .with_open_files(1_100, &[transcript(OMP_UUID), transcript(OMP_UUID)]);
    assert_eq!(
        resolve_pane_session(&tree, 1_100, sessions_dir()),
        Some(OMP_UUID.to_string())
    );
}

#[test]
fn two_agents_under_one_pane_are_refused_as_ambiguous() {
    // A backgrounded harness beside a foreground one: env var in one process,
    // an omp transcript in a sibling. BFS visit order is not an identity
    // signal, so neither candidate may win.
    let tree = FakeTree::new()
        .with_children(1_200, &[1_201, 1_202])
        .with_environ(1_200, &SECRETS)
        .with_environ(1_201, &["OPENCODE_SESSION_ID=ses_background"])
        .with_environ(1_202, &SECRETS)
        .with_open_files(1_202, &[transcript(OMP_UUID)]);
    assert_eq!(resolve_pane_session(&tree, 1_200, sessions_dir()), None);
}

#[test]
fn the_same_session_seen_in_two_processes_still_resolves() {
    // A harness and its worker both carry the one identity: agreement is not
    // ambiguity.
    let tree = FakeTree::new()
        .with_children(1_300, &[1_301, 1_302])
        .with_environ(1_300, &SECRETS)
        .with_open_files(1_301, &[transcript(OMP_UUID)])
        .with_open_files(1_302, &[transcript(OMP_UUID)]);
    assert_eq!(
        resolve_pane_session(&tree, 1_300, sessions_dir()),
        Some(OMP_UUID.to_string())
    );
}

#[test]
fn fdinfo_flags_decide_writability() {
    assert!(fdinfo_is_writable(
        "pos:\t0\nflags:\t0100001\nmnt_id:\t29\n"
    )); // O_WRONLY
    assert!(fdinfo_is_writable("pos:\t0\nflags:\t02100002\n")); // O_RDWR | O_APPEND
    assert!(!fdinfo_is_writable("pos:\t0\nflags:\t0100000\n")); // O_RDONLY
    assert!(!fdinfo_is_writable("")); // unparseable fails closed
}

/// A tree whose panes run agents or plain shells.
fn agents() -> FakeTree {
    FakeTree::new()
        .with_children(100, &[101])
        .with_environ(101, &["HOME=/home/x", "OPENCODE_SESSION_ID=ses_alpha"])
        .with_children(200, &[201])
        .with_environ(201, &["HOME=/home/x", "OPENCODE_SESSION_ID=ses_beta"])
        .with_children(300, &[])
        .with_environ(300, &["HOME=/home/x", "SHELL=/bin/bash"])
}

#[test]
fn a_sweep_identifies_agent_panes_and_skips_plain_shells() {
    let panes = vec![
        ("%1".to_string(), 100),
        ("%2".to_string(), 200),
        ("%3".to_string(), 300),
    ];

    let observations = resolve_panes(&agents(), &panes, sessions_dir());

    assert_eq!(
        observations,
        vec![
            ("%1".to_string(), "ses_alpha".to_string()),
            ("%2".to_string(), "ses_beta".to_string()),
        ]
    );
    assert_eq!(
        PaneSweepOutcome::of(&panes, &observations, 1),
        PaneSweepOutcome { panes: 3, identified: 2, recorded: 1 }
    );
}

#[test]
fn sockets_of_tmux_servers_are_listed_once_and_in_order() {
    let listed = "Num       RefCount Protocol Flags    Type St Inode Path\n\
        0000: 00000002 00000000 00010000 0001 01 1 /home/x/.tmux/sockets/tmux-1000/work\n\
        0000: 00000003 00000000 00000000 0001 03 2 /tmp/tmux-1000/default\n\
        0000: 00000003 00000000 00000000 0001 03 3 /tmp/tmux-1000/default\n\
        0000: 00000003 00000000 00000000 0001 03 4 /run/systemd/notify\n\
        0000: 00000003 00000000 00000000 0001 03 5 @tmux-abstract\n\
        0000: 00000003 00000000 00000000 0001 03 6\n";
    assert_eq!(
        tmux_sockets(listed),
        vec![
            "/home/x/.tmux/sockets/tmux-1000/work".to_string(),
            "/tmp/tmux-1000/default".to_string(),
        ]
    );
    assert!(tmux_sockets("").is_empty());
}

#[test]
fn tmux_is_asked_once_per_socket_or_once_at_its_default() {
    assert_eq!(tmux_invocations(Vec::new()), vec![Vec::<String>::new()]);
    assert_eq!(
        tmux_invocations(vec!["/a/tmux-1/x".to_string(), "/b/tmux-2/y".to_string()]),
        vec![
            vec!["-S".to_string(), "/a/tmux-1/x".to_string()],
            vec!["-S".to_string(), "/b/tmux-2/y".to_string()],
        ]
    );
}

#[test]
fn panes_are_read_from_a_listing_and_other_lines_are_left_out() {
    assert_eq!(
        parse_panes("%1 100\n  %2 200  \n%3\n%4 x\n%5 1 2\n%6 4294967296\n%7 4294967295\n"),
        vec![
            ("%1".to_string(), 100),
            ("%2".to_string(), 200),
            ("%7".to_string(), 4294967295),
        ]
    );
    assert!(parse_panes("").is_empty());
}

#[test]
fn a_pane_is_found_by_its_process_id_or_by_what_tmux_says() {
    let tree = agents();
    assert_eq!(
        session_for_pane(&tree, Some("100"), None, sessions_dir()),
        Some("ses_alpha".to_string())
    );
    assert_eq!(
        session_for_pane(&tree, Some("#{pane_pid}"), Some("200\n"), sessions_dir()),
        Some("ses_beta".to_string())
    );
    assert_eq!(session_for_pane(&tree, None, None, sessions_dir()), None);
    assert_eq!(session_for_pane(&tree, Some("300"), Some("100"), sessions_dir()), None);
    assert_eq!(parse_pane_pid(Some(" 42\n")), Some(42));
    assert_eq!(parse_pane_pid(Some("4294967296")), None);
}

#[test]
fn children_are_read_from_what_the_kernel_lists() {
    assert_eq!(listed_children("12 345 6\n"), vec![12, 345, 6]);
    assert_eq!(listed_children("12 x 6"), vec![12, 6]);
    assert!(listed_children("").is_empty());
}

#[test]
fn open_files_of_two_sessions_name_none() {
    let both = vec![transcript(OMP_UUID), transcript(OTHER_UUID)];
    assert_eq!(omp_session_in_open_files(&both, sessions_dir()), None);
    let one = vec!["/dev/null".to_string(), transcript(OTHER_UUID)];
    assert_eq!(
        omp_session_in_open_files(&one, sessions_dir()),
        Some(OTHER_UUID.to_string())
    );
}
