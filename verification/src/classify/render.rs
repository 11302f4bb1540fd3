//! What is shown for classification, as text.
use vstd::prelude::*;
use vstd::string::*;

use crate::classify::show::{truncate, ClassifyOutput, ClassifyStats, SessionSummary};
use crate::classify::EventCluster;
use crate::classify_auto::window_runs::WindowRun;
use crate::text;

verus! {

/// Bytes of a description that a session's row holds.
pub const DESCRIPTION_BYTES: usize = 60;

/// Bytes of a title that a window run's row holds.
pub const TITLE_BYTES: usize = 50;

/// Bytes of a session id that its row holds.
pub const ID_BYTES: usize = 25;

/// A horizontal rule and the end of its line.
pub open spec fn rule_line() -> Seq<char> {
    Seq::new(100, |i: int| '─') + "\n"@
}

/// The mark of something that has a stream or has none.
pub open spec fn status_mark(stream: Option<String>) -> Seq<char> {
    if stream is Some {
        "✓"@
    } else {
        "?"@
    }
}

/// The heading with the numbers of what is shown.
pub open spec fn heading(stats: ClassifyStats) -> Seq<char> {
    "CLASSIFY: "@ + text::decimal(stats.total_sessions as nat) + " sessions, "@ + text::decimal(
        stats.total_event_clusters as nat,
    ) + " event clusters ("@ + text::decimal(stats.unclassified_sessions as nat)
        + " unclassified sessions, "@ + text::decimal(stats.unclassified_event_clusters as nat)
        + " unclassified clusters)\n\n"@
}

/// What a session is described by: its summary, or its starting prompt.
pub open spec fn description(s: SessionSummary) -> Seq<char> {
    match (s.summary, s.starting_prompt) {
        (Some(summary), _) => summary@,
        (None, Some(prompt)) => prompt@,
        (None, None) => "(no description)"@,
    }
}

/// The start of a session id, or all of it where it cannot be cut there.
pub open spec fn short_id(id: Seq<char>) -> Seq<char> {
    if text::cuts_at(id, ID_BYTES as int) {
        text::byte_prefix(id, ID_BYTES as int)
    } else {
        id
    }
}

/// The row of a session.
pub open spec fn session_row(s: SessionSummary) -> Seq<char> {
    "  "@ + status_mark(s.stream_id) + " "@ + text::padded(short_id(s.session_id@), 25) + " "@
        + text::right_aligned(
        text::signed_decimal(
            match s.duration_minutes {
                Some(minutes) => minutes as int,
                None => 0,
            },
        ),
        5,
    ) + "m "@ + text::right_aligned(text::signed_decimal(s.tool_call_count as int), 4)
        + " tools  "@ + text::shortened(description(s), DESCRIPTION_BYTES as int) + "\n"@
}

/// The last two parts of a directory.
pub open spec fn short_cwd(cwd: Seq<char>) -> Seq<char> {
    let parts = text::pieces(cwd, '/');
    if parts.len() >= 2 {
        parts[parts.len() - 2] + "/"@ + parts.last()
    } else {
        parts.last()
    }
}

/// The row of a cluster.
pub open spec fn cluster_row(c: EventCluster) -> Seq<char> {
    "  "@ + status_mark(c.stream_id) + " "@ + text::padded(short_cwd(c.cwd@), 30) + " "@
        + text::right_aligned(text::signed_decimal(c.duration_minutes as int), 5) + "m "@
        + text::right_aligned(text::decimal(c.event_count as nat), 4) + " events  "@ + text::joined(
        text::texts(c.event_types@),
        ", "@,
    ) + "\n"@
}

/// The title of a window run: its first.
pub open spec fn run_title(r: WindowRun) -> Seq<char> {
    if r.titles@.len() > 0 {
        r.titles@[0]@
    } else {
        "(no title)"@
    }
}

/// The row of a window run.
pub open spec fn run_row(r: WindowRun) -> Seq<char> {
    "  "@ + status_mark(r.stream_id) + " "@ + text::padded(r.app_id@, 30) + " "@
        + text::right_aligned(text::signed_decimal(r.duration_minutes as int), 5) + "m "@
        + text::right_aligned(text::decimal(r.event_ids@.len()), 4) + " events  "@
        + text::shortened(run_title(r), TITLE_BYTES as int) + "\n"@
}

/// The rows of sessions.
pub open spec fn session_rows(sessions: Seq<SessionSummary>) -> Seq<char> {
    text::concat(sessions.map_values(|s: SessionSummary| session_row(s)))
}

/// The section of the clusters, where there are any.
pub open spec fn cluster_section(clusters: Seq<EventCluster>) -> Seq<char> {
    if clusters.len() == 0 {
        Seq::empty()
    } else {
        "\nEVENT CLUSTERS\n"@ + rule_line() + text::concat(
            clusters.map_values(|c: EventCluster| cluster_row(c)),
        )
    }
}

/// The section of the window runs, where there are any.
pub open spec fn run_section(runs: Seq<WindowRun>) -> Seq<char> {
    if runs.len() == 0 {
        Seq::empty()
    } else {
        "\nWINDOW RUNS\n"@ + rule_line() + text::concat(
            runs.map_values(|r: WindowRun| run_row(r)),
        )
    }
}

/// The summary of what is shown.
pub open spec fn summary_text(o: ClassifyOutput) -> Seq<char> {
    heading(o.stats) + "SESSIONS\n"@ + rule_line() + session_rows(o.sessions@) + cluster_section(
        o.event_clusters@,
    ) + run_section(o.window_runs@)
}

/// Whether each text that a row shortens can be cut there.
pub open spec fn rows_fit(o: ClassifyOutput) -> bool {
    &&& forall|i: int|
        0 <= i < o.sessions@.len() ==> text::can_shorten(
            #[trigger] description(o.sessions@[i]),
            DESCRIPTION_BYTES as int,
        )
    &&& forall|i: int|
        0 <= i < o.window_runs@.len() ==> text::can_shorten(
            #[trigger] run_title(o.window_runs@[i]),
            TITLE_BYTES as int,
        )
}

fn push_rule(out: &mut String)
    ensures
        final(out)@ == old(out)@ + rule_line(),
{
    let ghost before = out@;
    let ghost rule = Seq::new(100, |i: int| '─');
    let mut i: usize = 0;
    proof {
        assert(before + rule.take(0) =~= before);
    }
    while i < 100
        invariant
            i <= 100,
            rule == Seq::new(100, |i: int| '─'),
            out@ == before + rule.take(i as int),
        decreases 100 - i,
    {
        out.push('─');
        proof {
            assert(before + rule.take(i + 1) =~= (before + rule.take(i as int)).push('─'));
        }
        i += 1;
    }
    out.append("\n");
    proof {
        assert(rule.take(100) =~= rule);
        assert(final(out)@ =~= old(out)@ + rule_line());
    }
}

fn push_status(out: &mut String, stream: &Option<String>)
    ensures
        final(out)@ == old(out)@ + status_mark(*stream),
{
    if stream.is_some() {
        out.append("✓");
    } else {
        out.append("?");
    }
}

fn described(s: &SessionSummary) -> (r: &str)
    ensures
        r@ == description(*s),
{
    match (&s.summary, &s.starting_prompt) {
        (Some(summary), _) => summary.as_str(),
        (None, Some(prompt)) => prompt.as_str(),
        (None, None) => "(no description)",
    }
}

fn write_session_row(s: &SessionSummary) -> (r: String)
    requires
        text::can_shorten(description(*s), DESCRIPTION_BYTES as int),
    ensures
        r@ == session_row(*s),
{
    let mut out = "  ".to_owned();
    push_status(&mut out, &s.stream_id);
    out.append(" ");
    if s.session_id.as_str().is_char_boundary(ID_BYTES) {
        let id = text::prefix_bytes(s.session_id.as_str(), ID_BYTES);
        text::push_padded(&mut out, id.as_str(), 25);
    } else {
        text::push_padded(&mut out, s.session_id.as_str(), 25);
    }
    out.append(" ");
    let minutes: i64 = match s.duration_minutes {
        Some(minutes) => minutes,
        None => 0,
    };
    text::push_right_aligned(&mut out, minutes, 5);
    out.append("m ");
    text::push_right_aligned(&mut out, s.tool_call_count as i64, 4);
    out.append(" tools  ");
    out.append(truncate(described(s), DESCRIPTION_BYTES).as_str());
    out.append("\n");
    out
}

fn write_short_cwd(cwd: &str) -> (r: String)
    ensures
        r@ == short_cwd(cwd@),
{
    let parts = text::pieces_of(cwd, '/');
    let count: usize = parts.len();
    proof {
        assert(text::pieces(cwd@, '/').len() > 0);
        assert(text::texts(parts@).len() == parts@.len());
        assert(text::texts(parts@)[count - 1] == parts@[count - 1]@);
        if count >= 2 {
            assert(text::texts(parts@)[count - 2] == parts@[count - 2]@);
        }
    }
    if count >= 2 {
        let mut out = parts[count - 2].clone();
        out.append("/");
        out.append(parts[count - 1].as_str());
        out
    } else {
        parts[count - 1].clone()
    }
}

fn write_cluster_row(c: &EventCluster) -> (r: String)
    ensures
        r@ == cluster_row(*c),
{
    let mut out = "  ".to_owned();
    push_status(&mut out, &c.stream_id);
    out.append(" ");
    text::push_padded(&mut out, write_short_cwd(c.cwd.as_str()).as_str(), 30);
    out.append(" ");
    text::push_right_aligned(&mut out, c.duration_minutes, 5);
    out.append("m ");
    text::push_right_aligned_count(&mut out, c.event_count, 4);
    out.append(" events  ");
    out.append(text::join(&c.event_types, ", ").as_str());
    out.append("\n");
    out
}

fn title_of_run(r: &WindowRun) -> (title: &str)
    ensures
        title@ == run_title(*r),
{
    if r.titles.len() > 0 {
        r.titles[0].as_str()
    } else {
        "(no title)"
    }
}

fn write_run_row(r: &WindowRun) -> (row: String)
    requires
        text::can_shorten(run_title(*r), TITLE_BYTES as int),
    ensures
        row@ == run_row(*r),
{
    let mut out = "  ".to_owned();
    push_status(&mut out, &r.stream_id);
    out.append(" ");
    text::push_padded(&mut out, r.app_id.as_str(), 30);
    out.append(" ");
    text::push_right_aligned(&mut out, r.duration_minutes, 5);
    out.append("m ");
    text::push_right_aligned_count(&mut out, r.event_ids.len(), 4);
    out.append(" events  ");
    out.append(truncate(title_of_run(r), TITLE_BYTES).as_str());
    out.append("\n");
    out
}

fn write_heading(stats: &ClassifyStats) -> (r: String)
    ensures
        r@ == heading(*stats),
{
    let mut out = "CLASSIFY: ".to_owned();
    text::push_decimal(&mut out, stats.total_sessions as u64);
    out.append(" sessions, ");
    text::push_decimal(&mut out, stats.total_event_clusters as u64);
    out.append(" event clusters (");
    text::push_decimal(&mut out, stats.unclassified_sessions as u64);
    out.append(" unclassified sessions, ");
    text::push_decimal(&mut out, stats.unclassified_event_clusters as u64);
    out.append(" unclassified clusters)\n\n");
    out
}

fn write_session_rows(sessions: &Vec<SessionSummary>) -> (r: String)
    requires
        forall|i: int|
            0 <= i < sessions@.len() ==> text::can_shorten(
                #[trigger] description(sessions@[i]),
                DESCRIPTION_BYTES as int,
            ),
    ensures
        r@ == session_rows(sessions@),
{
    let ghost rows = sessions@.map_values(|s: SessionSummary| session_row(s));
    let mut out = String::new();
    let mut i: usize = 0;
    while i < sessions.len()
        invariant
            i <= sessions@.len(),
            rows == sessions@.map_values(|s: SessionSummary| session_row(s)),
            forall|i: int|
                0 <= i < sessions@.len() ==> text::can_shorten(
                    #[trigger] description(sessions@[i]),
                    DESCRIPTION_BYTES as int,
                ),
            out@ == text::concat(rows.take(i as int)),
        decreases sessions@.len() - i,
    {
        proof {
            assert(rows.take(i + 1).drop_last() =~= rows.take(i as int));
            assert(text::can_shorten(
                description(sessions@[i as int]),
                DESCRIPTION_BYTES as int,
            ));
        }
        out.append(write_session_row(&sessions[i]).as_str());
        i += 1;
    }
    proof {
        assert(rows.take(i as int) =~= rows);
    }
    out
}

fn write_cluster_section(clusters: &Vec<EventCluster>) -> (r: String)
    ensures
        r@ == cluster_section(clusters@),
{
    if clusters.len() == 0 {
        return String::new();
    }
    let ghost rows = clusters@.map_values(|c: EventCluster| cluster_row(c));
    let mut out = "\nEVENT CLUSTERS\n".to_owned();
    push_rule(&mut out);
    let ghost head = out@;
    let mut i: usize = 0;
    proof {
        assert(head + text::concat(rows.take(0)) =~= head);
    }
    while i < clusters.len()
        invariant
            i <= clusters@.len(),
            rows == clusters@.map_values(|c: EventCluster| cluster_row(c)),
            out@ == head + text::concat(rows.take(i as int)),
        decreases clusters@.len() - i,
    {
        proof {
            assert(rows.take(i + 1).drop_last() =~= rows.take(i as int));
        }
        out.append(write_cluster_row(&clusters[i]).as_str());
        proof {
            assert(out@ =~= head + text::concat(rows.take(i + 1)));
        }
        i += 1;
    }
    proof {
        assert(rows.take(i as int) =~= rows);
    }
    out
}

fn write_run_section(runs: &Vec<WindowRun>) -> (r: String)
    requires
        forall|i: int|
            0 <= i < runs@.len() ==> text::can_shorten(
                #[trigger] run_title(runs@[i]),
                TITLE_BYTES as int,
            ),
    ensures
        r@ == run_section(runs@),
{
    if runs.len() == 0 {
        return String::new();
    }
    let ghost rows = runs@.map_values(|r: WindowRun| run_row(r));
    let mut out = "\nWINDOW RUNS\n".to_owned();
    push_rule(&mut out);
    let ghost head = out@;
    let mut i: usize = 0;
    proof {
        assert(head + text::concat(rows.take(0)) =~= head);
    }
    while i < runs.len()
        invariant
            i <= runs@.len(),
            rows == runs@.map_values(|r: WindowRun| run_row(r)),
            forall|i: int|
                0 <= i < runs@.len() ==> text::can_shorten(
                    #[trigger] run_title(runs@[i]),
                    TITLE_BYTES as int,
                ),
            out@ == head + text::concat(rows.take(i as int)),
        decreases runs@.len() - i,
    {
        proof {
            assert(rows.take(i + 1).drop_last() =~= rows.take(i as int));
            assert(text::can_shorten(run_title(runs@[i as int]), TITLE_BYTES as int));
        }
        out.append(write_run_row(&runs[i]).as_str());
        proof {
            assert(out@ =~= head + text::concat(rows.take(i + 1)));
        }
        i += 1;
    }
    proof {
        assert(rows.take(i as int) =~= rows);
    }
    out
}

/// Whether each text that a row shortens can be cut there.
pub fn can_render(output: &ClassifyOutput) -> (r: bool)
    ensures
        r == rows_fit(*output),
{
    let mut i: usize = 0;
    while i < output.sessions.len()
        invariant
            i <= output.sessions@.len(),
            forall|k: int|
                0 <= k < i ==> text::can_shorten(
                    #[trigger] description(output.sessions@[k]),
                    DESCRIPTION_BYTES as int,
                ),
        decreases output.sessions@.len() - i,
    {
        if !text::is_shortenable(described(&output.sessions[i]), DESCRIPTION_BYTES) {
            proof {
                assert(!text::can_shorten(
                    description(output.sessions@[i as int]),
                    DESCRIPTION_BYTES as int,
                ));
            }
            return false;
        }
        i += 1;
    }
    let mut j: usize = 0;
    while j < output.window_runs.len()
        invariant
            j <= output.window_runs@.len(),
            forall|k: int|
                0 <= k < j ==> text::can_shorten(
                    #[trigger] run_title(output.window_runs@[k]),
                    TITLE_BYTES as int,
                ),
        decreases output.window_runs@.len() - j,
    {
        if !text::is_shortenable(title_of_run(&output.window_runs[j]), TITLE_BYTES) {
            proof {
                assert(!text::can_shorten(
                    run_title(output.window_runs@[j as int]),
                    TITLE_BYTES as int,
                ));
            }
            return false;
        }
        j += 1;
    }
    true
}

/// Writes the summary of what is shown.
pub fn print_summary(output: &ClassifyOutput) -> (r: String)
    requires
        rows_fit(*output),
    ensures
        r@ == summary_text(*output),
{
    let mut out = write_heading(&output.stats);
    out.append("SESSIONS\n");
    push_rule(&mut out);
    out.append(write_session_rows(&output.sessions).as_str());
    out.append(write_cluster_section(&output.event_clusters).as_str());
    out.append(write_run_section(&output.window_runs).as_str());
    out
}

/// A labelled line, where there is something to show in it.
pub open spec fn optional_line(label: Seq<char>, value: Option<Seq<char>>) -> Seq<char> {
    match value {
        Some(value) => label + value + "\n"@,
        None => Seq::empty(),
    }
}

/// The line of a session's duration, once it has ended.
pub open spec fn duration_line(minutes: Option<i64>) -> Seq<char> {
    match minutes {
        Some(minutes) => "    Duration: "@ + text::signed_decimal(minutes as int) + "m\n"@,
        None => Seq::empty(),
    }
}

/// When a session ended, or that it runs.
pub open spec fn end_text(end: Option<String>) -> Seq<char> {
    match end {
        Some(end) => end@,
        None => "running"@,
    }
}

/// The details of a session.
pub open spec fn session_details(s: SessionSummary) -> Seq<char> {
    "\n  Session: "@ + s.session_id@ + "\n    Source:  "@ + s.source@ + " ("@ + s.session_type@
        + ")\n"@ + optional_line("    Path:    "@, text::opt_text(s.project_path))
        + "    Time:    "@ + s.start_time@ + " → "@ + end_text(s.end_time) + "\n"@ + duration_line(
        s.duration_minutes,
    ) + "    Tools:   "@ + text::signed_decimal(s.tool_call_count as int) + " calls, "@
        + text::decimal(s.user_prompt_count as nat) + " user prompts\n"@ + optional_line(
        "    Summary: "@,
        text::opt_text(s.summary),
    ) + optional_line("    Prompt:  "@, text::opt_text(s.starting_prompt)) + optional_line(
        "    Proposed: "@,
        text::opt_text(s.proposed_stream),
    )
}

/// The summary and the details of each session.
pub open spec fn table_text(o: ClassifyOutput) -> Seq<char> {
    summary_text(o) + "\nDETAILS\n"@ + rule_line() + text::concat(
        o.sessions@.map_values(|s: SessionSummary| session_details(s)),
    )
}

fn push_optional_line(out: &mut String, label: &str, value: &Option<String>)
    ensures
        final(out)@ == old(out)@ + optional_line(label@, text::opt_text(*value)),
{
    if let Some(value) = value {
        out.append(label);
        out.append(value.as_str());
        out.append("\n");
        proof {
            assert(final(out)@ =~= old(out)@ + optional_line(label@, Some(value@)));
        }
    } else {
        proof {
            assert(old(out)@ + optional_line(label@, None) =~= old(out)@);
        }
    }
}

fn write_session_details(s: &SessionSummary) -> (r: String)
    ensures
        r@ == session_details(*s),
{
    let mut out = "\n  Session: ".to_owned();
    out.append(s.session_id.as_str());
    out.append("\n    Source:  ");
    out.append(s.source.as_str());
    out.append(" (");
    out.append(s.session_type.as_str());
    out.append(")\n");
    push_optional_line(&mut out, "    Path:    ", &s.project_path);
    out.append("    Time:    ");
    out.append(s.start_time.as_str());
    out.append(" → ");
    match &s.end_time {
        Some(end) => {
            out.append(end.as_str());
        },
        None => {
            out.append("running");
        },
    }
    out.append("\n");
    let ghost before = out@;
    match s.duration_minutes {
        Some(minutes) => {
            out.append("    Duration: ");
            text::push_signed(&mut out, minutes);
            out.append("m\n");
        },
        None => {},
    }
    proof {
        assert(out@ =~= before + duration_line(s.duration_minutes));
    }
    out.append("    Tools:   ");
    text::push_signed(&mut out, s.tool_call_count as i64);
    out.append(" calls, ");
    text::push_decimal(&mut out, s.user_prompt_count as u64);
    out.append(" user prompts\n");
    push_optional_line(&mut out, "    Summary: ", &s.summary);
    push_optional_line(&mut out, "    Prompt:  ", &s.starting_prompt);
    push_optional_line(&mut out, "    Proposed: ", &s.proposed_stream);
    out
}

/// Writes the summary and the details of each session.
pub fn print_table(output: &ClassifyOutput) -> (r: String)
    requires
        rows_fit(*output),
    ensures
        r@ == table_text(*output),
{
    let ghost details = output.sessions@.map_values(|s: SessionSummary| session_details(s));
    let mut out = print_summary(output);
    out.append("\nDETAILS\n");
    push_rule(&mut out);
    let ghost head = out@;
    let mut i: usize = 0;
    proof {
        assert(head + text::concat(details.take(0)) =~= head);
    }
    while i < output.sessions.len()
        invariant
            i <= output.sessions@.len(),
            details == output.sessions@.map_values(|s: SessionSummary| session_details(s)),
            out@ == head + text::concat(details.take(i as int)),
        decreases output.sessions@.len() - i,
    {
        proof {
            assert(details.take(i + 1).drop_last() =~= details.take(i as int));
        }
        out.append(write_session_details(&output.sessions[i]).as_str());
        proof {
            assert(out@ =~= head + text::concat(details.take(i + 1)));
        }
        i += 1;
    }
    proof {
        assert(details.take(i as int) =~= details);
    }
    out
}

/// Whether a text gives a number before a label.
pub open spec fn counts(s: Seq<char>, n: nat, label: Seq<char>) -> bool {
    exists|before: Seq<char>, after: Seq<char>|
        (before.len() > 0 ==> !text::is_digit(before.last(), 10)) && s == #[trigger] (before
            + text::decimal(n) + label + after)
}

/// The heading gives each number before what it counts.
pub proof fn headings_give_their_numbers(stats: ClassifyStats)
    ensures
        counts(heading(stats), stats.total_sessions as nat, " sessions, "@),
        counts(heading(stats), stats.total_event_clusters as nat, " event clusters ("@),
        counts(heading(stats), stats.unclassified_sessions as nat, " unclassified sessions, "@),
        counts(
            heading(stats),
            stats.unclassified_event_clusters as nat,
            " unclassified clusters)"@,
        ),
{
    reveal_strlit("CLASSIFY: ");
    reveal_strlit(" sessions, ");
    reveal_strlit(" event clusters (");
    reveal_strlit(" unclassified sessions, ");
    reveal_strlit(" unclassified clusters)\n\n");
    reveal_strlit(" unclassified clusters)");
    let line = heading(stats);
    let n = (
        text::decimal(stats.total_sessions as nat),
        text::decimal(stats.total_event_clusters as nat),
        text::decimal(stats.unclassified_sessions as nat),
        text::decimal(stats.unclassified_event_clusters as nat),
    );
    let a = "CLASSIFY: "@;
    let b = a + n.0 + " sessions, "@;
    let c = b + n.1 + " event clusters ("@;
    let d = c + n.2 + " unclassified sessions, "@;
    let z = "\n\n"@;
    reveal_strlit("\n\n");
    let w = d + n.3 + " unclassified clusters)"@ + z;
    assert(" unclassified clusters)\n\n"@ =~= " unclassified clusters)"@ + z);
    assert(line =~= w);
    let y = n.3 + " unclassified clusters)"@ + z;
    let x = n.2 + " unclassified sessions, "@ + y;
    let v = n.1 + " event clusters ("@ + x;
    assert(line =~= a + n.0 + " sessions, "@ + v);
    assert(line =~= b + n.1 + " event clusters ("@ + x);
    assert(line =~= c + n.2 + " unclassified sessions, "@ + y);
    assert(a.last() == ' ' && b.last() == ' ' && c.last() == '(' && d.last() == ' ');
}

/// A session is described by its summary where it has one, and otherwise by its prompt.
pub proof fn summaries_describe_before_prompts(s: SessionSummary)
    ensures
        s.summary matches Some(summary) ==> description(s) == summary@,
        s.summary is None ==> (s.starting_prompt matches Some(prompt) ==> description(s)
            == prompt@),
        s.summary is None && s.starting_prompt is None ==> description(s) == "(no description)"@,
        s.stream_id is Some ==> status_mark(s.stream_id) == "✓"@,
        s.stream_id is None ==> status_mark(s.stream_id) == "?"@,
{
}

/// The rows come in the order of what they show, one for each.
pub proof fn rows_come_in_order(
    sessions: (Seq<SessionSummary>, SessionSummary),
    clusters: (Seq<EventCluster>, EventCluster),
    runs: (Seq<WindowRun>, WindowRun),
)
    ensures
        session_rows(sessions.0.push(sessions.1)) == session_rows(sessions.0) + session_row(
            sessions.1,
        ),
        session_rows(Seq::empty()).len() == 0,
        clusters.0.len() > 0 ==> cluster_section(clusters.0.push(clusters.1)) == cluster_section(
            clusters.0,
        ) + cluster_row(clusters.1),
        runs.0.len() > 0 ==> run_section(runs.0.push(runs.1)) == run_section(runs.0) + run_row(
            runs.1,
        ),
        cluster_section(Seq::empty()).len() == 0,
        run_section(Seq::empty()).len() == 0,
{
    let by_session = |s: SessionSummary| session_row(s);
    let by_cluster = |c: EventCluster| cluster_row(c);
    let by_run = |r: WindowRun| run_row(r);
    assert(sessions.0.push(sessions.1).map_values(by_session).drop_last()
        =~= sessions.0.map_values(by_session));
    assert(clusters.0.push(clusters.1).map_values(by_cluster).drop_last()
        =~= clusters.0.map_values(by_cluster));
    assert(runs.0.push(runs.1).map_values(by_run).drop_last() =~= runs.0.map_values(by_run));
    assert(Seq::<SessionSummary>::empty().map_values(by_session) =~= Seq::empty());
    assert(session_rows(sessions.0.push(sessions.1)) =~= session_rows(sessions.0) + session_row(
        sessions.1,
    ));
    if clusters.0.len() > 0 {
        assert(cluster_section(clusters.0.push(clusters.1)) =~= cluster_section(clusters.0)
            + cluster_row(clusters.1));
    }
    if runs.0.len() > 0 {
        assert(run_section(runs.0.push(runs.1)) =~= run_section(runs.0) + run_row(runs.1));
    }
}

/// The row of a session shows its mark and the start of its id first, then how long it
/// lasted, how many tools it used, and what describes it, at the end.
pub proof fn session_rows_show_the_session(s: SessionSummary)
    ensures
        ({
            let row = session_row(s);
            let head = "  "@ + status_mark(s.stream_id) + " "@ + text::padded(
                short_id(s.session_id@),
                25,
            );
            let minutes = match s.duration_minutes {
                Some(minutes) => minutes as int,
                None => 0,
            };
            let tail = " tools  "@ + text::shortened(description(s), 60) + "\n"@;
            &&& row.take(head.len() as int) == head
            &&& row.skip(row.len() - tail.len()) == tail
            &&& text::stands_in(
                text::right_aligned(text::signed_decimal(minutes), 5) + "m "@,
                row.skip(head.len() as int),
            )
            &&& text::stands_in(
                "m "@ + text::right_aligned(text::signed_decimal(s.tool_call_count as int), 4)
                    + " tools  "@,
                row,
            )
        }),
{
    let row = session_row(s);
    let head = "  "@ + status_mark(s.stream_id) + " "@ + text::padded(short_id(s.session_id@), 25);
    let minutes = match s.duration_minutes {
        Some(minutes) => minutes as int,
        None => 0,
    };
    let lasted = text::right_aligned(text::signed_decimal(minutes), 5);
    let used = text::right_aligned(text::signed_decimal(s.tool_call_count as int), 4);
    let last = text::shortened(description(s), 60) + "\n"@;
    let tail = " tools  "@ + text::shortened(description(s), 60) + "\n"@;
    assert(row.take(head.len() as int) =~= head);
    assert(row.skip(row.len() - tail.len()) =~= tail);
    assert(row.skip(head.len() as int) =~= " "@ + (lasted + "m "@) + (used + tail));
    assert(row =~= (head + " "@ + lasted) + ("m "@ + used + " tools  "@) + last);
}

/// The details of a session give its start before its end, and each thing behind its own
/// label.
pub proof fn details_give_each_thing_under_its_label(s: SessionSummary)
    ensures
        text::stands_in("\n  Session: "@ + s.session_id@ + "\n"@, session_details(s)),
        text::stands_in("    Source:  "@ + s.source@ + " ("@ + s.session_type@ + ")\n"@, session_details(s)),
        s.project_path matches Some(path) ==> text::stands_in(
            "    Path:    "@ + path@ + "\n"@,
            session_details(s),
        ),
        s.end_time matches Some(end) ==> text::stands_in(
            "    Time:    "@ + s.start_time@ + " → "@ + end@ + "\n"@,
            session_details(s),
        ),
        s.end_time is None ==> text::stands_in(
            "    Time:    "@ + s.start_time@ + " → "@ + "running"@ + "\n"@,
            session_details(s),
        ),
        s.duration_minutes matches Some(minutes) ==> text::stands_in(
            "    Duration: "@ + text::signed_decimal(minutes as int) + "m\n"@,
            session_details(s),
        ),
        text::stands_in(
            "    Tools:   "@ + text::signed_decimal(s.tool_call_count as int) + " calls, "@
                + text::decimal(s.user_prompt_count as nat) + " user prompts\n"@,
            session_details(s),
        ),
        s.summary matches Some(summary) ==> text::stands_in(
            "    Summary: "@ + summary@ + "\n"@,
            session_details(s),
        ),
        s.starting_prompt matches Some(prompt) ==> text::stands_in(
            "    Prompt:  "@ + prompt@ + "\n"@,
            session_details(s),
        ),
        s.proposed_stream matches Some(name) ==> text::stands_in(
            "    Proposed: "@ + name@ + "\n"@,
            session_details(s),
        ),
{
    let parts = detail_parts(s);
    parts_make_the_details(s);
    text::part_stands_in(parts, 0);
    text::part_stands_in(parts, 1);
    text::part_stands_in(parts, 2);
    text::part_stands_in(parts, 3);
    text::part_stands_in(parts, 4);
    text::part_stands_in(parts, 5);
    text::part_stands_in(parts, 6);
    text::part_stands_in(parts, 7);
    text::part_stands_in(parts, 8);
}

/// The parts of a session's details.
spec fn detail_parts(s: SessionSummary) -> Seq<Seq<char>> {
    seq![
        "\n  Session: "@ + s.session_id@ + "\n"@,
        "    Source:  "@ + s.source@ + " ("@ + s.session_type@ + ")\n"@,
        optional_line("    Path:    "@, text::opt_text(s.project_path)),
        "    Time:    "@ + s.start_time@ + " → "@ + end_text(s.end_time) + "\n"@,
        duration_line(s.duration_minutes),
        "    Tools:   "@ + text::signed_decimal(s.tool_call_count as int) + " calls, "@
            + text::decimal(s.user_prompt_count as nat) + " user prompts\n"@,
        optional_line("    Summary: "@, text::opt_text(s.summary)),
        optional_line("    Prompt:  "@, text::opt_text(s.starting_prompt)),
        optional_line("    Proposed: "@, text::opt_text(s.proposed_stream)),
    ]
}

proof fn parts_make_the_details(s: SessionSummary)
    ensures
        session_details(s) == text::concat(detail_parts(s)),
{
    reveal_strlit("\n    Source:  ");
    reveal_strlit("    Source:  ");
    reveal_strlit("\n");
    assert("\n    Source:  "@ =~= "\n"@ + "    Source:  "@);
    let parts = detail_parts(s);
    text::concat_grows(parts, 0);
    text::concat_grows(parts, 1);
    text::concat_grows(parts, 2);
    text::concat_grows(parts, 3);
    text::concat_grows(parts, 4);
    text::concat_grows(parts, 5);
    text::concat_grows(parts, 6);
    text::concat_grows(parts, 7);
    text::concat_grows(parts, 8);
    assert(parts.take(9) =~= parts);
    assert(text::concat(parts.take(0)) =~= Seq::empty());
    let start = "\n  Session: "@ + s.session_id@ + "\n    Source:  "@ + s.source@ + " ("@
        + s.session_type@ + ")\n"@;
    assert(text::concat(parts.take(2)) =~= start);
    let to_path = start + parts[2];
    assert(text::concat(parts.take(3)) == to_path);
    let to_time = to_path + "    Time:    "@ + s.start_time@ + " → "@ + end_text(s.end_time)
        + "\n"@;
    assert(text::concat(parts.take(4)) =~= to_time);
    let to_duration = to_time + parts[4];
    assert(text::concat(parts.take(5)) == to_duration);
    let to_tools = to_duration + "    Tools:   "@ + text::signed_decimal(s.tool_call_count as int)
        + " calls, "@ + text::decimal(s.user_prompt_count as nat) + " user prompts\n"@;
    assert(text::concat(parts.take(6)) =~= to_tools);
}

/// A directory is shown by its last two parts, and one of a single part by that.
pub proof fn directories_are_shown_by_their_end(start: Seq<char>, a: Seq<char>, b: Seq<char>)
    requires
        forall|i: int| 0 <= i < a.len() ==> a[i] != '/',
        forall|i: int| 0 <= i < b.len() ==> b[i] != '/',
    ensures
        short_cwd(b) == b,
        short_cwd(a + seq!['/'] + b) == a + "/"@ + b,
        short_cwd(start + seq!['/'] + (a + seq!['/'] + b)) == a + "/"@ + b,
{
    text::texts_fall_into_pieces(b, b, '/');
    text::texts_fall_into_pieces(a, b, '/');
    let tail = a + seq!['/'] + b;
    text::texts_fall_into_pieces(start, tail, '/');
    assert(text::pieces(tail, '/') =~= seq![a, b]);
    let parts = text::pieces(start + seq!['/'] + tail, '/');
    assert(parts[parts.len() - 2] == a);
    assert(parts.last() == b);
}

/// The row of a cluster shows its mark and its directory first, then how long it lasted
/// and how many events it has, and the types of these at the end.
pub proof fn cluster_rows_show_the_cluster(c: EventCluster)
    ensures
        ({
            let row = cluster_row(c);
            let head = "  "@ + status_mark(c.stream_id) + " "@ + text::padded(
                short_cwd(c.cwd@),
                30,
            ) + " "@;
            let lasted = text::right_aligned(text::signed_decimal(c.duration_minutes as int), 5)
                + "m "@;
            let tail = text::right_aligned(text::decimal(c.event_count as nat), 4) + " events  "@
                + text::joined(text::texts(c.event_types@), ", "@) + "\n"@;
            &&& row.take(head.len() as int) == head
            &&& row.skip(head.len() as int).take(lasted.len() as int) == lasted
            &&& row.skip(row.len() - tail.len()) == tail
        }),
{
    let row = cluster_row(c);
    let head = "  "@ + status_mark(c.stream_id) + " "@ + text::padded(short_cwd(c.cwd@), 30)
        + " "@;
    let lasted = text::right_aligned(text::signed_decimal(c.duration_minutes as int), 5) + "m "@;
    let tail = text::right_aligned(text::decimal(c.event_count as nat), 4) + " events  "@
        + text::joined(text::texts(c.event_types@), ", "@) + "\n"@;
    assert(row =~= head + lasted + tail);
    assert(row.take(head.len() as int) =~= head);
    assert(row.skip(head.len() as int).take(lasted.len() as int) =~= lasted);
    assert(row.skip(row.len() - tail.len()) =~= tail);
}

/// The row of a window run shows its mark and its app first, then how long it lasted and
/// how many events it has, and its first title at the end.
pub proof fn run_rows_show_the_run(r: WindowRun)
    ensures
        r.titles@.len() > 0 ==> run_title(r) == r.titles@[0]@,
        r.titles@.len() == 0 ==> run_title(r) == "(no title)"@,
        ({
            let row = run_row(r);
            let head = "  "@ + status_mark(r.stream_id) + " "@ + text::padded(r.app_id@, 30)
                + " "@;
            let lasted = text::right_aligned(text::signed_decimal(r.duration_minutes as int), 5)
                + "m "@;
            let tail = text::right_aligned(text::decimal(r.event_ids@.len()), 4) + " events  "@
                + text::shortened(run_title(r), 50) + "\n"@;
            &&& row.take(head.len() as int) == head
            &&& row.skip(head.len() as int).take(lasted.len() as int) == lasted
            &&& row.skip(row.len() - tail.len()) == tail
        }),
{
    let row = run_row(r);
    let head = "  "@ + status_mark(r.stream_id) + " "@ + text::padded(r.app_id@, 30) + " "@;
    let lasted = text::right_aligned(text::signed_decimal(r.duration_minutes as int), 5) + "m "@;
    let tail = text::right_aligned(text::decimal(r.event_ids@.len()), 4) + " events  "@
        + text::shortened(run_title(r), 50) + "\n"@;
    assert(row =~= head + lasted + tail);
    assert(row.take(head.len() as int) =~= head);
    assert(row.skip(head.len() as int).take(lasted.len() as int) =~= lasted);
    assert(row.skip(row.len() - tail.len()) =~= tail);
}

/// The table is the summary and then the details of every session, in their order.
pub proof fn tables_hold_the_details_of_every_session(o: ClassifyOutput, i: int)
    requires
        0 <= i < o.sessions@.len(),
    ensures
        table_text(o).take(summary_text(o).len() as int) == summary_text(o),
        text::stands_in(session_details(o.sessions@[i]), table_text(o)),
        text::stands_in(session_row(o.sessions@[i]), summary_text(o)),
{
    let details = o.sessions@.map_values(|s: SessionSummary| session_details(s));
    let rows = o.sessions@.map_values(|s: SessionSummary| session_row(s));
    let summary = summary_text(o);
    assert(table_text(o).take(summary.len() as int) =~= summary);
    assert(text::stands_in(details[i], table_text(o))) by {
        let before = summary + "\nDETAILS\n"@ + rule_line();
        text::part_stands_in(details, i);
        text::part_stays_in(details[i], text::concat(details), before, Seq::empty());
        assert(before + text::concat(details) + Seq::<char>::empty() =~= table_text(o));
    }
    assert(text::stands_in(rows[i], summary)) by {
        let before = heading(o.stats) + "SESSIONS\n"@ + rule_line();
        let clusters = cluster_section(o.event_clusters@);
        let runs = run_section(o.window_runs@);
        text::part_stands_in(rows, i);
        text::part_stays_in(rows[i], text::concat(rows), before, clusters);
        text::part_stays_in(
            rows[i],
            before + text::concat(rows) + clusters,
            Seq::empty(),
            runs,
        );
        assert(Seq::<char>::empty() + (before + text::concat(rows) + clusters)
            =~= before + text::concat(rows) + clusters);
    }
}

} // verus!
