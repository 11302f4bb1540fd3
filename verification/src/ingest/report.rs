//! What is reported of a pass over the agent sessions.
use vstd::prelude::*;
use vstd::string::*;

use crate::ingest::sessions::{ScanMode, ScannedSessions};
use crate::model::{AgentSession, StoredEvent};
use crate::order;
use crate::order::{CountKey, CountRank, Ranked};
use crate::text;
use crate::time;
use crate::time::{Instant, Timestamp};

verus! {

broadcast use vstd::seq_lib::group_seq_properties;

/// How many projects are listed.
pub const LISTED_PROJECTS: usize = 10;

/// What the attribution passes assigned.
#[derive(Clone, Copy, Debug, PartialEq, Eq, Structural)]
pub struct AttributionCounts {
    pub session_membership: u64,
    pub terminal_focus: u64,
    pub artifact_reference: u64,
}

impl Default for AttributionCounts {
    fn default() -> (r: Self)
        ensures
            r == (AttributionCounts {
                session_membership: 0,
                terminal_focus: 0,
                artifact_reference: 0,
            }),
    {
        AttributionCounts { session_membership: 0, terminal_focus: 0, artifact_reference: 0 }
    }
}

/// What a pass did.
#[derive(Debug)]
pub struct IngestReport {
    pub claude: usize,
    pub opencode: usize,
    pub omp: usize,
    pub indexed_events: usize,
    pub imported_events: usize,
    pub drained_events: usize,
    pub stale_events_cleaned: u64,
    pub injected_events_pruned: u64,
    pub session_membership_assigned: u64,
    pub terminal_focus_assigned: u64,
    pub artifact_focus_assigned: u64,
    /// Projects with their numbers of sessions, the largest first.
    pub projects: Vec<(String, usize)>,
    pub scanned_claude: bool,
    pub scanned_opencode: bool,
    pub scanned_omp: bool,
}

/// What a pass counted.
#[derive(Clone, Copy, Debug)]
pub struct PassCounts {
    /// Events that the sessions gave.
    pub indexed_events: usize,
    /// Those of them that had not been stored.
    pub inserted_events: usize,
    /// Events newly stored from the local events file.
    pub drained_events: usize,
    pub stale_events_cleaned: u64,
    pub injected_events_pruned: u64,
    pub attribution: AttributionCounts,
}

/// The position of a name in a tally; its length where the name is not there.
pub open spec fn place_of(tally: Seq<(Seq<char>, nat)>, name: Seq<char>, from: int) -> int
    decreases tally.len() - from,
{
    if from >= tally.len() {
        tally.len() as int
    } else if tally[from].0 == name {
        from
    } else {
        place_of(tally, name, from + 1)
    }
}

proof fn place_is_first(tally: Seq<(Seq<char>, nat)>, name: Seq<char>, from: int)
    requires
        0 <= from <= tally.len(),
    ensures
        from <= place_of(tally, name, from) <= tally.len(),
        place_of(tally, name, from) < tally.len() ==> tally[place_of(tally, name, from)].0 == name,
        forall|i: int| from <= i < place_of(tally, name, from) ==> (#[trigger] tally[i]).0 != name,
    decreases tally.len() - from,
{
    if from < tally.len() && tally[from].0 != name {
        place_is_first(tally, name, from + 1);
    }
}

/// A tally with one more of a name.
pub open spec fn tallied(tally: Seq<(Seq<char>, nat)>, name: Seq<char>) -> Seq<(Seq<char>, nat)> {
    let k = place_of(tally, name, 0);
    if k < tally.len() {
        tally.update(k, (name, tally[k].1 + 1))
    } else {
        tally.push((name, 1))
    }
}

/// How often each name occurs, in the order of first occurrence.
pub open spec fn tally_of(names: Seq<Seq<char>>) -> Seq<(Seq<char>, nat)>
    decreases names.len(),
{
    if names.len() == 0 {
        Seq::empty()
    } else {
        tallied(tally_of(names.drop_last()), names.last())
    }
}

/// A tally, as text and number.
pub open spec fn tally_view(tally: Seq<(String, usize)>) -> Seq<(Seq<char>, nat)> {
    Seq::new(tally.len(), |i: int| (tally[i].0@, tally[i].1 as nat))
}

/// The numbers of a tally as keys, the largest first.
pub open spec fn count_keys(tally: Seq<(Seq<char>, nat)>) -> Seq<CountKey> {
    Seq::new(tally.len(), |i: int| CountKey(tally[i].1 as int))
}

/// The project names of sessions.
pub open spec fn project_names(sessions: Seq<AgentSession>) -> Seq<Seq<char>> {
    Seq::new(sessions.len(), |i: int| sessions[i].project_name@)
}

/// Projects with their numbers of sessions, the largest first.
pub open spec fn projects_by_size(names: Seq<Seq<char>>) -> Seq<(Seq<char>, nat)> {
    order::stably_sorted(tally_of(names), count_keys(tally_of(names)))
}

/// The sum of a tally.
pub open spec fn tally_sum(tally: Seq<(Seq<char>, nat)>) -> nat
    decreases tally.len(),
{
    if tally.len() == 0 {
        0
    } else {
        tally_sum(tally.drop_last()) + tally.last().1
    }
}

proof fn sum_of_update(tally: Seq<(Seq<char>, nat)>, k: int, name: Seq<char>)
    requires
        0 <= k < tally.len(),
    ensures
        tally_sum(tally.update(k, (name, tally[k].1 + 1))) == tally_sum(tally) + 1,
    decreases tally.len(),
{
    let changed = tally.update(k, (name, tally[k].1 + 1));
    if k == tally.len() - 1 {
        assert(changed.drop_last() =~= tally.drop_last());
    } else {
        sum_of_update(tally.drop_last(), k, name);
        assert(changed.drop_last() =~= tally.drop_last().update(k, (name, tally[k].1 + 1)));
    }
}

/// A tally counts every name, and lists each name once.
pub proof fn tallies_count_everything(names: Seq<Seq<char>>)
    ensures
        tally_sum(tally_of(names)) == names.len(),
        forall|i: int, j: int|
            0 <= i < j < tally_of(names).len() ==> (#[trigger] tally_of(names)[i]).0 != (
            #[trigger] tally_of(names)[j]).0,
        forall|i: int| 0 <= i < tally_of(names).len() ==> (#[trigger] tally_of(names)[i]).1 > 0,
    decreases names.len(),
{
    if names.len() > 0 {
        tallies_count_everything(names.drop_last());
        let before = tally_of(names.drop_last());
        let name = names.last();
        let k = place_of(before, name, 0);
        place_is_first(before, name, 0);
        if k < before.len() {
            sum_of_update(before, k, name);
        } else {
            assert(before.push((name, 1nat)).drop_last() =~= before);
        }
    }
}

fn count_projects(sessions: &Vec<AgentSession>) -> (r: Vec<(String, usize)>)
    ensures
        tally_view(r@) == tally_of(project_names(sessions@)),
{
    let ghost names = project_names(sessions@);
    let mut tally: Vec<(String, usize)> = Vec::new();
    let mut i: usize = 0;
    proof {
        assert(tally_view(tally@) =~= tally_of(names.take(0)));
    }
    while i < sessions.len()
        invariant
            i <= sessions@.len(),
            names == project_names(sessions@),
            tally_view(tally@) == tally_of(names.take(i as int)),
            forall|k: int| 0 <= k < tally@.len() ==> (#[trigger] tally@[k]).1 <= i,
        decreases sessions@.len() - i,
    {
        let ghost before = tally_view(tally@);
        let name: &String = &sessions[i].project_name;
        let mut k: usize = 0;
        while k < tally.len() && !text::same(tally[k].0.as_str(), name.as_str())
            invariant
                k <= tally@.len(),
                before == tally_view(tally@),
                place_of(before, name@, 0) == place_of(before, name@, k as int),
            decreases tally@.len() - k,
        {
            proof {
                assert(before[k as int].0 == tally@[k as int].0@);
            }
            k += 1;
        }
        proof {
            if k < tally@.len() {
                assert(before[k as int].0 == tally@[k as int].0@);
            }
            assert(k == place_of(before, name@, 0));
            assert(names.take(i + 1).drop_last() =~= names.take(i as int));
            assert(names.take(i + 1).last() == name@);
        }
        if k < tally.len() {
            let count: usize = tally[k].1;
            let entry: (String, usize) = (name.clone(), count + 1);
            tally.set(k, entry);
            proof {
                assert(tally_view(tally@) =~= before.update(
                    k as int,
                    (name@, (count + 1) as nat),
                ));
            }
        } else {
            tally.push((name.clone(), 1));
            proof {
                assert(tally_view(tally@) =~= before.push((name@, 1nat)));
            }
        }
        i += 1;
    }
    proof {
        assert(names.take(i as int) =~= names);
    }
    tally
}

/// Counts the sessions of each project, the largest project first; of projects with
/// as many sessions, that of the earlier session.
pub fn project_counts(sessions: &Vec<AgentSession>) -> (r: Vec<(String, usize)>)
    ensures
        tally_view(r@) == projects_by_size(project_names(sessions@)),
{
    let tally = count_projects(sessions);
    let ghost items = tally@;
    let ghost view = tally_view(items);
    let mut ranks: Vec<CountRank> = Vec::new();
    let mut i: usize = 0;
    while i < tally.len()
        invariant
            i <= tally@.len(),
            ranks@.len() == i,
            forall|k: int|
                0 <= k < i ==> (#[trigger] ranks@[k]).key() == CountKey(tally@[k].1 as int),
        decreases tally@.len() - i,
    {
        ranks.push(CountRank { count: tally[i].1 as u64 });
        i += 1;
    }
    proof {
        assert(order::keys_of(ranks@) =~= count_keys(view));
        order::stable_positions_sort(count_keys(view));
    }
    let r = order::sort_stably(tally, &ranks);
    proof {
        assert(tally_view(r@) =~= order::stably_sorted(view, count_keys(view)));
    }
    r
}

impl IngestReport {
    /// Whether this tells what the scan found.
    pub open spec fn tells_of(self, scan: ScannedSessions) -> bool {
        &&& self.claude == scan.claude
        &&& self.opencode == scan.opencode
        &&& self.omp == scan.omp
        &&& self.scanned_claude == scan.scanned_claude
        &&& self.scanned_opencode == scan.scanned_opencode
        &&& self.scanned_omp == scan.scanned_omp
    }

    /// Events newly stored by the pass.
    pub fn imported_events(&self) -> (r: usize)
        ensures
            r == self.imported_events,
    {
        self.imported_events
    }

    /// The report of a pass that found no session.
    pub fn unchanged(scan: &ScannedSessions) -> (r: Self)
        ensures
            r.tells_of(*scan),
            r.indexed_events == 0,
            r.imported_events == 0,
            r.drained_events == 0,
            r.stale_events_cleaned == 0,
            r.injected_events_pruned == 0,
            r.session_membership_assigned == 0,
            r.terminal_focus_assigned == 0,
            r.artifact_focus_assigned == 0,
            r.projects@.len() == 0,
    {
        IngestReport {
            claude: scan.claude,
            opencode: scan.opencode,
            omp: scan.omp,
            indexed_events: 0,
            imported_events: 0,
            drained_events: 0,
            stale_events_cleaned: 0,
            injected_events_pruned: 0,
            session_membership_assigned: 0,
            terminal_focus_assigned: 0,
            artifact_focus_assigned: 0,
            projects: Vec::new(),
            scanned_claude: scan.scanned_claude,
            scanned_opencode: scan.scanned_opencode,
            scanned_omp: scan.scanned_omp,
        }
    }

    /// The report of a pass over the sessions of a scan.
    pub fn of_pass(scan: &ScannedSessions, counts: &PassCounts) -> (r: Self)
        requires
            counts.inserted_events + counts.drained_events <= usize::MAX,
        ensures
            r.tells_of(*scan),
            r.indexed_events == counts.indexed_events,
            r.imported_events == counts.inserted_events + counts.drained_events,
            r.drained_events == counts.drained_events,
            r.stale_events_cleaned == counts.stale_events_cleaned,
            r.injected_events_pruned == counts.injected_events_pruned,
            r.session_membership_assigned == counts.attribution.session_membership,
            r.terminal_focus_assigned == counts.attribution.terminal_focus,
            r.artifact_focus_assigned == counts.attribution.artifact_reference,
            tally_view(r.projects@) == projects_by_size(project_names(scan.sessions@)),
    {
        IngestReport {
            claude: scan.claude,
            opencode: scan.opencode,
            omp: scan.omp,
            indexed_events: counts.indexed_events,
            imported_events: counts.inserted_events + counts.drained_events,
            drained_events: counts.drained_events,
            stale_events_cleaned: counts.stale_events_cleaned,
            injected_events_pruned: counts.injected_events_pruned,
            session_membership_assigned: counts.attribution.session_membership,
            terminal_focus_assigned: counts.attribution.terminal_focus,
            artifact_focus_assigned: counts.attribution.artifact_reference,
            projects: project_counts(&scan.sessions),
            scanned_claude: scan.scanned_claude,
            scanned_opencode: scan.scanned_opencode,
            scanned_omp: scan.scanned_omp,
        }
    }
}

/// What the numbers of a pass are numbers of.
pub open spec fn scope(mode: ScanMode) -> Seq<char> {
    match mode {
        ScanMode::Incremental => "new or changed"@,
        ScanMode::Full => "total"@,
    }
}

/// What is told of a store that was scanned.
pub open spec fn told_store(
    scanned: bool,
    heading: Seq<char>,
    found: nat,
    mode: ScanMode,
    sessions: Seq<char>,
) -> Seq<char> {
    if scanned {
        heading + "\n  Found "@ + text::decimal(found) + " "@ + scope(mode) + sessions
    } else {
        Seq::empty()
    }
}

/// What is told of a number: nothing where it is zero.
pub open spec fn told_count(before: Seq<char>, n: nat, after: Seq<char>) -> Seq<char> {
    if n > 0 {
        before + text::decimal(n) + after
    } else {
        Seq::empty()
    }
}

/// The lines of the first projects.
pub open spec fn told_projects(projects: Seq<(Seq<char>, nat)>) -> Seq<char>
    decreases projects.len(),
{
    if projects.len() == 0 {
        Seq::empty()
    } else {
        told_projects(projects.drop_last()) + "  "@ + projects.last().0 + ": "@ + text::decimal(
            projects.last().1,
        ) + " sessions\n"@
    }
}

/// How many sessions a pass found.
pub open spec fn found_sessions(r: IngestReport) -> int {
    r.claude + r.opencode + r.omp
}

/// The names under which the first store is told of: that of the product, and the
/// short one.
#[derive(Clone, Debug)]
pub struct StoreNames {
    pub product: String,
    pub short: String,
}

/// What is told of the stores.
pub open spec fn told_stores(r: IngestReport, mode: ScanMode, names: StoreNames) -> Seq<char> {
    told_store(
        r.scanned_claude,
        "Scanning "@ + names.product@ + " sessions..."@,
        r.claude as nat,
        mode,
        " "@ + names.short@ + " sessions\n"@,
    ) + told_store(
        r.scanned_opencode,
        "Scanning OpenCode sessions..."@,
        r.opencode as nat,
        mode,
        " OpenCode sessions\n"@,
    ) + told_store(
        r.scanned_omp,
        "Scanning omp sessions..."@,
        r.omp as nat,
        mode,
        " omp sessions\n"@,
    )
}

/// The projects that are listed.
pub open spec fn listed(r: IngestReport) -> Seq<(Seq<char>, nat)> {
    let projects = tally_view(r.projects@);
    if projects.len() > LISTED_PROJECTS {
        projects.take(LISTED_PROJECTS as int)
    } else {
        projects
    }
}

/// What is told of the projects.
pub open spec fn told_sizes(r: IngestReport) -> Seq<char> {
    "Indexed "@ + text::decimal(found_sessions(r) as nat) + " sessions ("@ + text::decimal(
        r.indexed_events as nat,
    ) + " events)\n\nSessions by project:\n"@ + told_projects(listed(r)) + (if r.projects@.len()
        > LISTED_PROJECTS {
        "  ... and "@ + text::decimal((r.projects@.len() - LISTED_PROJECTS) as nat)
            + " more projects\n"@
    } else {
        Seq::empty()
    })
}

/// What is told of the events.
pub open spec fn told_changes(r: IngestReport) -> Seq<char> {
    told_count("Drained "@, r.drained_events as nat, " local events from events.jsonl\n"@)
        + told_count(
        "Attributed "@,
        r.session_membership_assigned as nat,
        " events to the stream their own classified session was placed on\n"@,
    ) + told_count(
        "Attributed "@,
        r.terminal_focus_assigned as nat,
        " terminal-focus events to concurrent remote work\n"@,
    ) + told_count(
        "Attributed "@,
        r.artifact_focus_assigned as nat,
        " window-focus events to the work that did the pull request or issue they name\n"@,
    ) + told_count(
        "Pruned "@,
        r.injected_events_pruned as nat,
        " user_message events that were harness-injected text\n"@,
    )
}

/// The text of a report.
pub open spec fn report_text(r: IngestReport, mode: ScanMode, names: StoreNames) -> Seq<char> {
    told_stores(r, mode, names) + (if found_sessions(r) == 0 {
        "No "@ + scope(mode) + " sessions found.\n"@
    } else {
        told_count(
            "Cleaned "@,
            r.stale_events_cleaned as nat,
            " stale user_message events from non-user sessions\n"@,
        ) + told_sizes(r) + told_changes(r)
    })
}

fn scope_of(mode: ScanMode) -> (r: &'static str)
    ensures
        r@ == scope(mode),
{
    match mode {
        ScanMode::Incremental => "new or changed",
        ScanMode::Full => "total",
    }
}

fn push_store(
    out: &mut String,
    scanned: bool,
    heading: &str,
    found: usize,
    mode: ScanMode,
    sessions: &str,
)
    ensures
        final(out)@ == old(out)@ + told_store(scanned, heading@, found as nat, mode, sessions@),
{
    let ghost start = out@;
    if scanned {
        out.append(heading);
        out.append("\n  Found ");
        text::push_decimal(out, found as u64);
        out.append(" ");
        out.append(scope_of(mode));
        out.append(sessions);
    }
    proof {
        assert(out@ =~= start + told_store(scanned, heading@, found as nat, mode, sessions@));
    }
}

fn push_count(out: &mut String, before: &str, n: u64, after: &str)
    ensures
        final(out)@ == old(out)@ + told_count(before@, n as nat, after@),
{
    let ghost start = out@;
    if n > 0 {
        out.append(before);
        text::push_decimal(out, n);
        out.append(after);
    }
    proof {
        assert(out@ =~= start + told_count(before@, n as nat, after@));
    }
}

fn push_sizes(out: &mut String, report: &IngestReport)
    requires
        found_sessions(*report) <= usize::MAX,
    ensures
        final(out)@ == old(out)@ + told_sizes(*report),
{
    let ghost start = out@;
    let ghost shown = listed(*report);
    out.append("Indexed ");
    text::push_decimal(out, (report.claude + report.opencode + report.omp) as u64);
    out.append(" sessions (");
    text::push_decimal(out, report.indexed_events as u64);
    out.append(" events)\n\nSessions by project:\n");
    let ghost headed = out@;
    let count: usize = if report.projects.len() > LISTED_PROJECTS {
        LISTED_PROJECTS
    } else {
        report.projects.len()
    };
    let mut i: usize = 0;
    proof {
        assert(headed + told_projects(shown.take(0)) =~= headed);
    }
    while i < count
        invariant
            i <= count == shown.len() <= report.projects@.len(),
            shown == listed(*report),
            out@ == headed + told_projects(shown.take(i as int)),
        decreases count - i,
    {
        let ghost before = told_projects(shown.take(i as int));
        proof {
            assert(shown.take(i + 1).drop_last() =~= shown.take(i as int));
            assert(shown[i as int] == tally_view(report.projects@)[i as int]);
        }
        out.append("  ");
        out.append(report.projects[i].0.as_str());
        out.append(": ");
        text::push_decimal(out, report.projects[i].1 as u64);
        out.append(" sessions\n");
        proof {
            assert(out@ =~= headed + told_projects(shown.take(i + 1)));
        }
        i += 1;
    }
    proof {
        assert(shown.take(i as int) =~= shown);
    }
    if report.projects.len() > LISTED_PROJECTS {
        out.append("  ... and ");
        text::push_decimal(out, (report.projects.len() - LISTED_PROJECTS) as u64);
        out.append(" more projects\n");
    }
    proof {
        assert(out@ =~= start + told_sizes(*report));
    }
}

fn push_stores(out: &mut String, report: &IngestReport, mode: ScanMode, names: &StoreNames)
    ensures
        final(out)@ == old(out)@ + told_stores(*report, mode, *names),
{
    let ghost start = out@;
    let mut heading = "Scanning ".to_owned();
    heading.append(names.product.as_str());
    heading.append(" sessions...");
    let mut sessions = " ".to_owned();
    sessions.append(names.short.as_str());
    sessions.append(" sessions\n");
    push_store(
        out,
        report.scanned_claude,
        heading.as_str(),
        report.claude,
        mode,
        sessions.as_str(),
    );
    push_store(
        out,
        report.scanned_opencode,
        "Scanning OpenCode sessions...",
        report.opencode,
        mode,
        " OpenCode sessions\n",
    );
    push_store(
        out,
        report.scanned_omp,
        "Scanning omp sessions...",
        report.omp,
        mode,
        " omp sessions\n",
    );
    proof {
        assert(out@ =~= start + told_stores(*report, mode, *names));
    }
}

fn push_changes(out: &mut String, report: &IngestReport)
    ensures
        final(out)@ == old(out)@ + told_changes(*report),
{
    let ghost start = out@;
    push_count(out, "Drained ", report.drained_events as u64, " local events from events.jsonl\n");
    push_count(
        out,
        "Attributed ",
        report.session_membership_assigned,
        " events to the stream their own classified session was placed on\n",
    );
    push_count(
        out,
        "Attributed ",
        report.terminal_focus_assigned,
        " terminal-focus events to concurrent remote work\n",
    );
    push_count(
        out,
        "Attributed ",
        report.artifact_focus_assigned,
        " window-focus events to the work that did the pull request or issue they name\n",
    );
    push_count(
        out,
        "Pruned ",
        report.injected_events_pruned,
        " user_message events that were harness-injected text\n",
    );
    proof {
        assert(out@ =~= start + told_changes(*report));
    }
}

/// Writes a report. A store that was not scanned, and a number that is zero, are not
/// told of.
pub fn write_report(report: &IngestReport, mode: ScanMode, names: &StoreNames) -> (r: String)
    requires
        found_sessions(*report) <= usize::MAX,
    ensures
        r@ == report_text(*report, mode, *names),
{
    let mut out = String::new();
    push_stores(&mut out, report, mode, names);
    if report.claude + report.opencode + report.omp == 0 {
        out.append("No ");
        out.append(scope_of(mode));
        out.append(" sessions found.\n");
    } else {
        push_count(
            &mut out,
            "Cleaned ",
            report.stale_events_cleaned,
            " stale user_message events from non-user sessions\n",
        );
        push_sizes(&mut out, report);
        push_changes(&mut out, report);
    }
    proof {
        assert(out@ =~= report_text(*report, mode, *names));
    }
    out
}

/// The assignments that a focus pass makes: the events that it could resolve, each
/// with its stream, without those that resolve to `excluded`.
pub open spec fn resolved_focus(
    candidates: Seq<(String, Option<String>)>,
    excluded: Option<Seq<char>>,
) -> Seq<(Seq<char>, Seq<char>)>
    decreases candidates.len(),
{
    if candidates.len() == 0 {
        Seq::empty()
    } else {
        let rest = resolved_focus(candidates.drop_last(), excluded);
        match candidates.last().1 {
            Some(stream) => if excluded == Some(stream@) {
                rest
            } else {
                rest.push((candidates.last().0@, stream@))
            },
            None => rest,
        }
    }
}

/// Assignments, as texts.
pub open spec fn assigned(pairs: Seq<(String, String)>) -> Seq<(Seq<char>, Seq<char>)> {
    Seq::new(pairs.len(), |i: int| (pairs[i].0@, pairs[i].1@))
}

/// Picks the assignments that a focus pass makes from its events, each with the
/// stream that it resolves to. Focus on a terminal never counts for the stream of
/// noise, which is `excluded` there.
pub fn focus_assignments(
    candidates: Vec<(String, Option<String>)>,
    excluded: Option<&str>,
) -> (r: Vec<(String, String)>)
    ensures
        assigned(r@) == resolved_focus(candidates@, text::opt_str(excluded)),
{
    let ghost all = candidates@;
    let ghost junk = text::opt_str(excluded);
    let mut out: Vec<(String, String)> = Vec::new();
    proof {
        assert(assigned(out@) =~= resolved_focus(all.take(0), junk));
    }
    for candidate in it: candidates
        invariant
            it.seq() == all,
            junk == text::opt_str(excluded),
            assigned(out@) == resolved_focus(all.take(it.index()), junk),
    {
        let ghost n = it.index();
        let ghost before = assigned(out@);
        proof {
            assert(all.take(n + 1).drop_last() =~= all.take(n));
            assert(all.take(n + 1).last() == candidate);
        }
        if let Some(stream) = candidate.1 {
            let dropped: bool = match excluded {
                Some(excluded) => text::same(excluded, stream.as_str()),
                None => false,
            };
            if !dropped {
                let ghost pair = (candidate.0@, stream@);
                out.push((candidate.0, stream));
                proof {
                    assert(assigned(out@) =~= before.push(pair));
                }
            }
        }
    }
    proof {
        assert(all.take(all.len() as int) =~= all);
    }
    out
}

/// From when until when work can be what focus was on: from `window_ms` milliseconds
/// before the first event until as many after the last. A bound that is no time is
/// `None`.
pub open spec fn span_around(events: Seq<StoredEvent>, window_ms: int) -> (
    Option<Instant>,
    Option<Instant>,
) {
    (
        time::shifted(events.first().timestamp@, -window_ms),
        time::shifted(events.last().timestamp@, window_ms),
    )
}

/// From when until when work can be what the focus of `events` was on; `None` where
/// there are none.
pub fn correlation_span(events: &Vec<StoredEvent>, window_ms: u32) -> (r: Option<
    (Option<Timestamp>, Option<Timestamp>),
>)
    ensures
        match r {
            Some(span) => events@.len() > 0 && (time::opt_instant(span.0), time::opt_instant(span.1))
                == span_around(events@, window_ms as int),
            None => events@.len() == 0,
        },
{
    let count: usize = events.len();
    if count == 0 {
        return None;
    }
    let window: i64 = window_ms as i64;
    Some(
        (
            events[0].timestamp.shift_millis(-window),
            events[count - 1].timestamp.shift_millis(window),
        ),
    )
}

/// Where this machine's transcript stores and events file are.
#[derive(Clone, Debug)]
pub struct IngestPaths {
    pub claude_projects: String,
    pub opencode_db: String,
    pub omp_sessions: String,
    pub data_dir: String,
}

/// A relative path below a directory.
pub open spec fn path_in(dir: Seq<char>, path: Seq<char>) -> Seq<char> {
    if dir.len() == 0 || dir.last() == '/' {
        dir + path
    } else {
        dir + "/"@ + path
    }
}

fn join_path(dir: &str, path: &str) -> (r: String)
    ensures
        r@ == path_in(dir@, path@),
{
    let mut out = dir.to_owned();
    let count: usize = dir.unicode_len();
    if count > 0 && dir.get_char(count - 1) != '/' {
        out.append("/");
    }
    out.append(path);
    out
}

/// The directory that is configured, or one below the home directory; relative where
/// that is not known either.
pub open spec fn configured_dir(
    configured: Option<Seq<char>>,
    home: Option<Seq<char>>,
    path: Seq<char>,
) -> Seq<char> {
    match configured {
        Some(dir) => dir,
        None => path_in(
            match home {
                Some(dir) => dir,
                None => Seq::empty(),
            },
            path,
        ),
    }
}

fn find_dir(configured: Option<&str>, home: Option<&str>, path: &str) -> (r: String)
    ensures
        r@ == configured_dir(text::opt_str(configured), text::opt_str(home), path@),
{
    match configured {
        Some(dir) => dir.to_owned(),
        None => match home {
            Some(dir) => join_path(dir, path),
            None => {
                proof {
                    assert(Seq::<char>::empty() + path@ =~= path@);
                }
                path.to_owned()
            },
        },
    }
}

impl IngestPaths {
    /// Resolves the places from the environment: what `CLAUDE_CONFIG_DIR`,
    /// `PI_CODING_AGENT_DIR` and `HOME` hold, and where user data is kept. Without a
    /// configured directory the first store is in `config_dir` below the home
    /// directory.
    pub fn from_env(
        claude_config_dir: Option<&str>,
        config_dir: &str,
        pi_coding_agent_dir: Option<&str>,
        home: Option<&str>,
        user_data_dir: Option<&str>,
        data_dir: &str,
    ) -> (r: Result<Self, String>)
        ensures
            match user_data_dir {
                Some(user_data) => r matches Ok(paths) && paths.claude_projects@ == path_in(
                    configured_dir(
                        text::opt_str(claude_config_dir),
                        text::opt_str(home),
                        config_dir@,
                    ),
                    "projects"@,
                ) && paths.opencode_db@ == path_in(user_data@, "opencode/opencode.db"@)
                    && paths.omp_sessions@ == path_in(
                    configured_dir(
                        text::opt_str(pi_coding_agent_dir),
                        text::opt_str(home),
                        ".omp/agent"@,
                    ),
                    "sessions"@,
                ) && paths.data_dir@ == data_dir@,
                None => r matches Err(message) && message@
                    == "Could not determine data directory"@,
            },
    {
        let user_data: &str = match user_data_dir {
            Some(dir) => dir,
            None => {
                return Err("Could not determine data directory".to_owned());
            },
        };
        let claude = find_dir(claude_config_dir, home, config_dir);
        let omp = find_dir(pi_coding_agent_dir, home, ".omp/agent");
        Ok(
            IngestPaths {
                claude_projects: join_path(claude.as_str(), "projects"),
                opencode_db: join_path(user_data, "opencode/opencode.db"),
                omp_sessions: join_path(omp.as_str(), "sessions"),
                data_dir: data_dir.to_owned(),
            },
        )
    }
}

proof fn tallies_hold_counts(names: Seq<Seq<char>>)
    ensures
        forall|i: int|
            0 <= i < tally_of(names).len() ==> (#[trigger] tally_of(names)[i]).1 == text::count(
                names,
                tally_of(names)[i].0,
            ),
        forall|name: Seq<char>|
            text::count(names, name) > 0 ==> #[trigger] place_of(tally_of(names), name, 0)
                < tally_of(names).len(),
    decreases names.len(),
{
    if names.len() > 0 {
        let earlier = names.drop_last();
        let before = tally_of(earlier);
        let after = tally_of(names);
        let name = names.last();
        tallies_hold_counts(earlier);
        tallies_count_everything(earlier);
        let k = place_of(before, name, 0);
        place_is_first(before, name, 0);
        assert forall|i: int| 0 <= i < after.len() implies (#[trigger] after[i]).1 == text::count(
            names,
            after[i].0,
        ) by {
            if i < before.len() {
                assert(before[i].1 == text::count(earlier, before[i].0));
                if i != k {
                    assert(after[i] == before[i]);
                    if k < before.len() {
                        assert(before[i].0 != before[k].0);
                    }
                }
            } else {
                assert(text::count(earlier, name) == 0);
            }
        }
        assert forall|other: Seq<char>| text::count(names, other) > 0 implies #[trigger] place_of(
            after,
            other,
            0,
        ) < after.len() by {
            place_is_first(after, other, 0);
            if other == name {
                let at = if k < before.len() {
                    k
                } else {
                    before.len() as int
                };
                assert(after[at].0 == name);
            } else {
                assert(text::count(earlier, other) > 0);
                let at = place_of(before, other, 0);
                place_is_first(before, other, 0);
                assert(after[at].0 == other);
            }
        }
    }
}

/// Each project is listed once, with the number of the sessions that name it, and every
/// project that a session names is listed.
pub proof fn projects_count_their_sessions(names: Seq<Seq<char>>, name: Seq<char>, i: int)
    ensures
        0 <= i < tally_of(names).len() ==> tally_of(names)[i].1 == text::count(
            names,
            tally_of(names)[i].0,
        ),
        text::count(names, name) > 0 <==> (exists|j: int|
            0 <= j < tally_of(names).len() && (#[trigger] tally_of(names)[j]).0 == name),
{
    tallies_hold_counts(names);
    tallies_count_everything(names);
    let tally = tally_of(names);
    if text::count(names, name) > 0 {
        let j = place_of(tally, name, 0);
        place_is_first(tally, name, 0);
        assert(tally[j].0 == name);
    }
    if exists|j: int| 0 <= j < tally.len() && (#[trigger] tally[j]).0 == name {
        let j = choose|j: int| 0 <= j < tally.len() && (#[trigger] tally[j]).0 == name;
        assert(tally[j].1 > 0);
    }
}

/// The projects with the most sessions come first, and the list is the same as before
/// it was ordered.
pub proof fn the_largest_projects_come_first(names: Seq<Seq<char>>, a: int, b: int)
    ensures
        projects_by_size(names).len() == tally_of(names).len(),
        projects_by_size(names).to_multiset() == tally_of(names).to_multiset(),
        0 <= a < b < projects_by_size(names).len() ==> projects_by_size(names)[a].1
            >= projects_by_size(names)[b].1,
{
    let tally = tally_of(names);
    let keys = count_keys(tally);
    order::sorted_items_stand_in_order(tally, keys);
    order::stable_sorts_rearrange(tally, keys);
    if 0 <= a < b < tally.len() {
        let positions = order::stable_positions(keys);
        assert(keys[positions[a]].0 >= keys[positions[b]].0);
    }
}

/// The names that are counted are those of the sessions' projects.
pub proof fn projects_are_those_of_the_sessions(sessions: Seq<AgentSession>, i: int)
    requires
        0 <= i < sessions.len(),
    ensures
        project_names(sessions).len() == sessions.len(),
        project_names(sessions)[i] == sessions[i].project_name@,
{
}

/// What is told of a scan is what it found, each number and each store under its own
/// name.
pub proof fn reports_tell_what_was_found(r: IngestReport, scan: ScannedSessions)
    requires
        r.tells_of(scan),
    ensures
        r.claude == scan.claude,
        r.opencode == scan.opencode,
        r.omp == scan.omp,
        r.scanned_claude == scan.scanned_claude,
        r.scanned_opencode == scan.scanned_opencode,
        r.scanned_omp == scan.scanned_omp,
        found_sessions(r) == scan.claude + scan.opencode + scan.omp,
{
}

/// The parts of what is told of the stores.
spec fn store_parts(r: IngestReport, mode: ScanMode, names: StoreNames) -> Seq<Seq<char>> {
    seq![
        told_store(
            r.scanned_claude,
            "Scanning "@ + names.product@ + " sessions..."@,
            r.claude as nat,
            mode,
            " "@ + names.short@ + " sessions\n"@,
        ),
        told_store(
            r.scanned_opencode,
            "Scanning OpenCode sessions..."@,
            r.opencode as nat,
            mode,
            " OpenCode sessions\n"@,
        ),
        told_store(
            r.scanned_omp,
            "Scanning omp sessions..."@,
            r.omp as nat,
            mode,
            " omp sessions\n"@,
        ),
    ]
}

/// Each store that was scanned is told of with the number of its own sessions, and
/// whether that is all of them or what changed; one that was not scanned is not.
pub proof fn stores_are_told_of_with_their_numbers(
    r: IngestReport,
    mode: ScanMode,
    names: StoreNames,
)
    ensures
        ({
            let what = if mode is Full {
                "total"@
            } else {
                "new or changed"@
            };
            let told = told_stores(r, mode, names);
            &&& r.scanned_claude ==> text::stands_in(
                "Scanning "@ + names.product@ + " sessions..."@ + "\n  Found "@ + text::decimal(
                    r.claude as nat,
                ) + " "@ + what + (" "@ + names.short@ + " sessions\n"@),
                told,
            )
            &&& r.scanned_opencode ==> text::stands_in(
                "Scanning OpenCode sessions..."@ + "\n  Found "@ + text::decimal(r.opencode as nat)
                    + " "@ + what + " OpenCode sessions\n"@,
                told,
            )
            &&& r.scanned_omp ==> text::stands_in(
                "Scanning omp sessions..."@ + "\n  Found "@ + text::decimal(r.omp as nat) + " "@
                    + what + " omp sessions\n"@,
                told,
            )
            &&& !r.scanned_claude && !r.scanned_opencode && !r.scanned_omp ==> told.len() == 0
        }),
{
    let parts = store_parts(r, mode, names);
    text::concat_grows(parts, 0);
    text::concat_grows(parts, 1);
    text::concat_grows(parts, 2);
    assert(parts.take(3) =~= parts);
    assert(text::concat(parts.take(0)) =~= Seq::empty());
    assert(text::concat(parts) =~= told_stores(r, mode, names));
    text::part_stands_in(parts, 0);
    text::part_stands_in(parts, 1);
    text::part_stands_in(parts, 2);
}

/// The parts of what is told of the events.
spec fn change_parts(r: IngestReport) -> Seq<Seq<char>> {
    seq![
        told_count("Drained "@, r.drained_events as nat, " local events from events.jsonl\n"@),
        told_count(
            "Attributed "@,
            r.session_membership_assigned as nat,
            " events to the stream their own classified session was placed on\n"@,
        ),
        told_count(
            "Attributed "@,
            r.terminal_focus_assigned as nat,
            " terminal-focus events to concurrent remote work\n"@,
        ),
        told_count(
            "Attributed "@,
            r.artifact_focus_assigned as nat,
            " window-focus events to the work that did the pull request or issue they name\n"@,
        ),
        told_count(
            "Pruned "@,
            r.injected_events_pruned as nat,
            " user_message events that were harness-injected text\n"@,
        ),
    ]
}

/// Each number of events that is not zero is told with what became of them.
pub proof fn changes_are_told_with_their_numbers(r: IngestReport)
    ensures
        ({
            let told = told_changes(r);
            &&& r.drained_events > 0 ==> text::stands_in(
                "Drained "@ + text::decimal(r.drained_events as nat)
                    + " local events from events.jsonl\n"@,
                told,
            )
            &&& r.session_membership_assigned > 0 ==> text::stands_in(
                "Attributed "@ + text::decimal(r.session_membership_assigned as nat)
                    + " events to the stream their own classified session was placed on\n"@,
                told,
            )
            &&& r.terminal_focus_assigned > 0 ==> text::stands_in(
                "Attributed "@ + text::decimal(r.terminal_focus_assigned as nat)
                    + " terminal-focus events to concurrent remote work\n"@,
                told,
            )
            &&& r.artifact_focus_assigned > 0 ==> text::stands_in(
                "Attributed "@ + text::decimal(r.artifact_focus_assigned as nat)
                    + " window-focus events to the work that did the pull request or issue they name\n"@,
                told,
            )
            &&& r.injected_events_pruned > 0 ==> text::stands_in(
                "Pruned "@ + text::decimal(r.injected_events_pruned as nat)
                    + " user_message events that were harness-injected text\n"@,
                told,
            )
            &&& r.drained_events == 0 && r.session_membership_assigned == 0
                && r.terminal_focus_assigned == 0 && r.artifact_focus_assigned == 0
                && r.injected_events_pruned == 0 ==> told.len() == 0
        }),
{
    let parts = change_parts(r);
    text::concat_grows(parts, 0);
    text::concat_grows(parts, 1);
    text::concat_grows(parts, 2);
    text::concat_grows(parts, 3);
    text::concat_grows(parts, 4);
    assert(parts.take(5) =~= parts);
    assert(text::concat(parts.take(0)) =~= Seq::empty());
    assert(text::concat(parts) =~= told_changes(r));
    text::part_stands_in(parts, 0);
    text::part_stands_in(parts, 1);
    text::part_stands_in(parts, 2);
    text::part_stands_in(parts, 3);
    text::part_stands_in(parts, 4);
}

/// The first ten projects are listed, each on a line with its number of sessions and in
/// their order, and how many more there are is told.
pub proof fn ten_projects_are_listed(
    r: IngestReport,
    projects: Seq<(Seq<char>, nat)>,
    project: (Seq<char>, nat),
    i: int,
)
    ensures
        listed(r).len() == (if r.projects@.len() <= 10 {
            r.projects@.len() as int
        } else {
            10
        }),
        0 <= i < listed(r).len() ==> listed(r)[i] == (r.projects@[i].0@, r.projects@[i].1 as nat),
        told_projects(projects.push(project)) == told_projects(projects) + ("  "@ + project.0
            + ": "@ + text::decimal(project.1) + " sessions\n"@),
        told_projects(Seq::empty()).len() == 0,
        r.projects@.len() > 10 ==> text::stands_in(
            "  ... and "@ + text::decimal((r.projects@.len() - 10) as nat) + " more projects\n"@,
            told_sizes(r),
        ),
        text::stands_in(
            "Indexed "@ + text::decimal((r.claude + r.opencode + r.omp) as nat) + " sessions ("@
                + text::decimal(r.indexed_events as nat) + " events)\n"@,
            told_sizes(r),
        ),
{
    assert(projects.push(project).drop_last() =~= projects);
    assert(told_projects(projects.push(project)) =~= told_projects(projects) + ("  "@ + project.0
        + ": "@ + text::decimal(project.1) + " sessions\n"@));
    reveal_strlit(" events)\n\nSessions by project:\n");
    reveal_strlit(" events)\n");
    reveal_strlit("\nSessions by project:\n");
    assert(" events)\n\nSessions by project:\n"@ =~= " events)\n"@ + "\nSessions by project:\n"@);
    let first = "Indexed "@ + text::decimal(found_sessions(r) as nat) + " sessions ("@
        + text::decimal(r.indexed_events as nat) + " events)\n"@;
    let more = if r.projects@.len() > LISTED_PROJECTS {
        "  ... and "@ + text::decimal((r.projects@.len() - LISTED_PROJECTS) as nat)
            + " more projects\n"@
    } else {
        Seq::empty()
    };
    let middle = "\nSessions by project:\n"@ + told_projects(listed(r));
    let none = Seq::<char>::empty();
    assert(told_sizes(r) =~= none + first + (middle + more));
    assert(told_sizes(r) =~= (first + middle) + more + none);
}

/// A focus pass assigns each event that resolves to a stream to that stream, in their
/// order, but for those that resolve to the one that is left out.
pub proof fn focus_goes_where_it_resolves_to(
    a: Seq<(String, Option<String>)>,
    b: Seq<(String, Option<String>)>,
    candidate: (String, Option<String>),
    excluded: Option<Seq<char>>,
)
    ensures
        resolved_focus(a + b, excluded) == resolved_focus(a, excluded) + resolved_focus(
            b,
            excluded,
        ),
        candidate.1 is None ==> resolved_focus(seq![candidate], excluded).len() == 0,
        candidate.1 matches Some(stream) ==> {
            &&& excluded == Some(stream@) ==> resolved_focus(seq![candidate], excluded).len() == 0
            &&& excluded != Some(stream@) ==> resolved_focus(seq![candidate], excluded) == seq![
                (candidate.0@, stream@),
            ]
        },
    decreases b.len(),
{
    assert(seq![candidate].drop_last() =~= Seq::empty());
    assert(seq![candidate].last() == candidate);
    assert(resolved_focus(Seq::empty(), excluded) =~= Seq::empty());
    if let Some(stream) = candidate.1 {
        if excluded != Some(stream@) {
            assert(resolved_focus(seq![candidate], excluded) =~= seq![(candidate.0@, stream@)]);
        }
    }
    if b.len() > 0 {
        assert((a + b).drop_last() =~= a + b.drop_last());
        focus_goes_where_it_resolves_to(a, b.drop_last(), candidate, excluded);
        assert(resolved_focus(a + b, excluded) =~= resolved_focus(a, excluded) + resolved_focus(
            b,
            excluded,
        ));
    } else {
        assert(a + b =~= a);
        assert(resolved_focus(b, excluded) =~= Seq::empty());
        assert(resolved_focus(a, excluded) + resolved_focus(b, excluded) =~= resolved_focus(
            a,
            excluded,
        ));
    }
}

/// Work is sought from before the first event until behind the last, by the window on
/// each side.
pub proof fn spans_reach_around_the_events(
    events: Seq<StoredEvent>,
    window_ms: int,
    from: (i64, u32),
    until: (i64, u32),
)
    requires
        events.len() > 0,
        window_ms >= 0,
        0 <= events[0].timestamp@.nanos < 1_000_000_000,
        0 <= events[events.len() - 1].timestamp@.nanos < 1_000_000_000,
        span_around(events, window_ms).0 == Some(
            (Instant { secs: from.0 as int, nanos: from.1 as int }),
        ),
        span_around(events, window_ms).1 == Some(
            (Instant { secs: until.0 as int, nanos: until.1 as int }),
        ),
        time::lies_after(
            time::shifted_parts(
                events[0].timestamp@.secs,
                events[0].timestamp@.nanos,
                -window_ms,
            ),
            events[0].timestamp@,
            -window_ms,
        ),
        time::lies_after(
            time::shifted_parts(
                events[events.len() - 1].timestamp@.secs,
                events[events.len() - 1].timestamp@.nanos,
                window_ms,
            ),
            events[events.len() - 1].timestamp@,
            window_ms,
        ),
    ensures
        time::epoch_nanos(events[0].timestamp@) - (from.0 * 1_000_000_000 + from.1) == window_ms
            * 1_000_000,
        (until.0 * 1_000_000_000 + until.1) - time::epoch_nanos(events[events.len() - 1].timestamp@)
            == window_ms * 1_000_000,
{
}

/// A path below a directory starts with the directory and ends with the path, with one
/// slash between them where there is a directory.
pub proof fn paths_stand_below_their_directory(dir: Seq<char>, path: Seq<char>)
    ensures
        path_in(dir, path).take(dir.len() as int) == dir,
        path_in(dir, path).skip(path_in(dir, path).len() - path.len()) == path,
        dir.len() > 0 && dir.last() != '/' ==> path_in(dir, path).len() == dir.len() + 1
            + path.len() && path_in(dir, path)[dir.len() as int] == '/',
        dir.len() == 0 || dir.last() == '/' ==> path_in(dir, path).len() == dir.len() + path.len(),
{
    reveal_strlit("/");
    assert(path_in(dir, path).take(dir.len() as int) =~= dir);
    assert(path_in(dir, path).skip(path_in(dir, path).len() - path.len()) =~= path);
}

/// A directory that is configured is the one that is used, whatever the home directory
/// is; otherwise it lies below that.
pub proof fn configured_directories_come_first(
    configured: Option<Seq<char>>,
    home: Option<Seq<char>>,
    path: Seq<char>,
)
    ensures
        configured matches Some(dir) ==> configured_dir(configured, home, path) == dir,
        configured is None ==> (home matches Some(dir) ==> configured_dir(configured, home, path)
            == path_in(dir, path)),
        configured is None && home is None ==> configured_dir(configured, home, path) == path,
{
    assert(Seq::<char>::empty() + path =~= path);
}

/// A report of no sessions says so, and one of some tells their number, the events and
/// what was cleaned up.
pub proof fn reports_of_nothing_say_so(r: IngestReport, mode: ScanMode, names: StoreNames)
    ensures
        r.claude + r.opencode + r.omp == 0 ==> report_text(r, mode, names) == told_stores(
            r,
            mode,
            names,
        ) + ("No "@ + (if mode is Full {
            "total"@
        } else {
            "new or changed"@
        }) + " sessions found.\n"@),
        r.claude + r.opencode + r.omp > 0 ==> text::stands_in(
            told_sizes(r) + told_changes(r),
            report_text(r, mode, names),
        ),
        r.claude + r.opencode + r.omp > 0 && r.stale_events_cleaned > 0 ==> text::stands_in(
            "Cleaned "@ + text::decimal(r.stale_events_cleaned as nat)
                + " stale user_message events from non-user sessions\n"@,
            report_text(r, mode, names),
        ),
{
    if r.claude + r.opencode + r.omp > 0 {
        let stores = told_stores(r, mode, names);
        let cleaned = told_count(
            "Cleaned "@,
            r.stale_events_cleaned as nat,
            " stale user_message events from non-user sessions\n"@,
        );
        let rest = told_sizes(r) + told_changes(r);
        let whole = report_text(r, mode, names);
        assert(whole =~= (stores + cleaned) + rest + Seq::empty());
        assert(whole =~= stores + cleaned + rest);
    }
}

/// A tally gives each name with its number.
pub proof fn tallies_are_told_as_counted(tally: Seq<(String, usize)>, pairs: Seq<(String, String)>, i: int)
    ensures
        tally_view(tally).len() == tally.len(),
        0 <= i < tally.len() ==> tally_view(tally)[i] == (tally[i].0@, tally[i].1 as nat),
        assigned(pairs).len() == pairs.len(),
        0 <= i < pairs.len() ==> assigned(pairs)[i] == (pairs[i].0@, pairs[i].1@),
{
}

} // verus!
