//! Window-focus activity grouped into runs that a classifier can judge.
//!
//! Focus events carry no directory and no session, so they arrive as single focus
//! changes rather than as work. Grouping the consecutive events of one app on one
//! machine gives a unit with a duration and a few titles.
use vstd::prelude::*;
use vstd::string::*;

use crate::model::StoredEvent;
use crate::order;
use crate::order::{PlaceTimeKey, PlaceTimeRank, Ranked, RecencyKey, RecencyRank};
use crate::text;
use crate::time;
use crate::time::{Instant, Timestamp};

verus! {

/// How many titles a run keeps.
pub const MAX_TITLES: usize = 5;

/// Nanoseconds without an event after which a new group starts.
pub const GROUP_GAP_NANOS: i128 = 1_800_000_000_000;

/// A stretch of focus on one app, on one machine.
#[derive(Clone, Debug)]
pub struct WindowRun {
    pub start: String,
    pub end: String,
    pub duration_minutes: i64,
    pub app_id: String,
    pub event_ids: Vec<String>,
    pub titles: Vec<String>,
    pub machine_id: Option<String>,
    pub stream_id: Option<String>,
}

/// A run as it is built up.
#[verifier::ext_equal]
pub struct Run {
    pub start: Instant,
    pub end: Instant,
    pub app: Seq<char>,
    pub ids: Seq<Seq<char>>,
    pub titles: Seq<Seq<char>>,
    pub machine: Option<Seq<char>>,
    pub stream: Option<Seq<char>>,
}

/// The app of a focus event.
pub open spec fn app_of(e: StoredEvent) -> Seq<char> {
    match e.window_app_id {
        Some(app) => app@,
        None => "(unknown)"@,
    }
}

impl Run {
    /// The run of one event.
    pub open spec fn of(e: StoredEvent) -> Run {
        Run {
            start: e.timestamp@,
            end: e.timestamp@,
            app: app_of(e),
            ids: Seq::empty(),
            titles: Seq::empty(),
            machine: text::opt_text(e.machine_id),
            stream: text::opt_text(e.stream_id),
        }.and(e)
    }

    /// The run with one more event: it ends there, its stream is the first one
    /// that any of its events has, and it takes the title unless that repeats the
    /// last one or the run has its fill.
    pub open spec fn and(self, e: StoredEvent) -> Run {
        Run {
            end: e.timestamp@,
            ids: self.ids.push(e.id@),
            stream: if self.stream is None {
                text::opt_text(e.stream_id)
            } else {
                self.stream
            },
            titles: match e.window_title {
                Some(title) => if self.titles.len() < MAX_TITLES && !(self.titles.len() > 0
                    && self.titles.last() == title@) {
                    self.titles.push(title@)
                } else {
                    self.titles
                },
                None => self.titles,
            },
            ..self
        }
    }

    /// Whether an event goes on with this run: same machine, same app, and less
    /// than half an hour after the run's end.
    pub open spec fn takes(self, e: StoredEvent) -> bool {
        &&& text::opt_text(e.machine_id) == self.machine
        &&& app_of(e) == self.app
        &&& e.timestamp@.since(self.end) < GROUP_GAP_NANOS
    }
}

impl WindowRun {
    /// Whether this shows the run `run`. In the years from zero to 9999 the start is
    /// read back as it was.
    pub open spec fn shows(self, run: Run) -> bool {
        &&& self.start@ == time::rfc3339_text(run.start.secs, run.start.nanos)
        &&& time::is_plain_second(run.start.secs) ==> time::reads_as(self.start@, run.start)
        &&& self.end@ == time::rfc3339_text(run.end.secs, run.end.nanos)
        &&& self.duration_minutes == time::truncated(
            run.end.since(run.start),
            60 * time::SECOND_NANOS,
        )
        &&& self.app_id@ == run.app
        &&& text::texts(self.event_ids@) == run.ids
        &&& text::texts(self.titles@) == run.titles
        &&& text::opt_text(self.machine_id) == run.machine
        &&& text::opt_text(self.stream_id) == run.stream
    }
}

/// Whether `shown` shows the runs `runs`, one each.
pub open spec fn show_runs(shown: Seq<WindowRun>, runs: Seq<Run>) -> bool {
    &&& shown.len() == runs.len()
    &&& forall|i: int| 0 <= i < runs.len() ==> (#[trigger] shown[i]).shows(runs[i])
}

/// The runs of events in order: each event goes on with the last run or starts a
/// new one.
pub open spec fn runs_in_order(events: Seq<StoredEvent>) -> Seq<Run>
    decreases events.len(),
{
    if events.len() == 0 {
        Seq::empty()
    } else {
        let runs = runs_in_order(events.drop_last());
        let e = events.last();
        if runs.len() > 0 && runs.last().takes(e) {
            runs.drop_last().push(runs.last().and(e))
        } else {
            runs.push(Run::of(e))
        }
    }
}

/// Whether an event is the focus of a window.
pub open spec fn is_focus(e: StoredEvent) -> bool {
    e.event_type is WindowFocus
}

/// The order in which focus events are grouped: by machine, then by time.
pub open spec fn focus_keys(events: Seq<StoredEvent>) -> Seq<PlaceTimeKey> {
    events.map_values(
        |e: StoredEvent| PlaceTimeKey { place: text::opt_text(e.machine_id), at: e.timestamp@ },
    )
}

/// The focus events among `events`, in the order in which they are grouped.
pub open spec fn focus_in_order(events: Seq<StoredEvent>) -> Seq<StoredEvent> {
    let focus = events.filter(|e: StoredEvent| is_focus(e));
    order::stably_sorted(focus, focus_keys(focus))
}

/// The runs among `events`.
pub open spec fn window_runs(events: Seq<StoredEvent>) -> Seq<Run> {
    runs_in_order(focus_in_order(events))
}

/// A run while it is built up.
pub struct WindowRunBuilder {
    start: Timestamp,
    end: Timestamp,
    app_id: String,
    event_ids: Vec<String>,
    titles: Vec<String>,
    machine_id: Option<String>,
    stream_id: Option<String>,
}

impl View for WindowRunBuilder {
    type V = Run;

    closed spec fn view(&self) -> Run {
        Run {
            start: self.start@,
            end: self.end@,
            app: self.app_id@,
            ids: text::texts(self.event_ids@),
            titles: text::texts(self.titles@),
            machine: text::opt_text(self.machine_id),
            stream: text::opt_text(self.stream_id),
        }
    }
}

impl WindowRunBuilder {
    /// Starts a run with `event`.
    pub fn new(event: &StoredEvent) -> (r: Self)
        ensures
            r@ == Run::of(*event),
    {
        let mut builder = WindowRunBuilder {
            start: event.timestamp,
            end: event.timestamp,
            app_id: match &event.window_app_id {
                Some(app) => app.clone(),
                None => "(unknown)".to_owned(),
            },
            event_ids: Vec::new(),
            titles: Vec::new(),
            machine_id: event.machine_id.clone(),
            stream_id: event.stream_id.clone(),
        };
        proof {
            assert(text::texts(builder.event_ids@) =~= Seq::empty());
            assert(text::texts(builder.titles@) =~= Seq::empty());
        }
        builder.push(event);
        builder
    }

    /// Whether `event` goes on with this run.
    pub fn takes(&self, event: &StoredEvent) -> (r: bool)
        ensures
            r == self@.takes(*event),
    {
        let same_app: bool = match &event.window_app_id {
            Some(app) => text::same(app.as_str(), self.app_id.as_str()),
            None => text::same("(unknown)", self.app_id.as_str()),
        };
        text::same_opt(&event.machine_id, &self.machine_id) && same_app && event.timestamp.since(
            &self.end,
        ) < GROUP_GAP_NANOS
    }

    /// Takes `event` into the run.
    pub fn push(&mut self, event: &StoredEvent)
        ensures
            final(self)@ == old(self)@.and(*event),
    {
        let ghost before = self@;
        self.end = event.timestamp;
        self.event_ids.push(event.id.clone());
        if self.stream_id.is_none() {
            self.stream_id = event.stream_id.clone();
        }
        if let Some(title) = &event.window_title {
            let count: usize = self.titles.len();
            let repeats: bool = if count > 0 {
                text::same(self.titles[count - 1].as_str(), title.as_str())
            } else {
                false
            };
            if !repeats && count < MAX_TITLES {
                self.titles.push(title.clone());
            }
        }
        proof {
            let after = before.and(*event);
            assert(self@.ids =~= after.ids);
            assert(self@.titles =~= after.titles);
        }
    }

    /// The finished run.
    pub fn finish(self) -> (r: WindowRun)
        ensures
            r.shows(self@),
    {
        WindowRun {
            start: self.start.to_rfc3339(),
            end: self.end.to_rfc3339(),
            duration_minutes: self.end.minutes_since(&self.start),
            app_id: self.app_id,
            event_ids: self.event_ids,
            titles: self.titles,
            machine_id: self.machine_id,
            stream_id: self.stream_id,
        }
    }
}

/// Groups the focus events among `events` into runs.
pub fn synthesize_window_runs(events: &Vec<&StoredEvent>) -> (r: Vec<WindowRun>)
    ensures
        show_runs(r@, window_runs(events@.unref())),
{
    let ghost all = events@.unref();
    let ghost pred = |e: StoredEvent| is_focus(e);
    let mut focus: Vec<&StoredEvent> = Vec::new();
    let mut ranks: Vec<PlaceTimeRank> = Vec::new();
    let mut i: usize = 0;
    proof {
        reveal(Seq::filter);
        assert(all.take(0).filter(pred) =~= Seq::empty());
    }
    while i < events.len()
        invariant
            i <= events@.len(),
            all == events@.unref(),
            pred == (|e: StoredEvent| is_focus(e)),
            focus@.unref() == all.take(i as int).filter(pred),
            ranks@.len() == focus@.len(),
            forall|k: int|
                0 <= k < ranks@.len() ==> (#[trigger] ranks@[k]).key() == (PlaceTimeKey {
                    place: text::opt_text(focus@[k].machine_id),
                    at: focus@[k].timestamp@,
                }),
        decreases events@.len() - i,
    {
        let ghost before = focus@.unref();
        proof {
            reveal(Seq::filter);
            assert(all.take(i + 1).drop_last() =~= all.take(i as int));
        }
        if events[i].event_type.is_window_focus() {
            ranks.push(order::place_time(&events[i].machine_id, &events[i].timestamp));
            focus.push(events[i]);
            proof {
                assert(focus@.unref() =~= before.push(all[i as int]));
            }
        }
        i += 1;
    }
    proof {
        assert(all.take(i as int) =~= all);
        assert(order::keys_of(ranks@) =~= focus_keys(focus@.unref()));
    }
    let positions = order::sort_positions(&ranks);
    let ghost sorted = focus_in_order(all);
    proof {
        assert(sorted =~= order::as_ints(positions@).map_values(|k: int| focus@.unref()[k]));
        assert(sorted.len() == positions@.len());
    }
    let mut runs: Vec<WindowRun> = Vec::new();
    if positions.len() == 0 {
        return runs;
    }
    let mut current = WindowRunBuilder::new(focus[positions[0]]);
    let mut a: usize = 1;
    proof {
        assert(sorted.take(1).drop_last() =~= Seq::empty());
        assert(sorted.take(1).last() == *focus@[positions@[0] as int]);
        assert(runs_in_order(sorted.take(1).drop_last()) =~= Seq::empty());
        assert(runs_in_order(sorted.take(1)) =~= seq![current@]);
    }
    while a < positions.len()
        invariant
            1 <= a <= positions@.len(),
            positions@.len() == sorted.len(),
            forall|k: int| 0 <= k < positions@.len() ==> #[trigger] positions@[k] < focus@.len(),
            forall|k: int|
                0 <= k < positions@.len() ==> sorted[k] == *focus@[#[trigger] positions@[k] as int],
            runs_in_order(sorted.take(a as int)).len() == runs@.len() + 1,
            runs_in_order(sorted.take(a as int)).last() == current@,
            forall|k: int|
                0 <= k < runs@.len() ==> (#[trigger] runs@[k]).shows(
                    runs_in_order(sorted.take(a as int))[k],
                ),
        decreases positions@.len() - a,
    {
        let event = focus[positions[a]];
        let ghost before = runs_in_order(sorted.take(a as int));
        proof {
            assert(sorted.take(a + 1).drop_last() =~= sorted.take(a as int));
            assert(sorted.take(a + 1).last() == *event);
        }
        if current.takes(event) {
            current.push(event);
        } else {
            runs.push(current.finish());
            current = WindowRunBuilder::new(event);
        }
        a += 1;
    }
    runs.push(current.finish());
    proof {
        assert(sorted.take(a as int) =~= sorted);
    }
    runs
}

/// When a run started; `None` where its start cannot be read.
pub open spec fn started(run: WindowRun) -> Option<Instant> {
    match time::rfc3339_instant(run.start@) {
        Some(parts) => Some(Instant { secs: parts.0 as int, nanos: parts.1 as int }),
        None => None,
    }
}

/// The order of runs, newest first.
pub open spec fn recency_keys(runs: Seq<WindowRun>) -> Seq<RecencyKey> {
    runs.map_values(|run: WindowRun| RecencyKey(started(run)))
}

/// Reorders runs newest first, so that a bounded pass is spent on recent attention.
///
/// A run whose start cannot be read sorts to the tail rather than failing the pass.
/// Runs that started together keep their order.
pub fn newest_first(runs: Vec<WindowRun>) -> (r: Vec<WindowRun>)
    ensures
        r@ == order::stably_sorted(runs@, recency_keys(runs@)),
        r@.len() == runs@.len(),
{
    let mut ranks: Vec<RecencyRank> = Vec::new();
    let mut i: usize = 0;
    while i < runs.len()
        invariant
            i <= runs@.len(),
            ranks@.len() == i,
            forall|k: int|
                0 <= k < i ==> (#[trigger] ranks@[k]).key() == RecencyKey(started(runs@[k])),
        decreases runs@.len() - i,
    {
        ranks.push(RecencyRank { at: Timestamp::parse(runs[i].start.as_str()) });
        i += 1;
    }
    proof {
        assert(order::keys_of(ranks@) =~= recency_keys(runs@));
    }
    order::sort_stably(runs, &ranks)
}

/// [`newest_first`] keeps every run; of two runs with readable starts the later
/// one comes first; and none with an unreadable start comes before one that can be
/// read.
pub proof fn newest_first_orders(runs: Seq<WindowRun>, i: int, j: int)
    requires
        0 <= i < j < runs.len(),
    ensures
        ({
            let sorted = order::stably_sorted(runs, recency_keys(runs));
            &&& sorted.to_multiset() == runs.to_multiset()
            &&& started(sorted[j]) is Some ==> started(sorted[i]) is Some && started(
                sorted[j],
            )->0.at_most(started(sorted[i])->0)
        }),
{
    let keys = recency_keys(runs);
    let positions = order::stable_positions(keys);
    order::stable_positions_sort(keys);
    order::stable_sorts_rearrange(runs, keys);
    assert(order::precedes(keys, positions[i], positions[j]));
}

/// The event ids of runs, one run behind the other.
pub open spec fn ids_held(runs: Seq<Run>) -> Seq<Seq<char>>
    decreases runs.len(),
{
    if runs.len() == 0 {
        Seq::empty()
    } else {
        ids_held(runs.drop_last()) + runs.last().ids
    }
}

/// The ids of events.
pub open spec fn event_ids(events: Seq<StoredEvent>) -> Seq<Seq<char>> {
    events.map_values(|e: StoredEvent| e.id@)
}

/// Grouping loses no event and repeats none: the runs hold the ids of the events
/// in the order in which these were grouped.
pub proof fn runs_partition_the_events(events: Seq<StoredEvent>)
    ensures
        ids_held(runs_in_order(events)) == event_ids(events),
    decreases events.len(),
{
    if events.len() == 0 {
        assert(event_ids(events) =~= Seq::empty());
    } else {
        let earlier = events.drop_last();
        let runs = runs_in_order(earlier);
        let e = events.last();
        runs_partition_the_events(earlier);
        assert(event_ids(events) =~= event_ids(earlier).push(e.id@));
        let after = runs_in_order(events);
        if runs.len() > 0 && runs.last().takes(e) {
            assert(after.drop_last() =~= runs.drop_last());
            assert(ids_held(after) =~= ids_held(runs.drop_last()) + runs.last().ids.push(e.id@));
            assert(ids_held(after) =~= ids_held(runs).push(e.id@));
        } else {
            assert(after.drop_last() =~= runs);
            assert(Run::of(e).ids =~= seq![e.id@]);
            assert(ids_held(after) =~= ids_held(runs).push(e.id@));
        }
    }
}

/// Every run holds an event, keeps at most five titles and never the same title
/// twice in a row.
pub proof fn runs_are_compact(events: Seq<StoredEvent>, k: int)
    requires
        0 <= k < runs_in_order(events).len(),
    ensures
        runs_in_order(events)[k].ids.len() > 0,
        runs_in_order(events)[k].titles.len() <= MAX_TITLES,
        forall|i: int|
            0 < i < runs_in_order(events)[k].titles.len() ==> #[trigger] runs_in_order(
                events,
            )[k].titles[i] != runs_in_order(events)[k].titles[i - 1],
    decreases events.len(),
{
    let earlier = events.drop_last();
    let runs = runs_in_order(earlier);
    let after = runs_in_order(events);
    if k < runs.len() {
        runs_are_compact(earlier, k);
        if after[k] != runs[k] {
            assert(after[k] == runs[k].and(events.last()));
        }
    } else {
        assert(after[k] == Run::of(events.last()));
    }
}

/// Which run holds an event: the last one when the event has been taken.
pub open spec fn run_of(events: Seq<StoredEvent>, i: int) -> int {
    runs_in_order(events.take(i + 1)).len() - 1
}

/// The run that holds an event is of the event's app and machine.
pub proof fn a_run_is_of_one_app_and_machine(events: Seq<StoredEvent>, i: int)
    requires
        0 <= i < events.len(),
    ensures
        0 <= run_of(events, i) < runs_in_order(events).len(),
        runs_in_order(events)[run_of(events, i)].app == app_of(events[i]),
        runs_in_order(events)[run_of(events, i)].machine == text::opt_text(events[i].machine_id),
        runs_in_order(events)[run_of(events, i)].ids.contains(events[i].id@),
    decreases events.len(),
{
    let earlier = events.drop_last();
    let e = events.last();
    let runs = runs_in_order(earlier);
    let after = runs_in_order(events);
    let k = run_of(events, i);
    if i == events.len() - 1 {
        assert(events.take(i + 1) =~= events);
        assert(after[k].ids.last() == e.id@);
    } else {
        assert(earlier.take(i + 1) =~= events.take(i + 1));
        a_run_is_of_one_app_and_machine(earlier, i);
        if after[k] != runs[k] {
            assert(after[k] == runs[k].and(e));
            let at = choose|at: int|
                0 <= at < runs[k].ids.len() && runs[k].ids[at] == events[i].id@;
            assert(after[k].ids[at] == events[i].id@);
        }
    }
}

/// Two events of which one follows the other stand in one run exactly where they are
/// of one app and one machine and less than half an hour apart.
pub proof fn runs_go_on_while_nothing_changes(events: Seq<StoredEvent>, i: int)
    requires
        0 < i < events.len(),
    ensures
        run_of(events, i - 1) == run_of(events, i) <==> ({
            &&& app_of(events[i - 1]) == app_of(events[i])
            &&& text::opt_text(events[i - 1].machine_id) == text::opt_text(events[i].machine_id)
            &&& events[i].timestamp@.since(events[i - 1].timestamp@) < GROUP_GAP_NANOS
        }),
{
    let earlier = events.take(i);
    assert(events.take(i + 1).drop_last() =~= earlier);
    a_run_is_of_one_app_and_machine(earlier, i - 1);
    assert(earlier.take(i) =~= earlier);
    last_run_ends_with_the_last_event(earlier);
}

proof fn last_run_ends_with_the_last_event(events: Seq<StoredEvent>)
    requires
        events.len() > 0,
    ensures
        runs_in_order(events).len() > 0,
        runs_in_order(events).last().end == events.last().timestamp@,
{
}

/// Two neighbouring runs of one app on one machine lie at least half an hour apart:
/// what could go on with a run never starts another.
pub proof fn neighbouring_runs_lie_apart(events: Seq<StoredEvent>, k: int)
    requires
        0 < k < runs_in_order(events).len(),
        runs_in_order(events)[k - 1].app == runs_in_order(events)[k].app,
        runs_in_order(events)[k - 1].machine == runs_in_order(events)[k].machine,
    ensures
        runs_in_order(events)[k].start.since(runs_in_order(events)[k - 1].end) >= GROUP_GAP_NANOS,
    decreases events.len(),
{
    let earlier = events.drop_last();
    let runs = runs_in_order(earlier);
    if k < runs.len() {
        neighbouring_runs_lie_apart(earlier, k);
    }
}

/// Whether the first of two shown runs started at or after the second.
pub open spec fn starts_no_earlier(
    first: WindowRun,
    second: WindowRun,
    runs: Seq<Run>,
    a: int,
    b: int,
) -> bool {
    &&& 0 <= a < runs.len() && first.shows(runs[a])
    &&& 0 <= b < runs.len() && second.shows(runs[b])
    &&& runs[b].start.at_most(runs[a].start)
}

/// Runs that started in the years from zero to 9999 come out of [`newest_first`] in
/// the order of their first events, the latest first.
pub proof fn newest_runs_come_first(shown: Seq<WindowRun>, runs: Seq<Run>, i: int, j: int)
    requires
        show_runs(shown, runs),
        forall|k: int| 0 <= k < runs.len() ==> time::is_plain_second((#[trigger] runs[k]).start.secs),
        0 <= i < j < shown.len(),
    ensures
        ({
            let sorted = order::stably_sorted(shown, recency_keys(shown));
            exists|a: int, b: int| #[trigger] starts_no_earlier(sorted[i], sorted[j], runs, a, b)
        }),
{
    let keys = recency_keys(shown);
    let positions = order::stable_positions(keys);
    let sorted = order::stably_sorted(shown, keys);
    order::stable_positions_sort(keys);
    newest_first_orders(shown, i, j);
    let (a, b) = (positions[i], positions[j]);
    assert(sorted[i] == shown[a]);
    assert(sorted[j] == shown[b]);
    assert(time::is_plain_second(runs[a].start.secs));
    assert(time::is_plain_second(runs[b].start.secs));
    assert(shown[a].shows(runs[a]) && shown[b].shows(runs[b]));
    assert(starts_no_earlier(sorted[i], sorted[j], runs, a, b));
}

/// Whether the event at `j` is the first from `lo` on that has a stream.
pub open spec fn first_with_stream(events: Seq<StoredEvent>, lo: int, j: int) -> bool {
    &&& lo <= j < events.len()
    &&& events[j].stream_id is Some
    &&& forall|i: int| lo <= i < j ==> (#[trigger] events[i]).stream_id is None
}

/// Whether the event at `j` is the first from `lo` on that has a title.
pub open spec fn first_with_title(events: Seq<StoredEvent>, lo: int, j: int) -> bool {
    &&& lo <= j < events.len()
    &&& events[j].window_title is Some
    &&& forall|i: int| lo <= i < j ==> (#[trigger] events[i]).window_title is None
}

/// Whether a run tells of the events from `lo` on and before `hi`: it starts with the
/// first and ends with the last, holds their ids, is of the app and machine of each, has
/// the stream of the first that has one, and names their titles from the first on, each
/// of them until it names five.
pub open spec fn tells_of(run: Run, events: Seq<StoredEvent>, lo: int, hi: int) -> bool {
    &&& 0 <= lo < hi <= events.len()
    &&& run.start == events[lo].timestamp@
    &&& run.end == events[hi - 1].timestamp@
    &&& run.ids.len() == hi - lo
    &&& forall|i: int| lo <= i < hi ==> run.ids[i - lo] == (#[trigger] events[i]).id@
    &&& forall|i: int|
        lo <= i < hi ==> ((#[trigger] events[i]).window_app_id matches Some(app) ==> run.app
            == app@)
    &&& forall|i: int|
        lo <= i < hi ==> ((#[trigger] events[i]).window_app_id is None ==> run.app
            == "(unknown)"@)
    &&& forall|i: int|
        lo <= i < hi ==> ((#[trigger] events[i]).machine_id matches Some(machine) ==> run.machine
            == Some(machine@))
    &&& forall|i: int|
        lo <= i < hi ==> ((#[trigger] events[i]).machine_id is None ==> run.machine is None)
    &&& run.stream is None ==> (forall|i: int|
        lo <= i < hi ==> (#[trigger] events[i]).stream_id is None)
    &&& run.stream matches Some(stream) ==> (exists|j: int|
        j < hi && #[trigger] first_with_stream(events, lo, j) && events[j].stream_id->0@ == stream)
    &&& forall|i: int|
        lo <= i < hi ==> ((#[trigger] events[i]).window_title matches Some(title)
            ==> run.titles.len() >= 5 || run.titles.contains(title@))
    &&& run.titles.len() > 0 ==> (exists|j: int|
        j < hi && #[trigger] first_with_title(events, lo, j) && events[j].window_title->0@
            == run.titles[0])
    &&& forall|t: int|
        0 <= t < run.titles.len() ==> (exists|i: int|
            lo <= i < hi && (#[trigger] events[i]).window_title is Some
                && events[i].window_title->0@ == #[trigger] run.titles[t])
}

proof fn one_event_is_told_of(events: Seq<StoredEvent>, lo: int)
    requires
        0 <= lo < events.len(),
    ensures
        tells_of(Run::of(events[lo]), events, lo, lo + 1),
{
    let e = events[lo];
    let run = Run::of(e);
    assert(run.ids =~= seq![e.id@]);
    if e.stream_id is Some {
        assert(first_with_stream(events, lo, lo));
    }
    if e.window_title is Some {
        assert(run.titles =~= seq![e.window_title->0@]);
        assert(run.titles[0] == e.window_title->0@);
        assert(first_with_title(events, lo, lo));
    } else {
        assert(run.titles =~= Seq::empty());
    }
}

proof fn one_more_event_is_told_of(run: Run, events: Seq<StoredEvent>, lo: int, hi: int)
    requires
        tells_of(run, events, lo, hi),
        hi < events.len(),
        run.takes(events[hi]),
    ensures
        tells_of(run.and(events[hi]), events, lo, hi + 1),
{
    let e = events[hi];
    let more = run.and(e);
    assert(events[lo].timestamp@ == more.start);
    assert forall|i: int| lo <= i < hi + 1 implies more.ids[i - lo] == (#[trigger] events[i]).id@ by {
        if i < hi {
            assert(run.ids[i - lo] == events[i].id@);
        }
    }
    if run.stream is None && e.stream_id is Some {
        assert(first_with_stream(events, lo, hi));
    }
    if run.stream is Some {
        let j = choose|j: int|
            j < hi && #[trigger] first_with_stream(events, lo, j) && events[j].stream_id->0@
                == run.stream->0;
        assert(first_with_stream(events, lo, j));
    }
    if e.window_title is Some && more.titles.len() > run.titles.len() {
        assert(more.titles.last() == e.window_title->0@);
        assert(more.titles[more.titles.len() - 1] == e.window_title->0@);
    }
    assert forall|i: int| lo <= i < hi + 1 implies ((#[trigger] events[i]).window_title matches Some(
        title,
    ) ==> more.titles.len() >= 5 || more.titles.contains(title@)) by {
        if events[i].window_title is Some {
            let title = events[i].window_title->0@;
            if i < hi && run.titles.len() < 5 {
                let t = choose|t: int| 0 <= t < run.titles.len() && run.titles[t] == title;
                assert(more.titles[t] == title);
            } else if i == hi && run.titles.len() < 5 {
                assert(more.titles[more.titles.len() - 1] == title);
            }
        }
    }
    assert forall|t: int| 0 <= t < more.titles.len() implies (exists|i: int|
        lo <= i < hi + 1 && (#[trigger] events[i]).window_title is Some
            && events[i].window_title->0@ == #[trigger] more.titles[t]) by {
        if t < run.titles.len() {
            assert(more.titles[t] == run.titles[t]);
            let i = choose|i: int|
                lo <= i < hi && (#[trigger] events[i]).window_title is Some
                    && events[i].window_title->0@ == run.titles[t];
            assert(events[i].window_title is Some);
        } else {
            assert(events[hi].window_title is Some);
        }
    }
    if run.titles.len() > 0 {
        let j = choose|j: int|
            j < hi && #[trigger] first_with_title(events, lo, j) && events[j].window_title->0@
                == run.titles[0];
        assert(first_with_title(events, lo, j));
        assert(more.titles[0] == run.titles[0]);
    } else if more.titles.len() > 0 {
        assert forall|i: int| lo <= i < hi implies (#[trigger] events[i]).window_title is None by {
            if events[i].window_title is Some {
                assert(run.titles.contains(events[i].window_title->0@));
            }
        }
        assert(first_with_title(events, lo, hi));
        assert(more.titles[0] == e.window_title->0@);
    }
}

proof fn longer_lists_tell_the_same(run: Run, events: Seq<StoredEvent>, lo: int, hi: int)
    requires
        events.len() > 0,
        tells_of(run, events.drop_last(), lo, hi),
    ensures
        tells_of(run, events, lo, hi),
{
    let earlier = events.drop_last();
    assert forall|i: int| lo <= i < hi implies #[trigger] events[i] == earlier[i] by {}
    if run.stream is Some {
        let j = choose|j: int|
            j < hi && #[trigger] first_with_stream(earlier, lo, j) && earlier[j].stream_id->0@
                == run.stream->0;
        assert(first_with_stream(events, lo, j)) by {
            assert forall|i: int| lo <= i < j implies (#[trigger] events[i]).stream_id is None by {
                assert(earlier[i].stream_id is None);
            }
        }
    }
    if run.titles.len() > 0 {
        let j = choose|j: int|
            j < hi && #[trigger] first_with_title(earlier, lo, j) && earlier[j].window_title->0@
                == run.titles[0];
        assert(first_with_title(events, lo, j)) by {
            assert forall|i: int| lo <= i < j implies (#[trigger] events[i]).window_title
                is None by {
                assert(earlier[i].window_title is None);
            }
        }
    }
    assert forall|t: int| 0 <= t < run.titles.len() implies (exists|i: int|
        lo <= i < hi && (#[trigger] events[i]).window_title is Some
            && events[i].window_title->0@ == #[trigger] run.titles[t]) by {
        let i = choose|i: int|
            lo <= i < hi && (#[trigger] earlier[i]).window_title is Some
                && earlier[i].window_title->0@ == run.titles[t];
        assert(events[i].window_title is Some);
    }
}

/// A run tells of events that follow each other, and the last run of the last ones.
pub proof fn runs_tell_of_their_events(events: Seq<StoredEvent>, k: int) -> (span: (int, int))
    requires
        0 <= k < runs_in_order(events).len(),
    ensures
        tells_of(runs_in_order(events)[k], events, span.0, span.1),
        k == runs_in_order(events).len() - 1 ==> span.1 == events.len(),
    decreases events.len(),
{
    let earlier = events.drop_last();
    let runs = runs_in_order(earlier);
    let after = runs_in_order(events);
    let last = events.len() - 1;
    if k < runs.len() {
        let (lo, hi) = runs_tell_of_their_events(earlier, k);
        longer_lists_tell_the_same(runs[k], events, lo, hi);
        if k == runs.len() - 1 && runs.last().takes(events[last]) {
            one_more_event_is_told_of(runs[k], events, lo, hi);
            (lo, hi + 1)
        } else {
            (lo, hi)
        }
    } else {
        one_event_is_told_of(events, last);
        (last, last + 1)
    }
}

/// Whether the duration of a span is so many whole minutes.
pub open spec fn lasts_minutes(span: int, minutes: int) -> bool {
    60_000_000_000 * minutes <= span < 60_000_000_000 * (minutes + 1)
}

/// What is shown of a run is told by its events: when the first and the last of them
/// were, how many whole minutes lie between, their app, their machine, their ids, and
/// the stream of the first of them that has one. Without such an event the run is
/// unclassified.
pub proof fn shown_runs_tell_of_their_events(
    shown: WindowRun,
    events: Seq<StoredEvent>,
    k: int,
) -> (span: (int, int))
    requires
        0 <= k < runs_in_order(events).len(),
        shown.shows(runs_in_order(events)[k]),
    ensures
        ({
            let (lo, hi) = span;
            let first = events[lo];
            let last = events[hi - 1];
            &&& 0 <= lo < hi <= events.len()
            &&& shown.start@ == time::rfc3339_text(first.timestamp@.secs, first.timestamp@.nanos)
            &&& shown.end@ == time::rfc3339_text(last.timestamp@.secs, last.timestamp@.nanos)
            &&& last.timestamp@.since(first.timestamp@) >= 0 ==> lasts_minutes(
                last.timestamp@.since(first.timestamp@),
                shown.duration_minutes as int,
            )
            &&& shown.event_ids@.len() == hi - lo
            &&& forall|i: int| lo <= i < hi ==> shown.event_ids@[i - lo]@ == (#[trigger] events[i]).id@
            &&& forall|i: int|
                lo <= i < hi ==> ((#[trigger] events[i]).window_app_id matches Some(app)
                    ==> shown.app_id@ == app@)
            &&& forall|i: int|
                lo <= i < hi ==> ((#[trigger] events[i]).machine_id matches Some(machine)
                    ==> shown.machine_id matches Some(told) && told@ == machine@)
            &&& shown.stream_id is None <==> (forall|i: int|
                lo <= i < hi ==> (#[trigger] events[i]).stream_id is None)
            &&& shown.stream_id matches Some(stream) ==> (exists|j: int|
                j < hi && #[trigger] first_with_stream(events, lo, j) && events[j].stream_id->0@
                    == stream@)
            &&& shown.titles@.len() <= 5
            &&& forall|i: int|
                lo <= i < hi ==> ((#[trigger] events[i]).window_title matches Some(title)
                    ==> shown.titles@.len() == 5 || text::texts(shown.titles@).contains(title@))
        }),
{
    let run = runs_in_order(events)[k];
    let (lo, hi) = runs_tell_of_their_events(events, k);
    runs_are_compact(events, k);
    assert(text::texts(shown.event_ids@).len() == shown.event_ids@.len());
    assert(text::texts(shown.titles@).len() == shown.titles@.len());
    assert forall|i: int| lo <= i < hi implies shown.event_ids@[i - lo]@ == (
    #[trigger] events[i]).id@ by {
        assert(run.ids[i - lo] == events[i].id@);
        assert(text::texts(shown.event_ids@)[i - lo] == shown.event_ids@[i - lo]@);
    }
    if run.stream is Some {
        let j = choose|j: int|
            j < hi && #[trigger] first_with_stream(events, lo, j) && events[j].stream_id->0@
                == run.stream->0;
        assert(events[j].stream_id is Some);
    }
    (lo, hi)
}

/// Runs are built from all window-focus events and no others, machine by machine, and
/// on a machine in the order of time.
pub proof fn runs_are_built_in_order(events: Seq<StoredEvent>, i: int, j: int)
    ensures
        focus_in_order(events).to_multiset() == events.filter(
            |e: StoredEvent| e.event_type is WindowFocus,
        ).to_multiset(),
        0 <= i < j < focus_in_order(events).len() ==> ({
            let (a, b) = (focus_in_order(events)[i], focus_in_order(events)[j]);
            &&& text::opt_text(a.machine_id) == text::opt_text(b.machine_id)
                ==> a.timestamp@.at_most(b.timestamp@)
            &&& text::opt_text(a.machine_id) != text::opt_text(b.machine_id)
                ==> a.machine_id is None || (b.machine_id is Some && order::text_leq(
                a.machine_id->0@,
                b.machine_id->0@,
            ))
        }),
{
    let focus = events.filter(|e: StoredEvent| is_focus(e));
    let keys = focus_keys(focus);
    assert(focus =~= events.filter(|e: StoredEvent| e.event_type is WindowFocus)) by {
        assert((|e: StoredEvent| is_focus(e)) =~= (|e: StoredEvent| e.event_type is WindowFocus));
    }
    order::stable_positions_sort(keys);
    order::stable_sorts_rearrange(focus, keys);
    if 0 <= i < j < focus_in_order(events).len() {
        let positions = order::stable_positions(keys);
        assert(order::precedes(keys, positions[i], positions[j]));
    }
}

/// A group of events goes on for less than half an hour without one.
pub proof fn half_an_hour_ends_a_group(earlier: Instant, later: Instant)
    requires
        0 <= earlier.nanos < 1_000_000_000,
        0 <= later.nanos < 1_000_000_000,
    ensures
        later.since(earlier) < GROUP_GAP_NANOS <==> time::epoch_nanos(later) - time::epoch_nanos(
            earlier,
        ) < 30 * 60 * 1_000_000_000,
{
}

/// A run takes the title of an event that shows another than the one before, until it has
/// five; it takes the id of every event, and ends with it.
pub proof fn runs_take_titles_as_they_change(run: Run, e: StoredEvent)
    ensures
        run.and(e).ids == run.ids.push(e.id@),
        run.and(e).end == e.timestamp@,
        run.and(e).start == run.start && run.and(e).app == run.app && run.and(e).machine
            == run.machine,
        e.window_title is None || run.titles.len() >= 5 ==> run.and(e).titles == run.titles,
        e.window_title matches Some(title) ==> run.titles.len() < 5 ==> {
            &&& run.titles.len() == 0 ==> run.and(e).titles == seq![title@]
            &&& run.titles.len() > 0 && run.titles.last() == title@ ==> run.and(e).titles
                == run.titles
            &&& run.titles.len() > 0 && run.titles.last() != title@ ==> run.and(e).titles
                == run.titles.push(title@)
        },
        e.window_app_id is None ==> app_of(e) == "(unknown)"@,
        e.window_app_id matches Some(app) ==> app_of(e) == app@,
        is_focus(e) <==> e.event_type is WindowFocus,
{
    if run.titles.len() == 0 {
        if let Some(title) = e.window_title {
            assert(run.and(e).titles =~= seq![title@]);
        }
    }
}

} // verus!
