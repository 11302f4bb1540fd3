//! Stream classification.
//!
//! Two modes: showing sessions and events for classification, and applying
//! assignments.
pub mod apply;
pub mod render;
pub mod show;
pub mod todos;

pub use crate::classify::apply::{
    ApplyOutcome, ClassifyApplyInput, EventIdsAssignment, PatternAssignment, SessionAssignment,
    StreamDef, TimeAssignment,
};

use vstd::prelude::*;
use vstd::string::*;

use crate::classify_auto::window_runs;
use crate::classify_auto::window_runs::GROUP_GAP_NANOS;
use crate::model::StoredEvent;
use crate::order;
use crate::order::{PlaceTimeKey, PlaceTimeRank, Ranked};
use crate::text;
use crate::time;
use crate::time::{Instant, Timestamp};

verus! {

/// A cluster of events that belong to no session.
#[derive(Debug)]
pub struct EventCluster {
    pub cwd: String,
    pub start_time: String,
    pub end_time: String,
    pub duration_minutes: i64,
    pub event_count: usize,
    pub event_types: Vec<String>,
    pub stream_id: Option<String>,
}

/// A cluster as it is built up.
#[verifier::ext_equal]
pub struct Cluster {
    pub cwd: Seq<char>,
    pub start: Instant,
    pub end: Instant,
    pub count: nat,
    pub types: Seq<Seq<char>>,
    pub stream: Option<Seq<char>>,
}

/// The directory of an event, empty where it has none.
pub open spec fn cwd_of(e: StoredEvent) -> Seq<char> {
    match e.cwd {
        Some(cwd) => cwd@,
        None => Seq::empty(),
    }
}

impl Cluster {
    /// The cluster of one event.
    pub open spec fn of(e: StoredEvent) -> Cluster {
        Cluster {
            cwd: cwd_of(e),
            start: e.timestamp@,
            end: e.timestamp@,
            count: 1,
            types: seq![e.event_type.name()],
            stream: text::opt_text(e.stream_id),
        }
    }

    /// The cluster with one more event: it ends there, names the event's type
    /// once, and its stream is the first one that any of its events has.
    pub open spec fn and(self, e: StoredEvent) -> Cluster {
        Cluster {
            end: e.timestamp@,
            count: self.count + 1,
            types: if self.types.contains(e.event_type.name()) {
                self.types
            } else {
                self.types.push(e.event_type.name())
            },
            stream: if self.stream is None {
                text::opt_text(e.stream_id)
            } else {
                self.stream
            },
            ..self
        }
    }

    /// Whether an event goes on with this cluster: same directory, and less than
    /// half an hour after the cluster's end.
    pub open spec fn takes(self, e: StoredEvent) -> bool {
        cwd_of(e) == self.cwd && e.timestamp@.since(self.end) < GROUP_GAP_NANOS
    }
}

impl EventCluster {
    /// Whether this shows the cluster `c`.
    pub open spec fn shows(self, c: Cluster) -> bool {
        &&& self.cwd@ == c.cwd
        &&& self.start_time@ == time::rfc3339_text(c.start.secs, c.start.nanos)
        &&& self.end_time@ == time::rfc3339_text(c.end.secs, c.end.nanos)
        &&& self.duration_minutes == time::truncated(
            c.end.since(c.start),
            60 * time::SECOND_NANOS,
        )
        &&& self.event_count == c.count
        &&& text::texts(self.event_types@) == c.types
        &&& text::opt_text(self.stream_id) == c.stream
    }
}

/// Whether `shown` shows the clusters `clusters`, one each.
pub open spec fn show_clusters(shown: Seq<EventCluster>, clusters: Seq<Cluster>) -> bool {
    &&& shown.len() == clusters.len()
    &&& forall|i: int| 0 <= i < clusters.len() ==> (#[trigger] shown[i]).shows(clusters[i])
}

/// The clusters of events in order: each event goes on with the last cluster or
/// starts a new one.
pub open spec fn clusters_in_order(events: Seq<StoredEvent>) -> Seq<Cluster>
    decreases events.len(),
{
    if events.len() == 0 {
        Seq::empty()
    } else {
        let clusters = clusters_in_order(events.drop_last());
        let e = events.last();
        if clusters.len() > 0 && clusters.last().takes(e) {
            clusters.drop_last().push(clusters.last().and(e))
        } else {
            clusters.push(Cluster::of(e))
        }
    }
}

/// The order in which events are clustered: by directory, then by time.
pub open spec fn cluster_keys(events: Seq<StoredEvent>) -> Seq<PlaceTimeKey> {
    events.map_values(
        |e: StoredEvent| PlaceTimeKey { place: text::opt_text(e.cwd), at: e.timestamp@ },
    )
}

/// The events among `events` that are clustered, all but window focus, in order.
pub open spec fn clustered_in_order(events: Seq<StoredEvent>) -> Seq<StoredEvent> {
    let kept = events.filter(|e: StoredEvent| !window_runs::is_focus(e));
    order::stably_sorted(kept, cluster_keys(kept))
}

/// The clusters among `events`.
pub open spec fn event_clusters(events: Seq<StoredEvent>) -> Seq<Cluster> {
    clusters_in_order(clustered_in_order(events))
}

/// A cluster while it is built up.
struct ClusterBuilder {
    cwd: String,
    start: Timestamp,
    end: Timestamp,
    count: usize,
    types: Vec<String>,
    stream: Option<String>,
}

impl View for ClusterBuilder {
    type V = Cluster;

    closed spec fn view(&self) -> Cluster {
        Cluster {
            cwd: self.cwd@,
            start: self.start@,
            end: self.end@,
            count: self.count as nat,
            types: text::texts(self.types@),
            stream: text::opt_text(self.stream),
        }
    }
}

fn cwd_text(event: &StoredEvent) -> (r: String)
    ensures
        r@ == cwd_of(*event),
{
    match &event.cwd {
        Some(cwd) => cwd.clone(),
        None => String::new(),
    }
}

/// Whether `texts` holds `wanted`.
fn holds(texts: &Vec<String>, wanted: &str) -> (r: bool)
    ensures
        r == text::texts(texts@).contains(wanted@),
{
    let mut i: usize = 0;
    while i < texts.len()
        invariant
            i <= texts@.len(),
            forall|j: int| 0 <= j < i ==> text::texts(texts@)[j] != wanted@,
        decreases texts@.len() - i,
    {
        if text::same(texts[i].as_str(), wanted) {
            proof {
                assert(text::texts(texts@)[i as int] == wanted@);
            }
            return true;
        }
        i += 1;
    }
    false
}

impl ClusterBuilder {
    fn new(event: &StoredEvent) -> (r: Self)
        ensures
            r@ == Cluster::of(*event),
    {
        let mut types: Vec<String> = Vec::new();
        types.push(event.event_type.as_str().to_owned());
        let r = ClusterBuilder {
            cwd: cwd_text(event),
            start: event.timestamp,
            end: event.timestamp,
            count: 1,
            types,
            stream: event.stream_id.clone(),
        };
        proof {
            assert(r@.types =~= Cluster::of(*event).types);
        }
        r
    }

    fn takes(&self, event: &StoredEvent) -> (r: bool)
        ensures
            r == self@.takes(*event),
    {
        let same_cwd: bool = match &event.cwd {
            Some(cwd) => text::same(cwd.as_str(), self.cwd.as_str()),
            None => {
                proof {
                    if self.cwd@.len() == 0 {
                        assert(self.cwd@ =~= Seq::empty());
                    }
                }
                self.cwd.as_str().is_empty()
            },
        };
        same_cwd && event.timestamp.since(&self.end) < GROUP_GAP_NANOS
    }

    fn push(&mut self, event: &StoredEvent)
        requires
            old(self)@.count < usize::MAX,
        ensures
            final(self)@ == old(self)@.and(*event),
    {
        let ghost before = self@;
        self.end = event.timestamp;
        self.count = self.count + 1;
        if !holds(&self.types, event.event_type.as_str()) {
            self.types.push(event.event_type.as_str().to_owned());
        }
        if self.stream.is_none() {
            self.stream = event.stream_id.clone();
        }
        proof {
            assert(self@.types =~= before.and(*event).types);
        }
    }

    fn finish(self) -> (r: EventCluster)
        ensures
            r.shows(self@),
    {
        EventCluster {
            cwd: self.cwd,
            start_time: self.start.to_rfc3339(),
            end_time: self.end.to_rfc3339(),
            duration_minutes: self.end.minutes_since(&self.start),
            event_count: self.count,
            event_types: self.types,
            stream_id: self.stream,
        }
    }
}

/// Clusters events that belong to no session by directory and by closeness in
/// time. Window focus is left to the window runs.
pub fn cluster_events(events: &Vec<&StoredEvent>) -> (r: Vec<EventCluster>)
    ensures
        show_clusters(r@, event_clusters(events@.unref())),
{
    let ghost all = events@.unref();
    let ghost pred = |e: StoredEvent| !window_runs::is_focus(e);
    let mut kept: Vec<&StoredEvent> = Vec::new();
    let mut ranks: Vec<PlaceTimeRank> = Vec::new();
    let mut i: usize = 0;
    proof {
        reveal(Seq::filter);
        assert(all.take(0).filter(pred) =~= Seq::empty());
    }
    while i < events.len()
        invariant
            i <= events@.len(),
            all == events@.unref(),
            pred == (|e: StoredEvent| !window_runs::is_focus(e)),
            kept@.unref() == all.take(i as int).filter(pred),
            ranks@.len() == kept@.len(),
            forall|k: int|
                0 <= k < ranks@.len() ==> (#[trigger] ranks@[k]).key() == (PlaceTimeKey {
                    place: text::opt_text(kept@[k].cwd),
                    at: kept@[k].timestamp@,
                }),
        decreases events@.len() - i,
    {
        let ghost before = kept@.unref();
        proof {
            reveal(Seq::filter);
            assert(all.take(i + 1).drop_last() =~= all.take(i as int));
        }
        if !events[i].event_type.is_window_focus() {
            ranks.push(order::place_time(&events[i].cwd, &events[i].timestamp));
            kept.push(events[i]);
            proof {
                assert(kept@.unref() =~= before.push(all[i as int]));
            }
        }
        i += 1;
    }
    proof {
        assert(all.take(i as int) =~= all);
        assert(order::keys_of(ranks@) =~= cluster_keys(kept@.unref()));
    }
    let positions = order::sort_positions(&ranks);
    let ghost sorted = clustered_in_order(all);
    proof {
        assert(sorted =~= order::as_ints(positions@).map_values(|k: int| kept@.unref()[k]));
        assert(sorted.len() == positions@.len());
    }
    let mut clusters: Vec<EventCluster> = Vec::new();
    let total: usize = positions.len();
    if total == 0 {
        return clusters;
    }
    let mut current = ClusterBuilder::new(kept[positions[0]]);
    let mut a: usize = 1;
    proof {
        assert(sorted.take(1).drop_last() =~= Seq::empty());
        assert(sorted.take(1).last() == *kept@[positions@[0] as int]);
        assert(clusters_in_order(sorted.take(1).drop_last()) =~= Seq::empty());
        assert(clusters_in_order(sorted.take(1)) =~= seq![current@]);
    }
    while a < total
        invariant
            1 <= a <= total,
            total == positions@.len(),
            positions@.len() == sorted.len(),
            forall|k: int| 0 <= k < positions@.len() ==> #[trigger] positions@[k] < kept@.len(),
            forall|k: int|
                0 <= k < positions@.len() ==> sorted[k] == *kept@[#[trigger] positions@[k] as int],
            current@.count <= a,
            clusters_in_order(sorted.take(a as int)).len() == clusters@.len() + 1,
            clusters_in_order(sorted.take(a as int)).last() == current@,
            forall|k: int|
                0 <= k < clusters@.len() ==> (#[trigger] clusters@[k]).shows(
                    clusters_in_order(sorted.take(a as int))[k],
                ),
        decreases total - a,
    {
        let event = kept[positions[a]];
        proof {
            assert(sorted.take(a + 1).drop_last() =~= sorted.take(a as int));
            assert(sorted.take(a + 1).last() == *event);
        }
        if current.takes(event) {
            current.push(event);
        } else {
            clusters.push(current.finish());
            current = ClusterBuilder::new(event);
        }
        a += 1;
    }
    clusters.push(current.finish());
    proof {
        assert(sorted.take(a as int) =~= sorted);
    }
    clusters
}

/// How many events clusters hold in all.
pub open spec fn events_in(clusters: Seq<Cluster>) -> nat
    decreases clusters.len(),
{
    if clusters.len() == 0 {
        0
    } else {
        events_in(clusters.drop_last()) + clusters.last().count
    }
}

/// Clustering loses no event and repeats none: the clusters hold as many events as
/// there are, each cluster at least one, and no cluster names a type twice.
pub proof fn clusters_partition_the_events(events: Seq<StoredEvent>)
    ensures
        events_in(clusters_in_order(events)) == events.len(),
        forall|k: int|
            0 <= k < clusters_in_order(events).len() ==> (#[trigger] clusters_in_order(
                events,
            )[k]).count > 0 && clusters_in_order(events)[k].types.no_duplicates(),
    decreases events.len(),
{
    if events.len() > 0 {
        let earlier = events.drop_last();
        let clusters = clusters_in_order(earlier);
        let after = clusters_in_order(events);
        clusters_partition_the_events(earlier);
        if clusters.len() > 0 && clusters.last().takes(events.last()) {
            assert(after.drop_last() =~= clusters.drop_last());
            assert(clusters[clusters.len() - 1].types.no_duplicates());
        } else {
            assert(after.drop_last() =~= clusters);
        }
    }
}

/// Two neighbouring clusters of one directory lie at least half an hour apart:
/// what could go on with a cluster never starts another.
pub proof fn neighbouring_clusters_lie_apart(events: Seq<StoredEvent>, k: int)
    requires
        0 < k < clusters_in_order(events).len(),
        clusters_in_order(events)[k - 1].cwd == clusters_in_order(events)[k].cwd,
    ensures
        clusters_in_order(events)[k].start.since(clusters_in_order(events)[k - 1].end)
            >= GROUP_GAP_NANOS,
    decreases events.len(),
{
    let earlier = events.drop_last();
    let clusters = clusters_in_order(earlier);
    if k < clusters.len() {
        neighbouring_clusters_lie_apart(earlier, k);
    }
}

/// Whether a cluster tells of the events from `lo` on and before `hi`: it starts with the
/// first and ends with the last, counts them, is of the directory of each, names the type
/// of each and no other, and has the stream of the first that has one.
pub open spec fn tells_of(c: Cluster, events: Seq<StoredEvent>, lo: int, hi: int) -> bool {
    &&& 0 <= lo < hi <= events.len()
    &&& c.start == events[lo].timestamp@
    &&& c.end == events[hi - 1].timestamp@
    &&& c.count == hi - lo
    &&& forall|i: int|
        lo <= i < hi ==> ((#[trigger] events[i]).cwd matches Some(cwd) ==> c.cwd == cwd@)
    &&& forall|i: int|
        lo <= i < hi ==> ((#[trigger] events[i]).cwd is None ==> c.cwd.len() == 0)
    &&& forall|i: int|
        lo <= i < hi ==> c.types.contains((#[trigger] events[i]).event_type.name())
    &&& forall|t: int|
        0 <= t < c.types.len() ==> (exists|i: int|
            lo <= i < hi && (#[trigger] events[i]).event_type.name() == #[trigger] c.types[t])
    &&& c.stream is None ==> (forall|i: int|
        lo <= i < hi ==> (#[trigger] events[i]).stream_id is None)
    &&& c.stream matches Some(stream) ==> (exists|j: int|
        j < hi && #[trigger] window_runs::first_with_stream(events, lo, j)
            && events[j].stream_id->0@ == stream)
}

proof fn one_event_is_told_of(events: Seq<StoredEvent>, lo: int)
    requires
        0 <= lo < events.len(),
    ensures
        tells_of(Cluster::of(events[lo]), events, lo, lo + 1),
{
    let c = Cluster::of(events[lo]);
    assert(c.types[0] == events[lo].event_type.name());
    if events[lo].stream_id is Some {
        assert(window_runs::first_with_stream(events, lo, lo));
    }
}

proof fn one_more_event_is_told_of(c: Cluster, events: Seq<StoredEvent>, lo: int, hi: int)
    requires
        tells_of(c, events, lo, hi),
        hi < events.len(),
        c.takes(events[hi]),
    ensures
        tells_of(c.and(events[hi]), events, lo, hi + 1),
{
    let e = events[hi];
    let more = c.and(e);
    assert(events[lo].timestamp@ == more.start);
    assert forall|i: int| lo <= i < hi + 1 implies more.types.contains(
        (#[trigger] events[i]).event_type.name(),
    ) by {
        if i < hi {
            let t = choose|t: int|
                0 <= t < c.types.len() && c.types[t] == events[i].event_type.name();
            assert(more.types[t] == events[i].event_type.name());
        } else if !c.types.contains(e.event_type.name()) {
            assert(more.types[more.types.len() - 1] == e.event_type.name());
        }
    }
    assert forall|t: int| 0 <= t < more.types.len() implies (exists|i: int|
        lo <= i < hi + 1 && (#[trigger] events[i]).event_type.name()
            == #[trigger] more.types[t]) by {
        if t < c.types.len() {
            assert(more.types[t] == c.types[t]);
            let i = choose|i: int|
                lo <= i < hi && (#[trigger] events[i]).event_type.name() == c.types[t];
            assert(events[i].event_type.name() == more.types[t]);
        } else {
            assert(events[hi].event_type.name() == more.types[t]);
        }
    }
    if c.stream is None && e.stream_id is Some {
        assert(window_runs::first_with_stream(events, lo, hi));
    }
    if c.stream is Some {
        let j = choose|j: int|
            j < hi && #[trigger] window_runs::first_with_stream(events, lo, j)
                && events[j].stream_id->0@ == c.stream->0;
        assert(window_runs::first_with_stream(events, lo, j));
    }
}

proof fn longer_lists_tell_the_same(c: Cluster, events: Seq<StoredEvent>, lo: int, hi: int)
    requires
        events.len() > 0,
        tells_of(c, events.drop_last(), lo, hi),
    ensures
        tells_of(c, events, lo, hi),
{
    let earlier = events.drop_last();
    assert forall|i: int| lo <= i < hi implies #[trigger] events[i] == earlier[i] by {}
    assert forall|t: int| 0 <= t < c.types.len() implies (exists|i: int|
        lo <= i < hi && (#[trigger] events[i]).event_type.name() == #[trigger] c.types[t]) by {
        let i = choose|i: int|
            lo <= i < hi && (#[trigger] earlier[i]).event_type.name() == c.types[t];
        assert(events[i].event_type.name() == c.types[t]);
    }
    if c.stream is Some {
        let j = choose|j: int|
            j < hi && #[trigger] window_runs::first_with_stream(earlier, lo, j)
                && earlier[j].stream_id->0@ == c.stream->0;
        assert(window_runs::first_with_stream(events, lo, j)) by {
            assert forall|i: int| lo <= i < j implies (#[trigger] events[i]).stream_id is None by {
                assert(earlier[i].stream_id is None);
            }
        }
    }
}

/// A cluster tells of events that follow each other, and the last cluster of the last
/// ones.
pub proof fn clusters_tell_of_their_events(events: Seq<StoredEvent>, k: int) -> (span: (int, int))
    requires
        0 <= k < clusters_in_order(events).len(),
    ensures
        tells_of(clusters_in_order(events)[k], events, span.0, span.1),
        k == clusters_in_order(events).len() - 1 ==> span.1 == events.len(),
    decreases events.len(),
{
    let earlier = events.drop_last();
    let clusters = clusters_in_order(earlier);
    let last = events.len() - 1;
    if k < clusters.len() {
        let (lo, hi) = clusters_tell_of_their_events(earlier, k);
        longer_lists_tell_the_same(clusters[k], events, lo, hi);
        if k == clusters.len() - 1 && clusters.last().takes(events[last]) {
            one_more_event_is_told_of(clusters[k], events, lo, hi);
            (lo, hi + 1)
        } else {
            (lo, hi)
        }
    } else {
        one_event_is_told_of(events, last);
        (last, last + 1)
    }
}

/// What is shown of a cluster is told by its events: when the first and the last of them
/// were, how many whole minutes lie between, how many they are, their directory, their
/// types, and the stream of the first of them that has one. Without such an event the
/// cluster is unclassified.
pub proof fn shown_clusters_tell_of_their_events(
    shown: EventCluster,
    events: Seq<StoredEvent>,
    k: int,
) -> (span: (int, int))
    requires
        0 <= k < clusters_in_order(events).len(),
        shown.shows(clusters_in_order(events)[k]),
    ensures
        ({
            let (lo, hi) = span;
            let first = events[lo];
            let last = events[hi - 1];
            &&& 0 <= lo < hi <= events.len()
            &&& shown.start_time@ == time::rfc3339_text(
                first.timestamp@.secs,
                first.timestamp@.nanos,
            )
            &&& shown.end_time@ == time::rfc3339_text(last.timestamp@.secs, last.timestamp@.nanos)
            &&& last.timestamp@.since(first.timestamp@) >= 0 ==> window_runs::lasts_minutes(
                last.timestamp@.since(first.timestamp@),
                shown.duration_minutes as int,
            )
            &&& shown.event_count == hi - lo
            &&& forall|i: int|
                lo <= i < hi ==> ((#[trigger] events[i]).cwd matches Some(cwd) ==> shown.cwd@
                    == cwd@)
            &&& forall|i: int|
                lo <= i < hi ==> text::texts(shown.event_types@).contains(
                    (#[trigger] events[i]).event_type.name(),
                )
            &&& shown.stream_id is None <==> (forall|i: int|
                lo <= i < hi ==> (#[trigger] events[i]).stream_id is None)
            &&& shown.stream_id matches Some(stream) ==> (exists|j: int|
                j < hi && #[trigger] window_runs::first_with_stream(events, lo, j)
                    && events[j].stream_id->0@ == stream@)
        }),
{
    let c = clusters_in_order(events)[k];
    let (lo, hi) = clusters_tell_of_their_events(events, k);
    if c.stream is Some {
        let j = choose|j: int|
            j < hi && #[trigger] window_runs::first_with_stream(events, lo, j)
                && events[j].stream_id->0@ == c.stream->0;
        assert(events[j].stream_id is Some);
    }
    (lo, hi)
}

/// Which cluster holds an event: the last one when the event has been taken.
pub open spec fn cluster_of(events: Seq<StoredEvent>, i: int) -> int {
    clusters_in_order(events.take(i + 1)).len() - 1
}

/// Two events of which one follows the other stand in one cluster exactly where they are
/// of one directory and less than half an hour apart.
pub proof fn clusters_go_on_while_nothing_changes(events: Seq<StoredEvent>, i: int)
    requires
        0 < i < events.len(),
    ensures
        cluster_of(events, i - 1) == cluster_of(events, i) <==> ({
            &&& cwd_of(events[i - 1]) == cwd_of(events[i])
            &&& events[i].timestamp@.since(events[i - 1].timestamp@) < 30 * 60 * 1_000_000_000
        }),
{
    let earlier = events.take(i);
    assert(events.take(i + 1).drop_last() =~= earlier);
    assert(clusters_in_order(earlier).len() > 0);
    let (lo, hi) = clusters_tell_of_their_events(
        earlier,
        clusters_in_order(earlier).len() - 1,
    );
    assert(earlier[i - 1] == events[i - 1]);
    assert(clusters_in_order(earlier).last().cwd =~= cwd_of(events[i - 1]));
}

/// Clusters are built from all events but window focus, directory by directory, and in a
/// directory in the order of time.
pub proof fn clusters_are_built_in_order(events: Seq<StoredEvent>, i: int, j: int)
    ensures
        clustered_in_order(events).to_multiset() == events.filter(
            |e: StoredEvent| !(e.event_type is WindowFocus),
        ).to_multiset(),
        0 <= i < j < clustered_in_order(events).len() ==> ({
            let (a, b) = (clustered_in_order(events)[i], clustered_in_order(events)[j]);
            &&& text::opt_text(a.cwd) == text::opt_text(b.cwd) ==> a.timestamp@.at_most(
                b.timestamp@,
            )
            &&& text::opt_text(a.cwd) != text::opt_text(b.cwd) ==> a.cwd is None || (b.cwd is Some
                && order::text_leq(a.cwd->0@, b.cwd->0@))
        }),
{
    let kept = events.filter(|e: StoredEvent| !window_runs::is_focus(e));
    let keys = cluster_keys(kept);
    assert(kept =~= events.filter(|e: StoredEvent| !(e.event_type is WindowFocus))) by {
        assert((|e: StoredEvent| !window_runs::is_focus(e)) =~= (|e: StoredEvent|
            !(e.event_type is WindowFocus)));
    }
    order::stable_positions_sort(keys);
    order::stable_sorts_rearrange(kept, keys);
    if 0 <= i < j < clustered_in_order(events).len() {
        let positions = order::stable_positions(keys);
        assert(order::precedes(keys, positions[i], positions[j]));
    }
}

} // verus!
