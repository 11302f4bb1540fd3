//! A pass over the agent sessions of this machine.
//!
//! The pass hands out the events of one session after the other, and is closed once
//! all of them are stored. Only then the scan cursor moves, so that a pass that broke
//! off is repeated.
use vstd::hash_map::StringHashMap;
use vstd::prelude::*;

use crate::ingest::report;
use crate::ingest::report::{AttributionCounts, IngestReport, PassCounts};
use crate::ingest::sessions;
use crate::ingest::sessions::{create_session_events, message_times, next_cursor, ScannedSessions};
use crate::model::{AgentSession, StoredEvent};
use crate::text;
use crate::time::Timestamp;

verus! {

/// For each session, by its id, the times of the messages that it gives events for.
/// What was stored of a session's messages before and is not among them is removed.
pub type DerivedMessages = StringHashMap<Vec<Timestamp>>;

/// A pass under way.
pub struct PassView {
    pub scan: ScannedSessions,
    pub started_at: Timestamp,
    /// How many sessions have been stored.
    pub stored: int,
    pub indexed_events: int,
    pub inserted_events: int,
}

/// How many events sessions give.
pub open spec fn events_given(sessions: Seq<AgentSession>) -> nat
    decreases sessions.len(),
{
    if sessions.len() == 0 {
        0
    } else {
        events_given(sessions.drop_last()) + sessions::session_events(sessions.last()).len()
    }
}

/// For each session, by its id, the times of the messages that it gives events for; of
/// sessions with one id, those of the last.
pub open spec fn messages_by_session(sessions: Seq<AgentSession>) -> Map<Seq<char>, Seq<Timestamp>>
    decreases sessions.len(),
{
    if sessions.len() == 0 {
        Map::empty()
    } else {
        messages_by_session(sessions.drop_last()).insert(
            sessions.last().session_id@,
            sessions::message_stamps(sessions.last()),
        )
    }
}

/// The times by session.
pub open spec fn times_of(derived: Map<Seq<char>, Vec<Timestamp>>) -> Map<
    Seq<char>,
    Seq<Timestamp>,
> {
    derived.map_values(|times: Vec<Timestamp>| times@)
}

/// A pass under way.
pub struct IndexPass {
    scan: ScannedSessions,
    started_at: Timestamp,
    stored: usize,
    indexed_events: usize,
    inserted_events: usize,
    derived: DerivedMessages,
}

impl View for IndexPass {
    type V = PassView;

    closed spec fn view(&self) -> PassView {
        PassView {
            scan: self.scan,
            started_at: self.started_at,
            stored: self.stored as int,
            indexed_events: self.indexed_events as int,
            inserted_events: self.inserted_events as int,
        }
    }
}

impl IndexPass {
    #[verifier::type_invariant]
    spec fn inv(self) -> bool {
        &&& self.stored <= self.scan.sessions@.len()
        &&& self.indexed_events == events_given(self.scan.sessions@.take(self.stored as int))
        &&& self.inserted_events <= self.indexed_events
        &&& times_of(self.derived@) == messages_by_session(
            self.scan.sessions@.take(self.stored as int),
        )
    }

    /// Starts a pass over the sessions of a scan that began at `started_at`.
    pub fn start(scan: ScannedSessions, started_at: Timestamp) -> (r: Self)
        ensures
            r@ == (PassView { scan, started_at, stored: 0, indexed_events: 0, inserted_events: 0 }),
    {
        let derived = DerivedMessages::new();
        proof {
            assert(times_of(derived@) =~= Map::empty());
        }
        IndexPass {
            scan,
            started_at,
            stored: 0,
            indexed_events: 0,
            inserted_events: 0,
            derived,
        }
    }

    /// The next session that is to be stored, with its events; `None` once all are.
    pub fn next(&self, machine_id: Option<&str>) -> (r: Option<(&AgentSession, Vec<StoredEvent>)>)
        ensures
            0 <= self@.stored <= self@.scan.sessions@.len(),
            match r {
                Some((session, events)) => {
                    &&& self@.stored < self@.scan.sessions@.len()
                    &&& *session == self@.scan.sessions@[self@.stored]
                    &&& sessions::are_events_of(
                        events@,
                        *session,
                        text::opt_str(machine_id),
                        sessions::session_events(*session),
                    )
                },
                None => self@.stored == self@.scan.sessions@.len(),
            },
    {
        proof {
            use_type_invariant(self);
        }
        if self.stored < self.scan.sessions.len() {
            let session: &AgentSession = &self.scan.sessions[self.stored];
            Some((session, create_session_events(session, machine_id)))
        } else {
            None
        }
    }

    /// Records that the next session has been stored with its `events` events, of
    /// which `inserted` were new.
    pub fn record(&mut self, events: usize, inserted: usize)
        requires
            old(self)@.stored < old(self)@.scan.sessions@.len(),
            events == sessions::session_events(
                old(self)@.scan.sessions@[old(self)@.stored],
            ).len(),
            inserted <= events,
            old(self)@.indexed_events + events <= usize::MAX,
        ensures
            final(self)@ == (PassView {
                stored: old(self)@.stored + 1,
                indexed_events: old(self)@.indexed_events + events,
                inserted_events: old(self)@.inserted_events + inserted,
                ..old(self)@
            }),
    {
        proof {
            use_type_invariant(&*self);
        }
        let ghost sessions = self.scan.sessions@;
        let ghost k = self.stored as int;
        let mut taken = IndexPass::start(
            ScannedSessions {
                sessions: Vec::new(),
                claude: 0,
                opencode: 0,
                omp: 0,
                scanned_claude: false,
                scanned_opencode: false,
                scanned_omp: false,
                complete: false,
            },
            self.started_at,
        );
        std::mem::swap(self, &mut taken);
        let IndexPass { scan, started_at, stored, indexed_events, inserted_events, mut derived } =
            taken;
        let count: usize = scan.sessions.len();
        let session: &AgentSession = &scan.sessions[stored];
        let ghost before = derived@;
        derived.insert(session.session_id.clone(), message_times(session));
        proof {
            assert(times_of(derived@) =~= times_of(before).insert(
                session.session_id@,
                sessions::message_stamps(*session),
            ));
            assert(sessions.take(k + 1).drop_last() =~= sessions.take(k));
            assert(sessions.take(k + 1).last() == sessions[k]);
            assert(k < count);
        }
        *self = IndexPass {
            scan,
            started_at,
            stored: stored + 1,
            indexed_events: indexed_events + events,
            inserted_events: inserted_events + inserted,
            derived,
        };
    }

    /// The messages of the sessions that have been stored. It speaks for no other
    /// session.
    pub fn derived_messages(&self) -> (r: &DerivedMessages)
        ensures
            times_of(r@) == messages_by_session(self@.scan.sessions@.take(self@.stored)),
    {
        proof {
            use_type_invariant(self);
        }
        &self.derived
    }

    /// Closes a pass whose sessions are all stored: what it did, and where the scan
    /// cursor moves. A pass that found no session does nothing else.
    pub fn finish(
        self,
        stale_events_cleaned: u64,
        injected_events_pruned: u64,
        drained_events: usize,
        attribution: AttributionCounts,
    ) -> (r: (IngestReport, Option<Timestamp>))
        requires
            self@.stored == self@.scan.sessions@.len(),
            self@.inserted_events + drained_events <= usize::MAX,
        ensures
            r.0.tells_of(self@.scan),
            r.1 == if self@.scan.complete {
                Some(self@.started_at)
            } else {
                None::<Timestamp>
            },
            self@.scan.sessions@.len() == 0 ==> {
                &&& r.0.indexed_events == 0
                &&& r.0.imported_events == 0
                &&& r.0.drained_events == 0
                &&& r.0.stale_events_cleaned == 0
                &&& r.0.injected_events_pruned == 0
                &&& r.0.session_membership_assigned == 0
                &&& r.0.terminal_focus_assigned == 0
                &&& r.0.artifact_focus_assigned == 0
                &&& r.0.projects@.len() == 0
            },
            self@.scan.sessions@.len() > 0 ==> {
                &&& r.0.indexed_events == events_given(self@.scan.sessions@)
                &&& r.0.indexed_events == self@.indexed_events
                &&& r.0.imported_events == self@.inserted_events + drained_events
                &&& r.0.drained_events == drained_events
                &&& r.0.stale_events_cleaned == stale_events_cleaned
                &&& r.0.injected_events_pruned == injected_events_pruned
                &&& r.0.session_membership_assigned == attribution.session_membership
                &&& r.0.terminal_focus_assigned == attribution.terminal_focus
                &&& r.0.artifact_focus_assigned == attribution.artifact_reference
                &&& report::tally_view(r.0.projects@) == report::projects_by_size(
                    report::project_names(self@.scan.sessions@),
                )
            },
    {
        proof {
            use_type_invariant(&self);
            assert(self.scan.sessions@.take(self.stored as int) =~= self.scan.sessions@);
        }
        let cursor: Option<Timestamp> = next_cursor(self.started_at, self.scan.complete);
        if self.scan.sessions.len() == 0 {
            return (IngestReport::unchanged(&self.scan), cursor);
        }
        let counts = PassCounts {
            indexed_events: self.indexed_events,
            inserted_events: self.inserted_events,
            drained_events,
            stale_events_cleaned,
            injected_events_pruned,
            attribution,
        };
        (IngestReport::of_pass(&self.scan, &counts), cursor)
    }
}

/// A session more gives its own events more: that it started, its messages where a person
/// drives it, its tool calls, and that it ended where it has.
pub proof fn every_session_gives_its_events(sessions: Seq<AgentSession>, session: AgentSession)
    ensures
        events_given(Seq::empty()) == 0,
        events_given(sessions.push(session)) == events_given(sessions) + 1
            + sessions::message_count(session) + session.tool_call_timestamps@.len() + (
        if session.end_time is Some {
            1int
        } else {
            0
        }),
{
    assert(sessions.push(session).drop_last() =~= sessions);
}

/// The messages that stand for an id are those of the last session with that id: the
/// times of its messages where a person drives it, and none otherwise. An id that no
/// session has stands for none. `k` is where that session stands.
pub proof fn messages_stand_for_the_last_of_an_id(sessions: Seq<AgentSession>, id: Seq<char>) -> (k:
    int)
    ensures
        messages_by_session(sessions).contains_key(id) <==> (exists|i: int|
            0 <= i < sessions.len() && (#[trigger] sessions[i]).session_id@ == id),
        messages_by_session(sessions).contains_key(id) ==> {
            let times = messages_by_session(sessions)[id];
            &&& 0 <= k < sessions.len() && sessions[k].session_id@ == id
            &&& forall|i: int|
                k < i < sessions.len() ==> (#[trigger] sessions[i]).session_id@ != id
            &&& times.len() == sessions::message_count(sessions[k])
            &&& times == sessions[k].user_message_timestamps@.take(times.len() as int)
        },
    decreases sessions.len(),
{
    if sessions.len() == 0 {
        0
    } else {
        let last = sessions.len() - 1;
        let earlier = sessions.drop_last();
        assert forall|i: int| 0 <= i < last implies earlier[i] == #[trigger] sessions[i] by {}
        let k = messages_stand_for_the_last_of_an_id(earlier, id);
        if sessions[last].session_id@ == id {
            let times = sessions::message_stamps(sessions[last]);
            assert(times =~= sessions[last].user_message_timestamps@.take(times.len() as int));
            last
        } else {
            if exists|i: int|
                0 <= i < sessions.len() && (#[trigger] sessions[i]).session_id@ == id {
                let i = choose|i: int|
                    0 <= i < sessions.len() && (#[trigger] sessions[i]).session_id@ == id;
                assert(earlier[i].session_id@ == id);
            }
            if messages_by_session(earlier).contains_key(id) {
                assert(sessions[k].session_id@ == id);
            }
            k
        }
    }
}

} // verus!
