//! Import of exported events: what each line is, what becomes of an event before it
//! is stored, and how an import is counted.
use vstd::prelude::*;
use vstd::string::*;

use crate::ids;
use crate::json;
use crate::json::JsonView;
use crate::model::StoredEvent;
use crate::text;

verus! {

/// How many events are stored at once.
pub const BATCH_SIZE: usize = 1000;

/// What an import did.
#[derive(Debug)]
pub struct ImportResult {
    /// Events that were read.
    pub total_read: usize,
    /// Events that were stored.
    pub inserted: usize,
    /// Events that had been stored before.
    pub duplicates: usize,
    /// Lines that held no event.
    pub malformed: usize,
    /// Agent sessions that were stored.
    pub sessions_imported: usize,
    /// The first machine that an event or a session named.
    pub machine_id: Option<String>,
}

/// What a line of an import is.
#[derive(Debug)]
pub enum ImportLine {
    /// Nothing.
    Blank,
    /// A record of an agent session.
    Metadata,
    /// An event, as the text to read it from.
    Event(String),
    /// No JSON.
    Malformed,
}

/// Whether a value is a record of an agent session.
pub open spec fn is_metadata(value: JsonView) -> bool {
    value.text_at("type"@) == Some("session_metadata"@)
}

/// Whether a value is a record of an agent session.
pub fn is_metadata_value(value: &serde_json::Value) -> (r: bool)
    ensures
        r == is_metadata(json::content(*value)),
{
    match json::text_member(value, "type") {
        Some(name) => text::same(name, "session_metadata"),
        None => false,
    }
}

/// Whether a line is a record of an agent session, well formed or not.
pub open spec fn records_session(line: Seq<char>) -> bool {
    &&& text::contains_text(line, "\"session_metadata\""@)
    &&& json::parsed_json(line) matches Some(value) && is_metadata(value)
}

/// Whether a line is a record of an agent session, well formed or not.
pub fn is_session_metadata_record(line: &str) -> (r: bool)
    ensures
        r == records_session(line@),
{
    if !text::contains(line, "\"session_metadata\"") {
        return false;
    }
    match json::read_json(line) {
        Some(value) => is_metadata_value(&value),
        None => false,
    }
}

/// A value whose type is a legacy one, with the type and the action that stand for
/// it now; any other value as it is.
pub open spec fn renamed(value: JsonView) -> JsonView {
    if value.text_at("type"@) == Some("session_start"@) {
        value.with_text("type"@, "agent_session"@).with_text("action"@, "started"@)
    } else if value.text_at("type"@) == Some("session_end"@) {
        value.with_text("type"@, "agent_session"@).with_text("action"@, "ended"@)
    } else {
        value
    }
}

/// Puts the type and the action that stand for a legacy type now in its place.
pub fn rename_session_type(value: &mut serde_json::Value)
    ensures
        json::content(*final(value)) == renamed(json::content(*old(value))),
{
    let (is_start, is_end) = match json::text_member(value, "type") {
        Some(name) => (text::same(name, "session_start"), text::same(name, "session_end")),
        None => (false, false),
    };
    if is_start {
        json::put_text(value, "type", "agent_session");
        json::put_text(value, "action", "started");
    } else if is_end {
        json::put_text(value, "type", "agent_session");
        json::put_text(value, "action", "ended");
    }
}

/// Whether a line may hold a legacy type.
pub open spec fn may_be_legacy(line: Seq<char>) -> bool {
    text::contains_text(line, "\"session_start\""@) || text::contains_text(
        line,
        "\"session_end\""@,
    )
}

/// A line with legacy types replaced; `None` where it may hold one and is no JSON.
pub open spec fn modern_line(line: Seq<char>) -> Option<Seq<char>> {
    if !may_be_legacy(line) {
        Some(line)
    } else {
        match json::parsed_json(line) {
            Some(value) => Some(json::written_json(renamed(value))),
            None => None,
        }
    }
}

/// Replaces legacy types in a line; `None` where it may hold one and is no JSON.
pub fn rewrite_legacy_session_types(line: &str) -> (r: Option<String>)
    ensures
        text::opt_text(r) == modern_line(line@),
        may_be_legacy(line@) ==> (r matches Some(modern) ==> json::keeps_texts(
            modern@,
            renamed(json::parsed_json(line@)->0),
        )),
{
    if !text::contains(line, "\"session_start\"") && !text::contains(line, "\"session_end\"") {
        return Some(line.to_owned());
    }
    match json::read_json(line) {
        Some(read) => {
            let mut value = read;
            rename_session_type(&mut value);
            json::write_json(&value)
        },
        None => None,
    }
}

/// Says what a line of an import is.
pub fn import_line(line: &str) -> (r: ImportLine)
    ensures
        if text::trimmed(line@).len() == 0 {
            r is Blank
        } else if records_session(line@) {
            r is Metadata
        } else {
            match modern_line(line@) {
                Some(modern) => r matches ImportLine::Event(event) && event@ == modern,
                None => r is Malformed,
            }
        },
        may_be_legacy(line@) ==> (r matches ImportLine::Event(event) ==> json::keeps_texts(
            event@,
            renamed(json::parsed_json(line@)->0),
        )),
{
    if text::is_blank(line) {
        ImportLine::Blank
    } else if is_session_metadata_record(line) {
        ImportLine::Metadata
    } else {
        match rewrite_legacy_session_types(line) {
            Some(event) => ImportLine::Event(event),
            None => ImportLine::Malformed,
        }
    }
}

/// The machine that an event comes from: the one it names, or the one its id starts
/// with.
pub open spec fn machine_of_event(event: StoredEvent) -> Option<Seq<char>> {
    match event.machine_id {
        Some(machine_id) => Some(machine_id@),
        None => ids::machine_of(event.id@),
    }
}

/// Whether `r` is what is stored of an event that was read: without a stream, which
/// this machine may not know, and with its machine.
pub open spec fn is_stored_for(r: StoredEvent, event: StoredEvent) -> bool {
    &&& r == (StoredEvent {
        stream_id: None,
        assignment_source: None,
        machine_id: r.machine_id,
        ..event
    })
    &&& text::opt_text(r.machine_id) == machine_of_event(event)
}

/// Makes an event that was read ready to be stored.
pub fn prepare_event(event: StoredEvent) -> (r: StoredEvent)
    ensures
        is_stored_for(r, event),
{
    let mut event = event;
    event.stream_id = None;
    event.assignment_source = None;
    if event.machine_id.is_none() {
        event.machine_id = ids::extract_machine_id(event.id.as_str());
    }
    event
}

/// The state of an import.
pub struct ImportView {
    pub total_read: int,
    pub inserted: int,
    pub duplicates: int,
    pub malformed: int,
    pub sessions_imported: int,
    pub machine_id: Option<Seq<char>>,
    /// Events that wait to be stored.
    pub batch: Seq<StoredEvent>,
}

impl ImportView {
    /// The state of an import that has read nothing.
    pub open spec fn fresh() -> ImportView {
        ImportView {
            total_read: 0,
            inserted: 0,
            duplicates: 0,
            malformed: 0,
            sessions_imported: 0,
            machine_id: None,
            batch: Seq::empty(),
        }
    }

    /// The machine that is known, or else this one.
    pub open spec fn machine_or(self, other: Option<Seq<char>>) -> Option<Seq<char>> {
        match self.machine_id {
            Some(known) => Some(known),
            None => other,
        }
    }

    /// The state after a session of a machine.
    pub open spec fn with_session(self, machine_id: Option<Seq<char>>) -> ImportView {
        ImportView {
            sessions_imported: self.sessions_imported + 1,
            machine_id: self.machine_or(machine_id),
            ..self
        }
    }

    /// The state after a line that held no event.
    pub open spec fn with_malformed(self) -> ImportView {
        ImportView { malformed: self.malformed + 1, ..self }
    }

    /// The state after an event, given as it is stored.
    pub open spec fn with_event(self, event: StoredEvent) -> ImportView {
        ImportView {
            total_read: self.total_read + 1,
            machine_id: self.machine_or(text::opt_text(event.machine_id)),
            batch: self.batch.push(event),
            ..self
        }
    }

    /// The state after the events that waited, of which so many were new.
    pub open spec fn with_stored(self, inserted: int) -> ImportView {
        ImportView {
            inserted: self.inserted + inserted,
            duplicates: self.duplicates + (self.batch.len() - inserted),
            batch: Seq::empty(),
            ..self
        }
    }
}

impl ImportResult {
    /// The counts, with nothing that waits.
    pub open spec fn counts(self) -> ImportView {
        ImportView {
            total_read: self.total_read as int,
            inserted: self.inserted as int,
            duplicates: self.duplicates as int,
            malformed: self.malformed as int,
            sessions_imported: self.sessions_imported as int,
            machine_id: text::opt_text(self.machine_id),
            batch: Seq::empty(),
        }
    }
}

/// An import under way.
pub struct Import {
    batch: Vec<StoredEvent>,
    result: ImportResult,
}

impl View for Import {
    type V = ImportView;

    closed spec fn view(&self) -> ImportView {
        ImportView { batch: self.batch@, ..self.result.counts() }
    }
}

impl Import {
    #[verifier::type_invariant]
    spec fn inv(self) -> bool {
        &&& self.result.total_read == self.result.inserted + self.result.duplicates
            + self.batch@.len()
        &&& self.batch@.len() <= BATCH_SIZE
    }

    /// An import that has read nothing.
    pub fn new() -> (r: Self)
        ensures
            r@ == ImportView::fresh(),
    {
        let result = ImportResult {
            total_read: 0,
            inserted: 0,
            duplicates: 0,
            malformed: 0,
            sessions_imported: 0,
            machine_id: None,
        };
        let r = Import { batch: Vec::new(), result };
        proof {
            assert(r@.batch =~= Seq::empty());
        }
        r
    }

    /// The events that wait to be stored. Every event that was read is stored, a
    /// duplicate, or among them.
    pub fn batch(&self) -> (r: &Vec<StoredEvent>)
        ensures
            r@ == self@.batch,
            r@.len() <= BATCH_SIZE,
            self@.total_read == self@.inserted + self@.duplicates + r@.len(),
    {
        proof {
            use_type_invariant(self);
        }
        &self.batch
    }

    /// Counts a session that was stored, and notes its machine where none is known.
    pub fn record_session(&mut self, machine_id: Option<String>)
        requires
            old(self)@.sessions_imported < usize::MAX,
        ensures
            final(self)@ == old(self)@.with_session(text::opt_text(machine_id)),
    {
        proof {
            use_type_invariant(&*self);
        }
        self.result.sessions_imported = self.result.sessions_imported + 1;
        if self.result.machine_id.is_none() {
            self.result.machine_id = machine_id;
        }
    }

    /// Counts a line that held no event.
    pub fn record_malformed(&mut self)
        requires
            old(self)@.malformed < usize::MAX,
        ensures
            final(self)@ == old(self)@.with_malformed(),
    {
        proof {
            use_type_invariant(&*self);
        }
        self.result.malformed = self.result.malformed + 1;
    }

    /// Takes in an event that was read; says whether the events that wait are to be
    /// stored now.
    pub fn record_event(&mut self, event: StoredEvent) -> (r: bool)
        requires
            old(self)@.total_read < usize::MAX,
            old(self)@.batch.len() < BATCH_SIZE,
        ensures
            r == (final(self)@.batch.len() >= BATCH_SIZE),
            is_stored_for(final(self)@.batch.last(), event),
            final(self)@ == old(self)@.with_event(final(self)@.batch.last()),
    {
        proof {
            use_type_invariant(&*self);
        }
        let ghost before = self.batch@;
        let event = prepare_event(event);
        let mut taken = Import::new();
        std::mem::swap(self, &mut taken);
        let Import { mut batch, mut result } = taken;
        if result.machine_id.is_none() {
            result.machine_id = event.machine_id.clone();
        }
        result.total_read = result.total_read + 1;
        batch.push(event);
        *self = Import { batch, result };
        proof {
            assert(self.batch@ =~= before.push(self.batch@.last()));
        }
        self.batch.len() >= BATCH_SIZE
    }

    /// Counts the events that waited, of which `inserted` had not been stored before.
    pub fn record_stored(&mut self, inserted: usize)
        requires
            inserted <= old(self)@.batch.len(),
        ensures
            final(self)@ == old(self)@.with_stored(inserted as int),
    {
        proof {
            use_type_invariant(&*self);
        }
        let result = ImportResult {
            total_read: self.result.total_read,
            inserted: self.result.inserted + inserted,
            duplicates: self.result.duplicates + (self.batch.len() - inserted),
            malformed: self.result.malformed,
            sessions_imported: self.result.sessions_imported,
            machine_id: self.result.machine_id.clone(),
        };
        *self = Import { batch: Vec::new(), result };
        proof {
            assert(self@.batch =~= Seq::empty());
        }
    }

    /// What the import did, once nothing waits: every event that was read is stored
    /// or a duplicate.
    pub fn finish(self) -> (r: ImportResult)
        requires
            self@.batch.len() == 0,
        ensures
            r.counts() == self@,
            r.total_read == r.inserted + r.duplicates,
    {
        proof {
            use_type_invariant(&self);
            assert(self@.batch =~= Seq::empty());
        }
        self.result
    }
}

/// The line that tells what an import did.
pub open spec fn told_result(r: ImportResult) -> Seq<char> {
    "Imported "@ + text::decimal(r.total_read as nat) + " events, "@ + text::decimal(
        r.sessions_imported as nat,
    ) + " sessions ("@ + text::decimal(r.inserted as nat) + " new, "@ + text::decimal(
        r.duplicates as nat,
    ) + " duplicates, "@ + text::decimal(r.malformed as nat) + " malformed)"@
}

/// Tells what an import did.
pub fn result_line(result: &ImportResult) -> (r: String)
    ensures
        r@ == told_result(*result),
{
    let mut out = "Imported ".to_owned();
    text::push_decimal(&mut out, result.total_read as u64);
    out.append(" events, ");
    text::push_decimal(&mut out, result.sessions_imported as u64);
    out.append(" sessions (");
    text::push_decimal(&mut out, result.inserted as u64);
    out.append(" new, ");
    text::push_decimal(&mut out, result.duplicates as u64);
    out.append(" duplicates, ");
    text::push_decimal(&mut out, result.malformed as u64);
    out.append(" malformed)");
    out
}

/// A legacy line comes out as an agent session that started or ended, and with every
/// other text that it had.
pub proof fn legacy_lines_become_agent_sessions(
    value: JsonView,
    modern: Seq<char>,
    back: JsonView,
    key: Seq<char>,
)
    requires
        json::keeps_texts(modern, renamed(value)),
        json::parsed_json(modern) == Some(back),
        value.member(json::reserved_key()) is None,
        value.text_at("type"@) == Some("session_start"@) || value.text_at("type"@) == Some(
            "session_end"@,
        ),
    ensures
        back.text_at("type"@) == Some("agent_session"@),
        back.text_at("action"@) == Some(
            if value.text_at("type"@) == Some("session_start"@) {
                "started"@
            } else {
                "ended"@
            },
        ),
        key != "type"@ && key != "action"@ && value.text_at(key) is Some ==> back.text_at(key)
            == value.text_at(key),
{
    reveal_strlit("type");
    reveal_strlit("action");
    reveal_strlit("$serde_json::private::RawValue");
    assert("type"@.len() != "action"@.len());
    assert(renamed(value).member(json::reserved_key()) is None);
    assert(renamed(value).text_at("type"@) is Some);
    assert(renamed(value).text_at("action"@) is Some);
    assert(key != "type"@ && key != "action"@ ==> renamed(value).text_at(key) == value.text_at(
        key,
    ));
}

/// A value whose legacy type was replaced has no legacy type: replacing again changes
/// nothing.
pub proof fn renaming_settles(value: JsonView)
    ensures
        renamed(renamed(value)) == renamed(value),
{
    reveal_strlit("agent_session");
    reveal_strlit("session_start");
    reveal_strlit("session_end");
    reveal_strlit("type");
    reveal_strlit("action");
    assert("agent_session"@.len() != "session_start"@.len() || "agent_session"@[0]
        != "session_start"@[0]);
    assert("agent_session"@.len() != "session_end"@.len());
    assert("type"@.len() != "action"@.len());
}

/// What a line of an import gives.
pub enum Reading {
    /// Nothing: it is blank, or the record of a session that is not valid.
    Nothing,
    /// A session of a machine, which is stored.
    Session(Option<Seq<char>>),
    /// No event.
    Malformed,
    /// An event, as it is stored.
    Event(StoredEvent),
}

/// The ids that a store holds once it was given events. It ignores those that it has.
pub open spec fn held_after(events: Seq<StoredEvent>, held: Set<Seq<char>>) -> Set<Seq<char>>
    decreases events.len(),
{
    if events.len() == 0 {
        held
    } else {
        held_after(events.drop_last(), held).insert(events.last().id@)
    }
}

/// How many of the events are new to a store that holds these ids.
pub open spec fn new_events(events: Seq<StoredEvent>, held: Set<Seq<char>>) -> int
    decreases events.len(),
{
    if events.len() == 0 {
        0
    } else {
        new_events(events.drop_last(), held) + (if held_after(events.drop_last(), held).contains(
            events.last().id@,
        ) {
            0int
        } else {
            1int
        })
    }
}

/// An import and its store once the events that waited have been stored.
pub open spec fn stored(state: (ImportView, Set<Seq<char>>)) -> (ImportView, Set<Seq<char>>) {
    (
        state.0.with_stored(new_events(state.0.batch, state.1)),
        held_after(state.0.batch, state.1),
    )
}

/// An import and its store after one more line: the events that wait are stored when
/// they are as many as are stored at once.
pub open spec fn after_reading(state: (ImportView, Set<Seq<char>>), reading: Reading) -> (
    ImportView,
    Set<Seq<char>>,
) {
    match reading {
        Reading::Nothing => state,
        Reading::Session(machine_id) => (state.0.with_session(machine_id), state.1),
        Reading::Malformed => (state.0.with_malformed(), state.1),
        Reading::Event(event) => {
            let next = (state.0.with_event(event), state.1);
            if next.0.batch.len() >= BATCH_SIZE {
                stored(next)
            } else {
                next
            }
        },
    }
}

/// An import and its store once all lines have been read, and some events may wait.
pub open spec fn all_read(readings: Seq<Reading>, held: Set<Seq<char>>) -> (
    ImportView,
    Set<Seq<char>>,
)
    decreases readings.len(),
{
    if readings.len() == 0 {
        (ImportView::fresh(), held)
    } else {
        after_reading(all_read(readings.drop_last(), held), readings.last())
    }
}

/// What an import of lines into a store comes to, and what the store holds then.
pub open spec fn imported(readings: Seq<Reading>, held: Set<Seq<char>>) -> (
    ImportView,
    Set<Seq<char>>,
) {
    stored(all_read(readings, held))
}

/// Whether a line gives an event that a store does not hold.
spec fn gives_new(reading: Reading, held: Set<Seq<char>>) -> bool {
    reading matches Reading::Event(event) && !held.contains(event.id@)
}

proof fn events_are_held(events: Seq<StoredEvent>, held: Set<Seq<char>>)
    ensures
        held.subset_of(held_after(events, held)),
        forall|i: int|
            0 <= i < events.len() ==> held_after(events, held).contains(
                (#[trigger] events[i]).id@,
            ),
        0 <= new_events(events, held) <= events.len(),
        (forall|i: int| 0 <= i < events.len() ==> held.contains((#[trigger] events[i]).id@)) ==> {
            &&& held_after(events, held) == held
            &&& new_events(events, held) == 0
        },
    decreases events.len(),
{
    if events.len() > 0 {
        let earlier = events.drop_last();
        let before = held_after(earlier, held);
        events_are_held(earlier, held);
        assert forall|i: int| 0 <= i < events.len() implies held_after(events, held).contains(
            (#[trigger] events[i]).id@,
        ) by {
            if i < earlier.len() {
                assert(before.contains(earlier[i].id@));
            }
        }
        if forall|i: int| 0 <= i < events.len() ==> held.contains((#[trigger] events[i]).id@) {
            assert forall|i: int| 0 <= i < earlier.len() implies held.contains(
                (#[trigger] earlier[i]).id@,
            ) by {
                assert(held.contains(events[i].id@));
            }
            assert(held.contains(events[events.len() - 1].id@));
            assert(held_after(events, held) =~= held);
        }
    }
}

proof fn reading_keeps_count(readings: Seq<Reading>, held: Set<Seq<char>>, other: Set<Seq<char>>)
    ensures
        ({
            let (a, b) = (all_read(readings, held).0, all_read(readings, other).0);
            &&& a.total_read == a.inserted + a.duplicates + a.batch.len()
            &&& a.batch.len() < BATCH_SIZE
            &&& a.batch == b.batch
            &&& a.total_read == b.total_read
            &&& a.malformed == b.malformed
            &&& a.sessions_imported == b.sessions_imported
            &&& a.machine_id == b.machine_id
        }),
    decreases readings.len(),
{
    if readings.len() > 0 {
        reading_keeps_count(readings.drop_last(), held, other);
    }
}

proof fn readings_are_held(readings: Seq<Reading>, held: Set<Seq<char>>)
    ensures
        held.subset_of(imported(readings, held).1),
        forall|i: int|
            0 <= i < readings.len() ==> !gives_new(
                #[trigger] readings[i],
                imported(readings, held).1,
            ),
    decreases readings.len(),
{
    let (view, store) = all_read(readings, held);
    events_are_held(view.batch, store);
    if readings.len() > 0 {
        let earlier = readings.drop_last();
        let (v, k) = all_read(earlier, held);
        readings_are_held(earlier, held);
        events_are_held(v.batch, k);
        let after = imported(readings, held).1;
        assert(held_after(v.batch, k).subset_of(after)) by {
            if let Reading::Event(event) = readings.last() {
                let batch = v.batch.push(event);
                assert(batch.drop_last() =~= v.batch);
                assert(held_after(batch, k) == held_after(v.batch, k).insert(event.id@));
            }
        }
        assert forall|i: int| 0 <= i < readings.len() implies !gives_new(
            #[trigger] readings[i],
            after,
        ) by {
            if i < earlier.len() {
                assert(!gives_new(earlier[i], imported(earlier, held).1));
            } else if let Reading::Event(event) = readings[i] {
                let batch = v.batch.push(event);
                assert(batch.drop_last() =~= v.batch);
                assert(held_after(batch, k).contains(event.id@));
            }
        }
    }
}

proof fn nothing_new_is_read(readings: Seq<Reading>, held: Set<Seq<char>>)
    requires
        forall|i: int| 0 <= i < readings.len() ==> !gives_new(#[trigger] readings[i], held),
    ensures
        all_read(readings, held).0.inserted == 0,
        all_read(readings, held).1 == held,
        forall|i: int|
            0 <= i < all_read(readings, held).0.batch.len() ==> held.contains(
                (#[trigger] all_read(readings, held).0.batch[i]).id@,
            ),
    decreases readings.len(),
{
    if readings.len() > 0 {
        let earlier = readings.drop_last();
        assert forall|i: int| 0 <= i < earlier.len() implies !gives_new(
            #[trigger] earlier[i],
            held,
        ) by {
            assert(!gives_new(readings[i], held));
        }
        nothing_new_is_read(earlier, held);
        let (v, k) = all_read(earlier, held);
        if let Reading::Event(event) = readings.last() {
            let batch = v.batch.push(event);
            assert(!gives_new(readings[readings.len() - 1], held));
            assert forall|i: int| 0 <= i < batch.len() implies held.contains(
                (#[trigger] batch[i]).id@,
            ) by {
                if i < v.batch.len() {
                    assert(held.contains(v.batch[i].id@));
                }
            }
            events_are_held(batch, held);
        }
    }
}

/// Every event that an import reads is new to the store or a duplicate. Importing the
/// same lines again reads and counts the same, finds every event a duplicate, and
/// leaves the store as it is.
pub proof fn a_second_import_adds_nothing(readings: Seq<Reading>, held: Set<Seq<char>>)
    ensures
        ({
            let (first, store) = imported(readings, held);
            let (second, after) = imported(readings, store);
            &&& first.total_read == first.inserted + first.duplicates
            &&& second.inserted == 0
            &&& second.duplicates == second.total_read
            &&& second.total_read == first.total_read
            &&& second.malformed == first.malformed
            &&& second.sessions_imported == first.sessions_imported
            &&& second.machine_id == first.machine_id
            &&& after == store
        }),
{
    let store = imported(readings, held).1;
    reading_keeps_count(readings, held, store);
    reading_keeps_count(readings, store, held);
    readings_are_held(readings, held);
    nothing_new_is_read(readings, store);
    events_are_held(all_read(readings, store).0.batch, store);
}

/// What is stored of an event that was read is all that it told, but for its stream and
/// how it came there, which are left out. Its machine is the one that it names, and where
/// it names none the one that its id starts with.
pub proof fn stored_events_keep_what_they_tell(r: StoredEvent, event: StoredEvent)
    requires
        is_stored_for(r, event),
    ensures
        r.id@ == event.id@,
        r.timestamp@ == event.timestamp@,
        r.event_type == event.event_type,
        r.source@ == event.source@,
        r.schema_version == event.schema_version,
        text::opt_text(r.pane_id) == text::opt_text(event.pane_id),
        text::opt_text(r.tmux_session) == text::opt_text(event.tmux_session),
        r.window_index == event.window_index,
        text::opt_text(r.git_project) == text::opt_text(event.git_project),
        text::opt_text(r.git_workspace) == text::opt_text(event.git_workspace),
        text::opt_text(r.status) == text::opt_text(event.status),
        r.idle_duration_ms == event.idle_duration_ms,
        text::opt_text(r.window_app_id) == text::opt_text(event.window_app_id),
        text::opt_text(r.window_title) == text::opt_text(event.window_title),
        text::opt_text(r.action) == text::opt_text(event.action),
        text::opt_text(r.cwd) == text::opt_text(event.cwd),
        text::opt_text(r.session_id) == text::opt_text(event.session_id),
        r.data@ == event.data@,
        r.stream_id is None,
        r.assignment_source is None,
        event.machine_id matches Some(named) ==> text::opt_text(r.machine_id) == Some(named@),
        event.machine_id is None ==> {
            &&& r.machine_id is Some <==> event.id@.len() > 36 && event.id@[36] == ':'
                && ids::reads_as_id(event.id@.take(36))
            &&& r.machine_id matches Some(told) ==> told@ == event.id@.take(36)
        },
{
    ids::ids_tell_a_machine_before_a_colon(event.id@);
}

/// How many of the lines are of a kind.
pub open spec fn lines_of_kind(readings: Seq<Reading>, kind: spec_fn(Reading) -> bool) -> int
    decreases readings.len(),
{
    if readings.len() == 0 {
        0
    } else {
        lines_of_kind(readings.drop_last(), kind) + (if kind(readings.last()) {
            1int
        } else {
            0
        })
    }
}

/// The machine that a line names.
pub open spec fn names_machine(reading: Reading) -> Option<Seq<char>> {
    match reading {
        Reading::Session(machine_id) => machine_id,
        Reading::Event(event) => text::opt_text(event.machine_id),
        _ => None,
    }
}

proof fn reading_counts(readings: Seq<Reading>, held: Set<Seq<char>>)
    ensures
        ({
            let view = all_read(readings, held).0;
            &&& view.total_read == lines_of_kind(readings, |r: Reading| r is Event)
            &&& view.sessions_imported == lines_of_kind(readings, |r: Reading| r is Session)
            &&& view.malformed == lines_of_kind(readings, |r: Reading| r is Malformed)
        }),
    decreases readings.len(),
{
    if readings.len() > 0 {
        reading_counts(readings.drop_last(), held);
    }
}

proof fn storing_counts(events: Seq<StoredEvent>, held: Set<Seq<char>>)
    requires
        held.finite(),
    ensures
        held_after(events, held).finite(),
        held_after(events, held).len() == held.len() + new_events(events, held),
        forall|id: Seq<char>|
            #[trigger] held_after(events, held).contains(id) <==> held.contains(id) || (exists|
                i: int,
            |
                0 <= i < events.len() && (#[trigger] events[i]).id@ == id),
    decreases events.len(),
{
    if events.len() > 0 {
        let earlier = events.drop_last();
        storing_counts(earlier, held);
        let before = held_after(earlier, held);
        assert(held_after(events, held) == before.insert(events.last().id@));
        assert forall|id: Seq<char>| #[trigger] held_after(events, held).contains(id) implies (
        held.contains(id) || (exists|i: int|
            0 <= i < events.len() && (#[trigger] events[i]).id@ == id)) by {
            if events.last().id@ == id {
                assert(events[events.len() - 1].id@ == id);
            } else if !held.contains(id) {
                assert(before.contains(id));
                let i = choose|i: int| 0 <= i < earlier.len() && (#[trigger] earlier[i]).id@ == id;
                assert(events[i].id@ == id);
            }
        }
        assert forall|id: Seq<char>|
            held.contains(id) || (exists|i: int|
                0 <= i < events.len() && (#[trigger] events[i]).id@
                    == id) implies #[trigger] held_after(events, held).contains(id) by {
            if !held.contains(id) {
                let i = choose|i: int| 0 <= i < events.len() && (#[trigger] events[i]).id@ == id;
                if i < earlier.len() {
                    assert(earlier[i].id@ == id);
                }
            }
            assert(before.contains(id) || events.last().id@ == id);
        }
    }
}

proof fn reading_stores(readings: Seq<Reading>, held: Set<Seq<char>>)
    requires
        held.finite(),
    ensures
        all_read(readings, held).1.finite(),
        all_read(readings, held).1.len() == held.len() + all_read(readings, held).0.inserted,
    decreases readings.len(),
{
    if readings.len() > 0 {
        let earlier = readings.drop_last();
        reading_stores(earlier, held);
        let (view, store) = all_read(earlier, held);
        if let Reading::Event(event) = readings.last() {
            storing_counts(view.batch.push(event), store);
        }
    }
}

/// An import counts every event, every session and every line that held neither, each
/// under what it is and once. What it counts as new is what the store has more of then,
/// and every other event is a duplicate.
pub proof fn imports_count_what_they_read(readings: Seq<Reading>, held: Set<Seq<char>>)
    requires
        held.finite(),
    ensures
        ({
            let (view, store) = imported(readings, held);
            &&& view.total_read == lines_of_kind(readings, |r: Reading| r is Event)
            &&& view.sessions_imported == lines_of_kind(readings, |r: Reading| r is Session)
            &&& view.malformed == lines_of_kind(readings, |r: Reading| r is Malformed)
            &&& view.inserted == store.len() - held.len()
            &&& view.duplicates == view.total_read - view.inserted
            &&& view.batch.len() == 0
        }),
{
    reading_counts(readings, held);
    reading_stores(readings, held);
    reading_keeps_count(readings, held, held);
    let (view, store) = all_read(readings, held);
    storing_counts(view.batch, store);
}

/// The machine of an import is the first that a session or an event named, and there is
/// none where none did. `k` is the line that named it.
pub proof fn the_first_machine_is_told(readings: Seq<Reading>, held: Set<Seq<char>>) -> (k: int)
    ensures
        imported(readings, held).0.machine_id == all_read(readings, held).0.machine_id,
        imported(readings, held).0.machine_id is None <==> (forall|i: int|
            0 <= i < readings.len() ==> names_machine(#[trigger] readings[i]) is None),
        imported(readings, held).0.machine_id is Some ==> 0 <= k < readings.len() && names_machine(
            readings[k],
        ) == imported(readings, held).0.machine_id && (forall|i: int|
            0 <= i < k ==> names_machine(#[trigger] readings[i]) is None),
    decreases readings.len(),
{
    if readings.len() == 0 {
        0
    } else {
        let earlier = readings.drop_last();
        let last = readings.len() - 1;
        let k = the_first_machine_is_told(earlier, held);
        assert forall|i: int| 0 <= i < last implies earlier[i] == #[trigger] readings[i] by {}
        if all_read(earlier, held).0.machine_id is Some {
            assert(names_machine(readings[k]) is Some);
            k
        } else {
            assert forall|i: int| 0 <= i < last implies names_machine(#[trigger] readings[i])
                is None by {
                assert(names_machine(earlier[i]) is None);
            }
            assert(names_machine(readings[last]) == imported(readings, held).0.machine_id);
            last
        }
    }
}

/// What an import did is told as it was counted, each count under its own name.
pub proof fn counts_are_told_as_counted(r: ImportResult)
    ensures
        r.counts().total_read == r.total_read,
        r.counts().inserted == r.inserted,
        r.counts().duplicates == r.duplicates,
        r.counts().malformed == r.malformed,
        r.counts().sessions_imported == r.sessions_imported,
        r.counts().machine_id == text::opt_text(r.machine_id),
{
}

/// A line that speaks of no legacy type comes through as it is, and so does the value of
/// one that only mentions it. A record of a session says so as its type.
pub proof fn modern_lines_stay(line: Seq<char>, value: JsonView)
    ensures
        !text::contains_text(line, "\"session_start\""@) && !text::contains_text(
            line,
            "\"session_end\""@,
        ) ==> modern_line(line) == Some(line),
        value.text_at("type"@) != Some("session_start"@) && value.text_at("type"@) != Some(
            "session_end"@,
        ) ==> renamed(value) == value,
        records_session(line) ==> (json::parsed_json(line) matches Some(read) && read.text_at(
            "type"@,
        ) == Some("session_metadata"@)),
        json::parsed_json(line) == Some(value) && value.text_at("type"@) == Some(
            "session_metadata"@,
        ) && text::contains_text(line, "\"session_metadata\""@) ==> records_session(line),
{
}

/// What an import did is told with each number before what it counts.
pub proof fn results_are_told_with_their_numbers(r: ImportResult)
    ensures
        text::stands_in(
            "Imported "@ + text::decimal(r.total_read as nat) + " events, "@,
            told_result(r),
        ),
        text::stands_in(
            " events, "@ + text::decimal(r.sessions_imported as nat) + " sessions ("@,
            told_result(r),
        ),
        text::stands_in(
            " sessions ("@ + text::decimal(r.inserted as nat) + " new, "@,
            told_result(r),
        ),
        text::stands_in(
            " new, "@ + text::decimal(r.duplicates as nat) + " duplicates, "@,
            told_result(r),
        ),
        text::stands_in(
            " duplicates, "@ + text::decimal(r.malformed as nat) + " malformed)"@,
            told_result(r),
        ),
{
    let whole = told_result(r);
    let n = (
        text::decimal(r.total_read as nat),
        text::decimal(r.sessions_imported as nat),
        text::decimal(r.inserted as nat),
        text::decimal(r.duplicates as nat),
        text::decimal(r.malformed as nat),
    );
    let none = Seq::<char>::empty();
    let a = "Imported "@ + n.0;
    let e = n.4 + " malformed)"@;
    let d = n.3 + " duplicates, "@ + e;
    let c = n.2 + " new, "@ + d;
    let b = n.1 + " sessions ("@ + c;
    assert(whole =~= none + (a + " events, "@) + b);
    assert(whole =~= a + (" events, "@ + n.1 + " sessions ("@) + c);
    assert(whole =~= (a + " events, "@ + n.1) + (" sessions ("@ + n.2 + " new, "@) + d);
    assert(whole =~= (a + " events, "@ + n.1 + " sessions ("@ + n.2) + (" new, "@ + n.3
        + " duplicates, "@) + e);
    assert(whole =~= (a + " events, "@ + n.1 + " sessions ("@ + n.2 + " new, "@ + n.3) + (
    " duplicates, "@ + n.4 + " malformed)"@) + none);
}

} // verus!
