//! Applying stream assignments: which streams they name, what is to be done in
//! which order, and what came of it.
use vstd::hash_map::StringHashMap;
use vstd::prelude::*;
use vstd::string::*;

use crate::ids;
use crate::model::Stream;
use crate::text;
use crate::time;
use crate::time::{Instant, Timestamp};
use crate::util;

verus! {

/// Assignments to apply.
#[derive(Debug)]
pub struct ClassifyApplyInput {
    pub streams: Vec<StreamDef>,
    pub assign_by_session: Vec<SessionAssignment>,
    pub assign_by_pattern: Vec<PatternAssignment>,
    pub assign_by_event_ids: Vec<EventIdsAssignment>,
    pub assign_by_time: Vec<TimeAssignment>,
}

/// A stream that the assignments define.
#[derive(Debug)]
pub struct StreamDef {
    pub name: String,
    pub slug: String,
    pub tags: Vec<String>,
}

/// Assigns the events of a session.
#[derive(Debug)]
pub struct SessionAssignment {
    pub session_id: String,
    pub stream: String,
}

/// Assigns the events whose directory matches a pattern.
#[derive(Debug)]
pub struct PatternAssignment {
    pub cwd_like: String,
    pub start: Option<String>,
    pub end: Option<String>,
    pub stream: String,
}

/// Assigns listed events.
#[derive(Debug)]
pub struct EventIdsAssignment {
    pub event_ids: Vec<String>,
    pub stream: String,
}

/// Assigns the unassigned events of a period.
#[derive(Debug)]
pub struct TimeAssignment {
    pub start: String,
    pub end: String,
    pub stream: String,
}

/// What the assignments came to.
pub struct ApplyOutcome {
    /// The slug of the stream that each assigned session went to.
    pub session_stream_slugs: StringHashMap<String>,
}

/// The texts of a map's values.
pub open spec fn text_map(m: Map<Seq<char>, String>) -> Map<Seq<char>, Seq<char>> {
    m.map_values(|s: String| s@)
}

/// The streams that can be referred to.
#[verifier::ext_equal]
pub struct Refs {
    /// The id of the stream that each slug or name stands for.
    pub ids: Map<Seq<char>, Seq<char>>,
    /// The slug of the stream with each id.
    pub slugs: Map<Seq<char>, Seq<char>>,
}

impl Refs {
    /// No streams.
    pub open spec fn empty() -> Refs {
        Refs { ids: Map::empty(), slugs: Map::empty() }
    }

    /// These streams and one more, by its name: a name never takes over from what
    /// it stands for already.
    pub open spec fn named(self, name: Seq<char>, id: Seq<char>) -> Refs {
        Refs {
            ids: if self.ids.contains_key(name) {
                self.ids
            } else {
                self.ids.insert(name, id)
            },
            ..self
        }
    }

    /// These streams and one more, by its slug.
    pub open spec fn slugged(self, slug: Seq<char>, id: Seq<char>) -> Refs {
        Refs { ids: self.ids.insert(slug, id), slugs: self.slugs.insert(id, slug) }
    }

    /// These streams and an existing one.
    pub open spec fn and(self, s: Stream) -> Refs {
        let with_slug = match s.slug {
            Some(slug) => self.slugged(slug@, s.id@),
            None => self,
        };
        match s.name {
            Some(name) => with_slug.named(name@, s.id@),
            None => with_slug,
        }
    }

    /// The existing streams.
    pub open spec fn of(streams: Seq<Stream>) -> Refs
        decreases streams.len(),
    {
        if streams.len() == 0 {
            Refs::empty()
        } else {
            Refs::of(streams.drop_last()).and(streams.last())
        }
    }

    /// These streams and a defined one, whose id is settled.
    pub open spec fn defined(self, def: StreamDef, id: Seq<char>) -> Refs {
        let with_slug = Refs { ids: self.ids.insert(def.slug@, id), ..self };
        let with_name = with_slug.named(def.name@, id);
        Refs { slugs: with_name.slugs.insert(id, def.slug@), ..with_name }
    }
}

/// The streams that can be referred to, by slug and by name.
pub struct StreamRefs {
    ids: StringHashMap<String>,
    slugs: StringHashMap<String>,
}

impl View for StreamRefs {
    type V = Refs;

    closed spec fn view(&self) -> Refs {
        Refs { ids: text_map(self.ids@), slugs: text_map(self.slugs@) }
    }
}

/// The message for a reference to no stream.
pub open spec fn unknown_stream(stream_ref: Seq<char>) -> Seq<char> {
    "unknown stream: '"@ + stream_ref
        + "' — define it in \"streams\" or use an existing slug"@
}

fn put(map: &mut StringHashMap<String>, key: &str, value: &str)
    ensures
        text_map(final(map)@) == text_map(old(map)@).insert(key@, value@),
{
    let ghost before = map@;
    map.insert(key.to_owned(), value.to_owned());
    proof {
        assert(text_map(map@) =~= text_map(before).insert(key@, value@));
    }
}

fn put_new(map: &mut StringHashMap<String>, key: &str, value: &str)
    ensures
        text_map(final(map)@) == if text_map(old(map)@).contains_key(key@) {
            text_map(old(map)@)
        } else {
            text_map(old(map)@).insert(key@, value@)
        },
{
    if !map.contains_key(key) {
        put(map, key, value);
    }
}

impl StreamRefs {
    /// The existing streams.
    pub fn of(streams: &Vec<Stream>) -> (r: StreamRefs)
        ensures
            r@ == Refs::of(streams@),
    {
        let mut refs = StreamRefs { ids: StringHashMap::new(), slugs: StringHashMap::new() };
        let mut i: usize = 0;
        proof {
            assert(refs@ =~= Refs::empty());
        }
        while i < streams.len()
            invariant
                i <= streams@.len(),
                refs@ == Refs::of(streams@.take(i as int)),
            decreases streams@.len() - i,
        {
            let s = &streams[i];
            let ghost before = refs@;
            proof {
                assert(streams@.take(i + 1).drop_last() =~= streams@.take(i as int));
                assert(streams@.take(i + 1).last() == *s);
            }
            if let Some(slug) = &s.slug {
                put(&mut refs.ids, slug.as_str(), s.id.as_str());
                put(&mut refs.slugs, s.id.as_str(), slug.as_str());
            }
            if let Some(name) = &s.name {
                put_new(&mut refs.ids, name.as_str(), s.id.as_str());
            }
            proof {
                assert(refs@ =~= before.and(*s));
            }
            i += 1;
        }
        proof {
            assert(streams@.take(i as int) =~= streams@);
        }
        refs
    }

    /// Takes in a defined stream, whose id is settled.
    pub fn define(&mut self, def: &StreamDef, stream_id: &str)
        ensures
            final(self)@ == old(self)@.defined(*def, stream_id@),
    {
        let ghost before = self@;
        put(&mut self.ids, def.slug.as_str(), stream_id);
        put_new(&mut self.ids, def.name.as_str(), stream_id);
        put(&mut self.slugs, stream_id, def.slug.as_str());
        proof {
            assert(self@ =~= before.defined(*def, stream_id@));
        }
    }

    /// The slug of the stream with an id, where it has one.
    pub fn slug_of(&self, stream_id: &str) -> (r: Option<&String>)
        ensures
            match r {
                Some(slug) => self@.slugs.contains_key(stream_id@) && slug@
                    == self@.slugs[stream_id@],
                None => !self@.slugs.contains_key(stream_id@),
            },
    {
        self.slugs.get(stream_id)
    }
}

/// The id of the stream that a reference stands for, and otherwise the message that
/// there is none.
pub fn resolve_stream_id<'a>(refs: &'a StreamRefs, stream_ref: &str) -> (r: Result<
    &'a String,
    String,
>)
    ensures
        match r {
            Ok(id) => refs@.ids.contains_key(stream_ref@) && id@ == refs@.ids[stream_ref@],
            Err(message) => !refs@.ids.contains_key(stream_ref@) && message@ == unknown_stream(
                stream_ref@,
            ),
        },
{
    match refs.ids.get(stream_ref) {
        Some(id) => Ok(id),
        None => {
            let mut message = "unknown stream: '".to_owned();
            message.append(stream_ref);
            message.append("' — define it in \"streams\" or use an existing slug");
            Err(message)
        },
    }
}

/// How the id of a defined stream is settled.
#[derive(Debug)]
pub enum Definition {
    /// The stream exists under this id.
    Reuse(String),
    /// The stream is created under a fresh id; the line tells of it.
    Create { id: String, line: String },
    /// The definition is refused; the message says why.
    Refuse(String),
}

/// The message for a slug that belongs to a stream of another name.
pub open spec fn slug_taken(slug: Seq<char>, owner: Option<Seq<char>>, name: Seq<char>) -> Seq<
    char,
> {
    "slug '"@ + slug + "' already belongs to stream '"@ + (match owner {
        Some(owner) => owner,
        None => "(unnamed)"@,
    }) + "'; refusing to reuse it for '"@ + name + "'"@
}

/// The line that tells of a created stream.
pub open spec fn created_line(def: StreamDef, id: Seq<char>) -> Seq<char> {
    "Created stream: "@ + def.name@ + " ["@ + def.slug@ + "] ("@ + id.take(8) + ")"@
}

/// A stream that holds a slug.
pub struct Held {
    pub id: Seq<char>,
    pub name: Option<Seq<char>>,
}

/// The stream that was found to hold a slug.
pub open spec fn held_by(found: Option<&Stream>) -> Option<Held> {
    match found {
        Some(s) => Some(Held { id: s.id@, name: text::opt_text(s.name) }),
        None => None,
    }
}

/// How the id of a defined stream is settled.
pub enum Settlement {
    /// The definition is refused, for this reason.
    Refused(Seq<char>),
    /// The stream exists under this id.
    Reused(Seq<char>),
    /// The stream is created.
    Created,
}

/// How the id of a defined stream is settled, by what is wrong with its slug and by the
/// stream that holds the slug: that is reused, and only under its own name.
pub open spec fn settlement(
    def: StreamDef,
    slug_error: Option<Seq<char>>,
    found: Option<Held>,
) -> Settlement {
    match (slug_error, found) {
        (Some(error), _) => Settlement::Refused(error),
        (None, Some(held)) => if held.name == Some(def.name@) {
            Settlement::Reused(held.id)
        } else {
            Settlement::Refused(slug_taken(def.slug@, held.name, def.name@))
        },
        (None, None) => Settlement::Created,
    }
}

/// Settles the id of a defined stream. `slug_error` is what is wrong with the
/// slug, `found` the stream that has it. The stream is reused only under its own
/// name.
pub fn settle_definition(def: &StreamDef, slug_error: Option<&str>, found: Option<&Stream>) -> (r:
    Definition)
    ensures
        match settlement(*def, text::opt_str(slug_error), held_by(found)) {
            Settlement::Refused(reason) => r matches Definition::Refuse(message) && message@
                == reason,
            Settlement::Reused(held) => r matches Definition::Reuse(id) && id@ == held,
            Settlement::Created => r matches Definition::Create { id, line }
                && ids::is_hyphenated_id(id@) && line@ == created_line(*def, id@),
        },
{
    if let Some(error) = slug_error {
        return Definition::Refuse(error.to_owned());
    }
    match found {
        Some(s) => {
            let same_name: bool = match &s.name {
                Some(name) => text::same(name.as_str(), def.name.as_str()),
                None => false,
            };
            if same_name {
                return Definition::Reuse(s.id.clone());
            }
            let mut message = "slug '".to_owned();
            message.append(def.slug.as_str());
            message.append("' already belongs to stream '");
            match &s.name {
                Some(name) => {
                    message.append(name.as_str());
                },
                None => {
                    message.append("(unnamed)");
                },
            }
            message.append("'; refusing to reuse it for '");
            message.append(def.name.as_str());
            message.append("'");
            Definition::Refuse(message)
        },
        None => {
            let id = ids::fresh_id();
            let mut line = "Created stream: ".to_owned();
            line.append(def.name.as_str());
            line.append(" [");
            line.append(def.slug.as_str());
            line.append("] (");
            let chars = text::chars_of(id.as_str());
            let short = text::string_from(&chars, 0, 8);
            proof {
                assert(short@ =~= id@.take(8));
            }
            line.append(short.as_str());
            line.append(")");
            Definition::Create { id, line }
        },
    }
}

/// A stream that is to be created, and the line that tells of it.
#[derive(Debug)]
pub struct NewStream {
    pub id: String,
    pub name: String,
    pub slug: String,
    pub line: String,
}

impl StreamRefs {
    /// Settles a defined stream and takes it in. What comes back is the stream to
    /// create, where it is not there yet, or why the definition is refused; a
    /// refused definition leaves the references as they were.
    pub fn settle(
        &mut self,
        def: &StreamDef,
        slug_error: Option<&str>,
        found: Option<&Stream>,
    ) -> (r: Result<Option<NewStream>, String>)
        ensures
            match settlement(*def, text::opt_str(slug_error), held_by(found)) {
                Settlement::Refused(reason) => r matches Err(message) && message@ == reason
                    && final(self)@ == old(self)@,
                Settlement::Reused(id) => r == Ok::<Option<NewStream>, String>(None)
                    && final(self)@ == old(self)@.defined(*def, id),
                Settlement::Created => r matches Ok(Some(new)) && ids::is_hyphenated_id(new.id@)
                    && new.name@ == def.name@ && new.slug@ == def.slug@ && new.line@
                    == created_line(*def, new.id@) && final(self)@ == old(self)@.defined(
                    *def,
                    new.id@,
                ),
            },
    {
        match settle_definition(def, slug_error, found) {
            Definition::Refuse(message) => Err(message),
            Definition::Reuse(id) => {
                self.define(def, id.as_str());
                Ok(None)
            },
            Definition::Create { id, line } => {
                self.define(def, id.as_str());
                Ok(
                    Some(
                        NewStream { id, name: def.name.clone(), slug: def.slug.clone(), line },
                    ),
                )
            },
        }
    }
}

/// One thing to do. `named` is the stream's name as the assignment gives it, which is
/// what a failure is told with.
pub enum Step {
    /// A stream gets a tag.
    Tag { stream: Seq<char>, tag: Seq<char>, named: Seq<char> },
    /// The events of a session go to a stream.
    Session { session: Seq<char>, stream: Seq<char>, named: Seq<char> },
    /// The events whose directory matches go to a stream.
    Pattern {
        cwd_like: Seq<char>,
        from: Option<Instant>,
        until: Option<Instant>,
        stream: Seq<char>,
        named: Seq<char>,
    },
    /// Listed events go to a stream.
    Events { ids: Seq<Seq<char>>, stream: Seq<char>, named: Seq<char> },
    /// The unassigned events of a period go to a stream.
    Period { start: Instant, end: Instant, stream: Seq<char>, named: Seq<char> },
}

/// What is to be done in order, up to the error that ends it.
#[verifier::ext_equal]
pub struct Plan {
    pub steps: Seq<Step>,
    pub error: Option<Seq<char>>,
}

impl Refs {
    /// The id of the stream that a reference stands for.
    pub open spec fn find(self, stream_ref: Seq<char>) -> Option<Seq<char>> {
        if self.ids.contains_key(stream_ref) {
            Some(self.ids[stream_ref])
        } else {
            None
        }
    }
}

impl Plan {
    /// Nothing to do.
    pub open spec fn empty() -> Plan {
        Plan { steps: Seq::empty(), error: None }
    }

    /// This plan and then `step`.
    pub open spec fn and(self, step: Step) -> Plan {
        Plan { steps: self.steps.push(step), ..self }
    }

    /// This plan, ended by an error.
    pub open spec fn ended(self, error: Seq<char>) -> Plan {
        Plan { error: Some(error), ..self }
    }

    /// This plan and then the tags of a defined stream.
    pub open spec fn and_tags(self, def: StreamDef, refs: Refs) -> Plan {
        if self.error is Some {
            self
        } else {
            match refs.find(def.slug@) {
                Some(stream) => Plan {
                    steps: self.steps + text::texts(def.tags@).map_values(
                        |tag: Seq<char>| Step::Tag { stream, tag, named: def.name@ },
                    ),
                    ..self
                },
                None => self.ended(unknown_stream(def.slug@)),
            }
        }
    }

    /// This plan and then the assignment of a session.
    pub open spec fn and_session(self, a: SessionAssignment, refs: Refs) -> Plan {
        if self.error is Some {
            self
        } else {
            match refs.find(a.stream@) {
                Some(stream) => self.and(
                    Step::Session { session: a.session_id@, stream, named: a.stream@ },
                ),
                None => self.ended(unknown_stream(a.stream@)),
            }
        }
    }

    /// This plan and then the assignment by a pattern.
    pub open spec fn and_pattern(self, a: PatternAssignment, refs: Refs, now: Instant) -> Plan {
        if self.error is Some {
            self
        } else {
            match refs.find(a.stream@) {
                Some(stream) => match (bound_at(a.start, now), bound_at(a.end, now)) {
                    (None, _) => self.ended("invalid start time in pattern assignment"@),
                    (_, None) => self.ended("invalid end time in pattern assignment"@),
                    (Some(start), Some(end)) => self.and(
                        Step::Pattern {
                            cwd_like: a.cwd_like@,
                            from: start,
                            until: end,
                            stream,
                            named: a.stream@,
                        },
                    ),
                },
                None => self.ended(unknown_stream(a.stream@)),
            }
        }
    }

    /// This plan and then the assignment of listed events.
    pub open spec fn and_events(self, a: EventIdsAssignment, refs: Refs) -> Plan {
        if self.error is Some {
            self
        } else {
            match refs.find(a.stream@) {
                Some(stream) => self.and(
                    Step::Events { ids: text::texts(a.event_ids@), stream, named: a.stream@ },
                ),
                None => self.ended(unknown_stream(a.stream@)),
            }
        }
    }

    /// This plan and then the assignment of a period.
    pub open spec fn and_period(self, a: TimeAssignment, refs: Refs, now: Instant) -> Plan {
        if self.error is Some {
            self
        } else {
            match refs.find(a.stream@) {
                Some(stream) => match (
                    util::datetime_at(a.start@, now),
                    util::datetime_at(a.end@, now),
                ) {
                    (None, _) => self.ended("invalid start time in time-range assignment"@),
                    (_, None) => self.ended("invalid end time in time-range assignment"@),
                    (Some(start), Some(end)) => self.and(
                        Step::Period { start, end, stream, named: a.stream@ },
                    ),
                },
                None => self.ended(unknown_stream(a.stream@)),
            }
        }
    }
}

/// An optional bound at the time `now`; `None` where it is no point in time.
pub open spec fn bound_at(s: Option<String>, now: Instant) -> Option<Option<Instant>> {
    match s {
        Some(s) => match util::datetime_at(s@, now) {
            Some(at) => Some(Some(at)),
            None => None,
        },
        None => Some(None),
    }
}

/// What is to be done: first the tags of the defined streams, then the assignments
/// by session, by pattern, by event and by period, up to the first error.
pub open spec fn plan_at(input: ClassifyApplyInput, refs: Refs, now: Instant) -> Plan {
    let tagged = input.streams@.fold_left(
        Plan::empty(),
        |p: Plan, d: StreamDef| p.and_tags(d, refs),
    );
    let by_session = input.assign_by_session@.fold_left(
        tagged,
        |p: Plan, a: SessionAssignment| p.and_session(a, refs),
    );
    let by_pattern = input.assign_by_pattern@.fold_left(
        by_session,
        |p: Plan, a: PatternAssignment| p.and_pattern(a, refs, now),
    );
    let by_event = input.assign_by_event_ids@.fold_left(
        by_pattern,
        |p: Plan, a: EventIdsAssignment| p.and_events(a, refs),
    );
    input.assign_by_time@.fold_left(
        by_event,
        |p: Plan, a: TimeAssignment| p.and_period(a, refs, now),
    )
}

/// One thing to do. `stream` names the stream as the assignment does.
#[derive(Debug)]
pub enum ApplyStep {
    AddTag { stream_id: String, tag: String, stream: String },
    AssignSession { session_id: String, stream_id: String, stream: String },
    AssignPattern {
        cwd_like: String,
        from: Option<Timestamp>,
        until: Option<Timestamp>,
        stream_id: String,
        stream: String,
    },
    AssignEventIds { event_ids: Vec<String>, stream_id: String, stream: String },
    AssignTime { start: Timestamp, end: Timestamp, stream_id: String, stream: String },
}

impl View for ApplyStep {
    type V = Step;

    open spec fn view(&self) -> Step {
        match *self {
            ApplyStep::AddTag { stream_id, tag, stream } => Step::Tag {
                stream: stream_id@,
                named: stream@,
                tag: tag@,
            },
            ApplyStep::AssignSession { session_id, stream_id, stream } => Step::Session {
                session: session_id@,
                stream: stream_id@,
                named: stream@,
            },
            ApplyStep::AssignPattern {
                cwd_like,
                from,
                until,
                stream_id,
                stream,
            } => Step::Pattern {
                cwd_like: cwd_like@,
                from: time::opt_instant(from),
                until: time::opt_instant(until),
                stream: stream_id@,
                named: stream@,
            },
            ApplyStep::AssignEventIds { event_ids, stream_id, stream } => Step::Events {
                ids: text::texts(event_ids@),
                stream: stream_id@,
                named: stream@,
            },
            ApplyStep::AssignTime { start, end, stream_id, stream } => Step::Period {
                start: start@,
                end: end@,
                stream: stream_id@,
                named: stream@,
            },
        }
    }
}

/// What is to be done in order, up to the error that ends it.
#[derive(Debug)]
pub struct ApplyPlan {
    pub steps: Vec<ApplyStep>,
    pub error: Option<String>,
}

impl View for ApplyPlan {
    type V = Plan;

    open spec fn view(&self) -> Plan {
        Plan {
            steps: self.steps@.map_values(|s: ApplyStep| s@),
            error: text::opt_text(self.error),
        }
    }
}

impl ApplyPlan {
    fn and(&mut self, step: ApplyStep)
        ensures
            final(self)@ == old(self)@.and(step@),
    {
        let ghost before = self@;
        self.steps.push(step);
        proof {
            assert(self@ =~= before.and(step@));
        }
    }

    fn end(&mut self, error: String)
        ensures
            final(self)@ == old(self)@.ended(error@),
    {
        self.error = Some(error);
    }

    fn add_tags(&mut self, def: &StreamDef, refs: &StreamRefs)
        ensures
            final(self)@ == old(self)@.and_tags(*def, refs@),
    {
        if self.error.is_some() {
            return ;
        }
        let ghost before = self@;
        match resolve_stream_id(refs, def.slug.as_str()) {
            Ok(id) => {
                let ghost tags = text::texts(def.tags@).map_values(
                    |tag: Seq<char>| Step::Tag { stream: id@, tag, named: def.name@ },
                );
                let mut i: usize = 0;
                proof {
                    assert(before.steps + tags.take(0) =~= before.steps);
                }
                while i < def.tags.len()
                    invariant
                        i <= def.tags@.len(),
                        tags == text::texts(def.tags@).map_values(
                            |tag: Seq<char>| Step::Tag { stream: id@, tag, named: def.name@ },
                        ),
                        before.error is None,
                        self@ == (Plan { steps: before.steps + tags.take(i as int), ..before }),
                    decreases def.tags@.len() - i,
                {
                    self.and(
                        ApplyStep::AddTag {
                            stream_id: id.clone(),
                            tag: def.tags[i].clone(),
                            stream: def.name.clone(),
                        },
                    );
                    proof {
                        assert(tags[i as int] == (Step::Tag {
                            stream: id@,
                            tag: def.tags@[i as int]@,
                            named: def.name@,
                        }));
                        assert(before.steps + tags.take(i + 1) =~= (before.steps + tags.take(
                            i as int,
                        )).push(tags[i as int]));
                    }
                    i += 1;
                }
                proof {
                    assert(tags.take(i as int) =~= tags);
                }
            },
            Err(message) => {
                self.end(message);
            },
        }
    }

    fn add_session(&mut self, a: &SessionAssignment, refs: &StreamRefs)
        ensures
            final(self)@ == old(self)@.and_session(*a, refs@),
    {
        if self.error.is_some() {
            return ;
        }
        match resolve_stream_id(refs, a.stream.as_str()) {
            Ok(id) => {
                self.and(
                    ApplyStep::AssignSession {
                        session_id: a.session_id.clone(),
                        stream_id: id.clone(),
                        stream: a.stream.clone(),
                    },
                );
            },
            Err(message) => {
                self.end(message);
            },
        }
    }

    fn add_pattern(&mut self, a: &PatternAssignment, refs: &StreamRefs, now: &Timestamp)
        ensures
            final(self)@ == old(self)@.and_pattern(*a, refs@, now@),
    {
        if self.error.is_some() {
            return ;
        }
        match resolve_stream_id(refs, a.stream.as_str()) {
            Ok(id) => {
                let start: Option<Timestamp> = match read_bound(&a.start, now) {
                    Some(start) => start,
                    None => {
                        self.end("invalid start time in pattern assignment".to_owned());
                        return ;
                    },
                };
                let end: Option<Timestamp> = match read_bound(&a.end, now) {
                    Some(end) => end,
                    None => {
                        self.end("invalid end time in pattern assignment".to_owned());
                        return ;
                    },
                };
                self.and(
                    ApplyStep::AssignPattern {
                        cwd_like: a.cwd_like.clone(),
                        from: start,
                        until: end,
                        stream_id: id.clone(),
                        stream: a.stream.clone(),
                    },
                );
            },
            Err(message) => {
                self.end(message);
            },
        }
    }

    fn add_events(&mut self, a: &EventIdsAssignment, refs: &StreamRefs)
        ensures
            final(self)@ == old(self)@.and_events(*a, refs@),
    {
        if self.error.is_some() {
            return ;
        }
        match resolve_stream_id(refs, a.stream.as_str()) {
            Ok(id) => {
                self.and(
                    ApplyStep::AssignEventIds {
                        event_ids: text::copy_texts(&a.event_ids),
                        stream_id: id.clone(),
                        stream: a.stream.clone(),
                    },
                );
            },
            Err(message) => {
                self.end(message);
            },
        }
    }

    fn add_period(&mut self, a: &TimeAssignment, refs: &StreamRefs, now: &Timestamp)
        ensures
            final(self)@ == old(self)@.and_period(*a, refs@, now@),
    {
        if self.error.is_some() {
            return ;
        }
        match resolve_stream_id(refs, a.stream.as_str()) {
            Ok(id) => {
                let start: Timestamp = match util::parse_datetime_at(a.start.as_str(), now) {
                    Ok(start) => start,
                    Err(_) => {
                        self.end("invalid start time in time-range assignment".to_owned());
                        return ;
                    },
                };
                let end: Timestamp = match util::parse_datetime_at(a.end.as_str(), now) {
                    Ok(end) => end,
                    Err(_) => {
                        self.end("invalid end time in time-range assignment".to_owned());
                        return ;
                    },
                };
                self.and(
                    ApplyStep::AssignTime {
                        start,
                        end,
                        stream_id: id.clone(),
                        stream: a.stream.clone(),
                    },
                );
            },
            Err(message) => {
                self.end(message);
            },
        }
    }
}

fn read_bound(s: &Option<String>, now: &Timestamp) -> (r: Option<Option<Timestamp>>)
    ensures
        match bound_at(*s, now@) {
            Some(bound) => r matches Some(t) && time::opt_instant(t) == bound,
            None => r is None,
        },
{
    match s {
        Some(s) => match util::parse_datetime_at(s.as_str(), now) {
            Ok(at) => Some(Some(at)),
            Err(_) => None,
        },
        None => Some(None),
    }
}

/// Plans what is to be done for assignments, at the time `now`. The plan ends with
/// the first assignment that names no stream or no time: what comes before it is
/// done, what comes after it is not.
pub fn plan_assignments(input: &ClassifyApplyInput, refs: &StreamRefs, now: &Timestamp) -> (r:
    ApplyPlan)
    ensures
        r@ == plan_at(*input, refs@, now@),
{
    let mut plan = ApplyPlan { steps: Vec::new(), error: None };
    proof {
        assert(plan@ =~= Plan::empty());
    }
    let ghost streams = input.streams@;
    let ghost tags = |p: Plan, d: StreamDef| p.and_tags(d, refs@);
    let mut i: usize = 0;
    while i < input.streams.len()
        invariant
            i <= streams.len(),
            streams == input.streams@,
            tags == (|p: Plan, d: StreamDef| p.and_tags(d, refs@)),
            plan@ == streams.take(i as int).fold_left(Plan::empty(), tags),
        decreases streams.len() - i,
    {
        proof {
            assert(streams.take(i + 1).drop_last() =~= streams.take(i as int));
        }
        plan.add_tags(&input.streams[i], refs);
        i += 1;
    }
    proof {
        assert(streams.take(i as int) =~= streams);
    }
    let ghost tagged = plan@;
    let ghost sessions = input.assign_by_session@;
    let ghost session = |p: Plan, a: SessionAssignment| p.and_session(a, refs@);
    i = 0;
    while i < input.assign_by_session.len()
        invariant
            i <= sessions.len(),
            sessions == input.assign_by_session@,
            session == (|p: Plan, a: SessionAssignment| p.and_session(a, refs@)),
            plan@ == sessions.take(i as int).fold_left(tagged, session),
        decreases sessions.len() - i,
    {
        proof {
            assert(sessions.take(i + 1).drop_last() =~= sessions.take(i as int));
        }
        plan.add_session(&input.assign_by_session[i], refs);
        i += 1;
    }
    proof {
        assert(sessions.take(i as int) =~= sessions);
    }
    let ghost by_session = plan@;
    let ghost patterns = input.assign_by_pattern@;
    let ghost pattern = |p: Plan, a: PatternAssignment| p.and_pattern(a, refs@, now@);
    i = 0;
    while i < input.assign_by_pattern.len()
        invariant
            i <= patterns.len(),
            patterns == input.assign_by_pattern@,
            pattern == (|p: Plan, a: PatternAssignment| p.and_pattern(a, refs@, now@)),
            plan@ == patterns.take(i as int).fold_left(by_session, pattern),
        decreases patterns.len() - i,
    {
        proof {
            assert(patterns.take(i + 1).drop_last() =~= patterns.take(i as int));
        }
        plan.add_pattern(&input.assign_by_pattern[i], refs, now);
        i += 1;
    }
    proof {
        assert(patterns.take(i as int) =~= patterns);
    }
    let ghost by_pattern = plan@;
    let ghost listed = input.assign_by_event_ids@;
    let ghost event = |p: Plan, a: EventIdsAssignment| p.and_events(a, refs@);
    i = 0;
    while i < input.assign_by_event_ids.len()
        invariant
            i <= listed.len(),
            listed == input.assign_by_event_ids@,
            event == (|p: Plan, a: EventIdsAssignment| p.and_events(a, refs@)),
            plan@ == listed.take(i as int).fold_left(by_pattern, event),
        decreases listed.len() - i,
    {
        proof {
            assert(listed.take(i + 1).drop_last() =~= listed.take(i as int));
        }
        plan.add_events(&input.assign_by_event_ids[i], refs);
        i += 1;
    }
    proof {
        assert(listed.take(i as int) =~= listed);
    }
    let ghost by_event = plan@;
    let ghost periods = input.assign_by_time@;
    let ghost period = |p: Plan, a: TimeAssignment| p.and_period(a, refs@, now@);
    i = 0;
    while i < input.assign_by_time.len()
        invariant
            i <= periods.len(),
            periods == input.assign_by_time@,
            period == (|p: Plan, a: TimeAssignment| p.and_period(a, refs@, now@)),
            plan@ == periods.take(i as int).fold_left(by_event, period),
        decreases periods.len() - i,
    {
        proof {
            assert(periods.take(i + 1).drop_last() =~= periods.take(i as int));
        }
        plan.add_period(&input.assign_by_time[i], refs, now);
        i += 1;
    }
    proof {
        assert(periods.take(i as int) =~= periods);
    }
    plan
}

impl Step {
    /// The id of the stream that the step is about.
    pub open spec fn stream(self) -> Seq<char> {
        match self {
            Step::Tag { stream, .. } => stream,
            Step::Session { stream, .. } => stream,
            Step::Pattern { stream, .. } => stream,
            Step::Events { stream, .. } => stream,
            Step::Period { stream, .. } => stream,
        }
    }
}

/// Whether every step of a plan is about a stream that can be referred to.
pub open spec fn names_known_streams(p: Plan, refs: Refs) -> bool {
    forall|k: int|
        0 <= k < p.steps.len() ==> refs.ids.values().contains((#[trigger] p.steps[k]).stream())
}

/// Whether every assignment refers to a known stream.
pub open spec fn all_streams_known(input: ClassifyApplyInput, refs: Refs) -> bool {
    &&& forall|i: int|
        0 <= i < input.streams@.len() ==> refs.ids.contains_key(
            (#[trigger] input.streams@[i]).slug@,
        )
    &&& forall|i: int|
        0 <= i < input.assign_by_session@.len() ==> refs.ids.contains_key(
            (#[trigger] input.assign_by_session@[i]).stream@,
        )
    &&& forall|i: int|
        0 <= i < input.assign_by_pattern@.len() ==> refs.ids.contains_key(
            (#[trigger] input.assign_by_pattern@[i]).stream@,
        )
    &&& forall|i: int|
        0 <= i < input.assign_by_event_ids@.len() ==> refs.ids.contains_key(
            (#[trigger] input.assign_by_event_ids@[i]).stream@,
        )
    &&& forall|i: int|
        0 <= i < input.assign_by_time@.len() ==> refs.ids.contains_key(
            (#[trigger] input.assign_by_time@[i]).stream@,
        )
}

/// What folding steps into a plan keeps and needs: a plan that has ended stays as
/// it is, the steps stay about known streams, and a plan goes on only over items
/// that are good.
proof fn fold_keeps<A>(
    items: Seq<A>,
    start: Plan,
    f: spec_fn(Plan, A) -> Plan,
    good: spec_fn(A) -> bool,
    refs: Refs,
)
    requires
        forall|p: Plan, a: A| p.error is Some ==> #[trigger] f(p, a) == p,
        forall|p: Plan, a: A|
            names_known_streams(p, refs) ==> names_known_streams(#[trigger] f(p, a), refs),
        forall|p: Plan, a: A| (#[trigger] f(p, a)).error is None ==> good(a),
        names_known_streams(start, refs),
    ensures
        names_known_streams(items.fold_left(start, f), refs),
        items.fold_left(start, f).error is None ==> start.error is None && (forall|i: int|
            0 <= i < items.len() ==> good(#[trigger] items[i])),
        start.error is Some ==> items.fold_left(start, f) == start,
    decreases items.len(),
{
    if items.len() > 0 {
        fold_keeps(items.drop_last(), start, f, good, refs);
        let before = items.drop_last().fold_left(start, f);
        let after = f(before, items.last());
        assert(items.fold_left(start, f) == after);
        if after.error is None {
            assert(good(items.last()));
            assert forall|i: int| 0 <= i < items.len() implies good(#[trigger] items[i]) by {
                if i < items.len() - 1 {
                    assert(items.drop_last()[i] == items[i]);
                }
            }
        }
    }
}

/// An assignment never goes to a stream that is neither defined nor there: every
/// step of a plan is about a stream that the references know, and a plan without an
/// error means that every assignment refers to one.
pub proof fn plans_name_known_streams(input: ClassifyApplyInput, refs: Refs, now: Instant)
    ensures
        names_known_streams(plan_at(input, refs, now), refs),
        plan_at(input, refs, now).error is None ==> all_streams_known(input, refs),
{
    let tags = |p: Plan, d: StreamDef| p.and_tags(d, refs);
    let session = |p: Plan, a: SessionAssignment| p.and_session(a, refs);
    let pattern = |p: Plan, a: PatternAssignment| p.and_pattern(a, refs, now);
    let event = |p: Plan, a: EventIdsAssignment| p.and_events(a, refs);
    let period = |p: Plan, a: TimeAssignment| p.and_period(a, refs, now);
    let good_def = |d: StreamDef| refs.ids.contains_key(d.slug@);
    let good_session = |a: SessionAssignment| refs.ids.contains_key(a.stream@);
    let good_pattern = |a: PatternAssignment| refs.ids.contains_key(a.stream@);
    let good_event = |a: EventIdsAssignment| refs.ids.contains_key(a.stream@);
    let good_period = |a: TimeAssignment| refs.ids.contains_key(a.stream@);
    assert forall|p: Plan, d: StreamDef| names_known_streams(p, refs) implies names_known_streams(
        #[trigger] tags(p, d),
        refs,
    ) by {
        known_ids(refs, d.slug@);
        let after = tags(p, d);
        assert forall|k: int| 0 <= k < after.steps.len() implies refs.ids.values().contains(
            (#[trigger] after.steps[k]).stream(),
        ) by {
            if k < p.steps.len() {
                assert(after.steps[k] == p.steps[k]);
            }
        }
    }
    assert forall|p: Plan, a: SessionAssignment| names_known_streams(
        p,
        refs,
    ) implies names_known_streams(#[trigger] session(p, a), refs) by {
        known_ids(refs, a.stream@);
    }
    assert forall|p: Plan, a: PatternAssignment| names_known_streams(
        p,
        refs,
    ) implies names_known_streams(#[trigger] pattern(p, a), refs) by {
        known_ids(refs, a.stream@);
    }
    assert forall|p: Plan, a: EventIdsAssignment| names_known_streams(
        p,
        refs,
    ) implies names_known_streams(#[trigger] event(p, a), refs) by {
        known_ids(refs, a.stream@);
    }
    assert forall|p: Plan, a: TimeAssignment| names_known_streams(
        p,
        refs,
    ) implies names_known_streams(#[trigger] period(p, a), refs) by {
        known_ids(refs, a.stream@);
    }
    fold_keeps(input.streams@, Plan::empty(), tags, good_def, refs);
    let tagged = input.streams@.fold_left(Plan::empty(), tags);
    fold_keeps(input.assign_by_session@, tagged, session, good_session, refs);
    let by_session = input.assign_by_session@.fold_left(tagged, session);
    fold_keeps(input.assign_by_pattern@, by_session, pattern, good_pattern, refs);
    let by_pattern = input.assign_by_pattern@.fold_left(by_session, pattern);
    fold_keeps(input.assign_by_event_ids@, by_pattern, event, good_event, refs);
    let by_event = input.assign_by_event_ids@.fold_left(by_pattern, event);
    fold_keeps(input.assign_by_time@, by_event, period, good_period, refs);
    if plan_at(input, refs, now).error is None {
        assert forall|i: int| 0 <= i < input.streams@.len() implies refs.ids.contains_key(
            (#[trigger] input.streams@[i]).slug@,
        ) by {
            assert(good_def(input.streams@[i]));
        }
        assert forall|i: int| 0 <= i < input.assign_by_session@.len() implies refs.ids.contains_key(
            (#[trigger] input.assign_by_session@[i]).stream@,
        ) by {
            assert(good_session(input.assign_by_session@[i]));
        }
        assert forall|i: int| 0 <= i < input.assign_by_pattern@.len() implies refs.ids.contains_key(
            (#[trigger] input.assign_by_pattern@[i]).stream@,
        ) by {
            assert(good_pattern(input.assign_by_pattern@[i]));
        }
        assert forall|i: int|
            0 <= i < input.assign_by_event_ids@.len() implies refs.ids.contains_key(
            (#[trigger] input.assign_by_event_ids@[i]).stream@,
        ) by {
            assert(good_event(input.assign_by_event_ids@[i]));
        }
        assert forall|i: int| 0 <= i < input.assign_by_time@.len() implies refs.ids.contains_key(
            (#[trigger] input.assign_by_time@[i]).stream@,
        ) by {
            assert(good_period(input.assign_by_time@[i]));
        }
    }
}

proof fn known_ids(refs: Refs, stream_ref: Seq<char>)
    ensures
        refs.find(stream_ref) matches Some(id) ==> refs.ids.values().contains(id),
{
    if refs.ids.contains_key(stream_ref) {
        assert(refs.ids.dom().contains(stream_ref));
    }
}

/// A slug stands for the stream that it was last defined for, whatever else was
/// named so: defining a stream makes its slug stand for it, and keeps every other
/// reference.
pub proof fn definitions_keep_other_references(
    refs: Refs,
    def: StreamDef,
    id: Seq<char>,
    other: Seq<char>,
)
    ensures
        refs.defined(def, id).find(def.slug@) == Some(id),
        other != def.slug@ && refs.find(other) is Some ==> refs.defined(def, id).find(other)
            == refs.find(other),
        refs.find(def.name@) is None ==> refs.defined(def, id).find(def.name@) == Some(id),
{
}

/// What came of the steps so far.
#[verifier::ext_equal]
pub struct Tally {
    /// How many events were assigned.
    pub total: nat,
    /// The slug of the stream that each assigned session went to.
    pub slugs: Map<Seq<char>, Seq<char>>,
}

impl Tally {
    /// This and the `count` events that a step assigned.
    pub open spec fn and(self, step: Step, count: nat, refs: Refs) -> Tally {
        match step {
            Step::Tag { .. } => self,
            Step::Session { session, stream, .. } => Tally {
                total: self.total + count,
                slugs: if count > 0 && refs.slugs.contains_key(stream) {
                    self.slugs.insert(session, refs.slugs[stream])
                } else {
                    self.slugs
                },
            },
            _ => Tally { total: self.total + count, ..self },
        }
    }
}

/// What came of the steps so far.
pub struct ApplyTally {
    total: u64,
    slugs: StringHashMap<String>,
}

impl View for ApplyTally {
    type V = Tally;

    closed spec fn view(&self) -> Tally {
        Tally { total: self.total as nat, slugs: text_map(self.slugs@) }
    }
}

/// The line at the end: how many events were assigned.
pub open spec fn closing_line(total: nat) -> Seq<char> {
    if total > 0 {
        "Assigned "@ + text::decimal(total) + " events. Recomputing..."@
    } else {
        "No events to assign."@
    }
}

impl ApplyTally {
    /// Nothing was done yet.
    pub fn new() -> (r: ApplyTally)
        ensures
            r@ == (Tally { total: 0, slugs: Map::empty() }),
    {
        let r = ApplyTally { total: 0, slugs: StringHashMap::new() };
        proof {
            assert(r@.slugs =~= Map::empty());
        }
        r
    }

    /// Takes note of the number of events that a step assigned.
    pub fn record(&mut self, step: &ApplyStep, count: u64, refs: &StreamRefs)
        requires
            old(self)@.total + count <= u64::MAX,
        ensures
            final(self)@ == old(self)@.and(step@, count as nat, refs@),
    {
        let ghost before = self@;
        match step {
            ApplyStep::AddTag { .. } => {},
            ApplyStep::AssignSession { session_id, stream_id, .. } => {
                self.total = self.total + count;
                if count > 0 {
                    if let Some(slug) = refs.slug_of(stream_id.as_str()) {
                        put(&mut self.slugs, session_id.as_str(), slug.as_str());
                    }
                }
            },
            _ => {
                self.total = self.total + count;
            },
        }
        proof {
            assert(self@ =~= before.and(step@, count as nat, refs@));
        }
    }

    /// The outcome, the closing line, and whether streams are to be recomputed:
    /// they are where anything was assigned.
    pub fn finish(self) -> (r: (ApplyOutcome, String, bool))
        ensures
            text_map(r.0.session_stream_slugs@) == self@.slugs,
            r.1@ == closing_line(self@.total),
            r.2 == (self@.total > 0),
    {
        let line: String = if self.total > 0 {
            let mut line = "Assigned ".to_owned();
            text::push_decimal(&mut line, self.total);
            line.append(" events. Recomputing...");
            line
        } else {
            "No events to assign.".to_owned()
        };
        (ApplyOutcome { session_stream_slugs: self.slugs }, line, self.total > 0)
    }
}

/// The text that says which step failed.
pub open spec fn failure_text(step: Step) -> Seq<char> {
    match step {
        Step::Tag { tag, named, .. } => "failed to add tag "@ + tag + " to stream "@ + named,
        Step::Session { session, named, .. } => "failed to assign session "@ + session
            + " to stream "@ + named,
        Step::Pattern { cwd_like, named, .. } => "failed to assign events matching "@ + cwd_like
            + " to stream "@ + named,
        Step::Events { ids, named, .. } => "failed to assign "@ + text::decimal(ids.len())
            + " explicit events to stream "@ + named,
        Step::Period { named, .. } => "failed to assign time range to stream "@ + named,
    }
}

impl ApplyStep {
    /// The text that says that this step failed.
    pub fn failure(&self) -> (r: String)
        ensures
            r@ == failure_text(self@),
    {
        match self {
            ApplyStep::AddTag { tag, stream, .. } => {
                let mut out = "failed to add tag ".to_owned();
                out.append(tag.as_str());
                out.append(" to stream ");
                out.append(stream.as_str());
                out
            },
            ApplyStep::AssignSession { session_id, stream, .. } => {
                let mut out = "failed to assign session ".to_owned();
                out.append(session_id.as_str());
                out.append(" to stream ");
                out.append(stream.as_str());
                out
            },
            ApplyStep::AssignPattern { cwd_like, stream, .. } => {
                let mut out = "failed to assign events matching ".to_owned();
                out.append(cwd_like.as_str());
                out.append(" to stream ");
                out.append(stream.as_str());
                out
            },
            ApplyStep::AssignEventIds { event_ids, stream, .. } => {
                let mut out = "failed to assign ".to_owned();
                text::push_decimal(&mut out, event_ids.len() as u64);
                out.append(" explicit events to stream ");
                out.append(stream.as_str());
                out
            },
            ApplyStep::AssignTime { stream, .. } => {
                let mut out = "failed to assign time range to stream ".to_owned();
                out.append(stream.as_str());
                out
            },
        }
    }
}

/// Defining a stream again, under the same id, changes nothing.
pub proof fn definitions_settle(refs: Refs, def: StreamDef, id: Seq<char>)
    ensures
        refs.defined(def, id).defined(def, id) == refs.defined(def, id),
{
    let once = refs.defined(def, id);
    let twice = once.defined(def, id);
    assert(twice.ids =~= once.ids);
    assert(twice.slugs =~= once.slugs);
}

/// What defining streams has come to.
pub struct Definitions {
    /// The stream that holds each slug.
    pub store: Map<Seq<char>, Held>,
    /// The streams that can be referred to.
    pub refs: Refs,
    /// The ids of the streams that were created.
    pub created: Seq<Seq<char>>,
}

impl Definitions {
    /// The stream that holds a slug.
    pub open spec fn holder(self, slug: Seq<char>) -> Option<Held> {
        if self.store.contains_key(slug) {
            Some(self.store[slug])
        } else {
            None
        }
    }

    /// This after one more definition; a stream that it creates gets the id `fresh`, and
    /// holds the slug from then on. The error is why the definition is refused.
    pub open spec fn and(
        self,
        def: StreamDef,
        slug_error: Option<Seq<char>>,
        fresh: Seq<char>,
    ) -> Result<Definitions, Seq<char>> {
        match settlement(def, slug_error, self.holder(def.slug@)) {
            Settlement::Refused(reason) => Err(reason),
            Settlement::Reused(id) => Ok(
                Definitions { refs: self.refs.defined(def, id), ..self },
            ),
            Settlement::Created => Ok(
                Definitions {
                    store: self.store.insert(
                        def.slug@,
                        Held { id: fresh, name: Some(def.name@) },
                    ),
                    refs: self.refs.defined(def, fresh),
                    created: self.created.push(fresh),
                },
            ),
        }
    }

    /// This after a list of definitions, up to the first that is refused. `slug_errors`
    /// says what is wrong with a slug, and `fresh` are the ids that the definitions get
    /// where they create.
    pub open spec fn and_all(
        self,
        defs: Seq<StreamDef>,
        slug_errors: spec_fn(Seq<char>) -> Option<Seq<char>>,
        fresh: Seq<Seq<char>>,
    ) -> Result<Definitions, Seq<char>>
        decreases defs.len(),
    {
        if defs.len() == 0 {
            Ok(self)
        } else {
            let def = defs.last();
            match self.and_all(defs.drop_last(), slug_errors, fresh) {
                Ok(before) => before.and(def, slug_errors(def.slug@), fresh[defs.len() - 1]),
                Err(reason) => Err(reason),
            }
        }
    }

    /// Whether a definition is settled here: its slug is held under its own name, and
    /// nothing is wrong with it.
    pub open spec fn settles(self, def: StreamDef, slug_error: Option<Seq<char>>) -> bool {
        &&& slug_error is None
        &&& self.holder(def.slug@) matches Some(held) && held.name == Some(def.name@)
    }
}

proof fn definitions_are_settled(
    start: Definitions,
    defs: Seq<StreamDef>,
    slug_errors: spec_fn(Seq<char>) -> Option<Seq<char>>,
    fresh: Seq<Seq<char>>,
)
    requires
        start.and_all(defs, slug_errors, fresh) is Ok,
    ensures
        forall|i: int|
            0 <= i < defs.len() ==> start.and_all(defs, slug_errors, fresh)->Ok_0.settles(
                #[trigger] defs[i],
                slug_errors(defs[i].slug@),
            ),
    decreases defs.len(),
{
    if defs.len() > 0 {
        let earlier = defs.drop_last();
        definitions_are_settled(start, earlier, slug_errors, fresh);
        let before = start.and_all(earlier, slug_errors, fresh)->Ok_0;
        let after = start.and_all(defs, slug_errors, fresh)->Ok_0;
        assert forall|i: int| 0 <= i < defs.len() implies after.settles(
            #[trigger] defs[i],
            slug_errors(defs[i].slug@),
        ) by {
            if i < earlier.len() {
                assert(before.settles(earlier[i], slug_errors(earlier[i].slug@)));
            }
        }
    }
}

proof fn settled_definitions_are_reused(
    start: Definitions,
    defs: Seq<StreamDef>,
    slug_errors: spec_fn(Seq<char>) -> Option<Seq<char>>,
    fresh: Seq<Seq<char>>,
)
    requires
        forall|i: int|
            0 <= i < defs.len() ==> start.settles(#[trigger] defs[i], slug_errors(defs[i].slug@)),
    ensures
        start.and_all(defs, slug_errors, fresh) matches Ok(after) && after.store == start.store
            && after.created == start.created && (forall|i: int|
            0 <= i < defs.len() ==> after.refs.find((#[trigger] defs[i]).slug@) == Some(
                start.store[defs[i].slug@].id,
            )),
    decreases defs.len(),
{
    if defs.len() > 0 {
        let earlier = defs.drop_last();
        assert forall|i: int| 0 <= i < earlier.len() implies start.settles(
            #[trigger] earlier[i],
            slug_errors(earlier[i].slug@),
        ) by {
            assert(start.settles(defs[i], slug_errors(defs[i].slug@)));
        }
        settled_definitions_are_reused(start, earlier, slug_errors, fresh);
        let before = start.and_all(earlier, slug_errors, fresh)->Ok_0;
        let last = defs[defs.len() - 1];
        assert(start.settles(last, slug_errors(last.slug@)));
        let id = start.store[last.slug@].id;
        let after = start.and_all(defs, slug_errors, fresh)->Ok_0;
        assert(after.refs == before.refs.defined(last, id));
        assert forall|i: int| 0 <= i < defs.len() implies after.refs.find(
            (#[trigger] defs[i]).slug@,
        ) == Some(start.store[defs[i].slug@].id) by {
            definitions_keep_other_references(before.refs, last, id, defs[i].slug@);
            if i < earlier.len() {
                assert(before.refs.find(earlier[i].slug@) == Some(
                    start.store[earlier[i].slug@].id,
                ));
            }
        }
    }
}

/// Applying definitions again creates nothing: once a list of them has been settled,
/// each is settled by the stream that holds its slug, whatever could be referred to
/// before, and the streams stay as they are.
pub proof fn applying_definitions_again_creates_nothing(
    start: Definitions,
    defs: Seq<StreamDef>,
    slug_errors: spec_fn(Seq<char>) -> Option<Seq<char>>,
    fresh: Seq<Seq<char>>,
    refs: Refs,
    more: Seq<Seq<char>>,
)
    requires
        start.and_all(defs, slug_errors, fresh) is Ok,
    ensures
        ({
            let store = start.and_all(defs, slug_errors, fresh)->Ok_0.store;
            let again = Definitions { store, refs, created: Seq::empty() };
            again.and_all(defs, slug_errors, more) matches Ok(after) && after.store == store
                && after.created == Seq::<Seq<char>>::empty() && (forall|i: int|
                0 <= i < defs.len() ==> after.refs.find((#[trigger] defs[i]).slug@) == Some(
                    store[defs[i].slug@].id,
                ))
        }),
{
    definitions_are_settled(start, defs, slug_errors, fresh);
    let done = start.and_all(defs, slug_errors, fresh)->Ok_0;
    let again = Definitions { store: done.store, refs, created: Seq::empty() };
    assert forall|i: int| 0 <= i < defs.len() implies again.settles(
        #[trigger] defs[i],
        slug_errors(defs[i].slug@),
    ) by {
        assert(done.settles(defs[i], slug_errors(defs[i].slug@)));
    }
    settled_definitions_are_reused(again, defs, slug_errors, more);
}

/// Whether assignments only define streams, and give them no tags.
pub open spec fn only_defines(input: ClassifyApplyInput) -> bool {
    &&& input.assign_by_session@.len() == 0
    &&& input.assign_by_pattern@.len() == 0
    &&& input.assign_by_event_ids@.len() == 0
    &&& input.assign_by_time@.len() == 0
    &&& forall|i: int| 0 <= i < input.streams@.len() ==> (#[trigger] input.streams@[i]).tags@.len()
        == 0
}

proof fn no_tags_no_steps(defs: Seq<StreamDef>, refs: Refs)
    requires
        forall|i: int| 0 <= i < defs.len() ==> (#[trigger] defs[i]).tags@.len() == 0,
        forall|i: int| 0 <= i < defs.len() ==> refs.find((#[trigger] defs[i]).slug@) is Some,
    ensures
        defs.fold_left(Plan::empty(), |p: Plan, d: StreamDef| p.and_tags(d, refs))
            == Plan::empty(),
    decreases defs.len(),
{
    if defs.len() > 0 {
        let earlier = defs.drop_last();
        assert forall|i: int| 0 <= i < earlier.len() implies (
        #[trigger] earlier[i]).tags@.len() == 0 && refs.find(earlier[i].slug@) is Some by {
            assert(defs[i].tags@.len() == 0);
            assert(refs.find(defs[i].slug@) is Some);
        }
        no_tags_no_steps(earlier, refs);
        let last = defs[defs.len() - 1];
        assert(last.tags@.len() == 0 && refs.find(last.slug@) is Some);
        assert(Plan::empty().and_tags(last, refs) =~= Plan::empty());
    }
}

/// Where assignments only define streams and these can be referred to, there is nothing
/// more to do.
pub proof fn defining_alone_plans_nothing(input: ClassifyApplyInput, refs: Refs, now: Instant)
    requires
        only_defines(input),
        forall|i: int|
            0 <= i < input.streams@.len() ==> refs.find((#[trigger] input.streams@[i]).slug@)
                is Some,
    ensures
        plan_at(input, refs, now) == Plan::empty(),
{
    no_tags_no_steps(input.streams@, refs);
}

/// Whether a bound is the point in time that a text reads as at `now`, and absent where
/// no text is given.
pub open spec fn is_bound(bound: Option<Timestamp>, given: Option<String>, now: Instant) -> bool {
    match given {
        Some(given) => bound matches Some(at) && util::datetime_at(given@, now) == Some(at@),
        None => bound is None,
    }
}

/// Whether a step gives a defined stream one of its tags.
pub open spec fn gives_tag(step: ApplyStep, def: StreamDef, tag: Seq<char>, refs: Refs) -> bool {
    match step {
        ApplyStep::AddTag { stream_id, tag: given, stream } => given@ == tag && refs.find(
            def.slug@,
        ) == Some(stream_id@) && stream@ == def.name@,
        _ => false,
    }
}

/// Whether a step assigns the session that an assignment names.
pub open spec fn does_session(step: ApplyStep, a: SessionAssignment, refs: Refs) -> bool {
    match step {
        ApplyStep::AssignSession { session_id, stream_id, stream } => session_id@ == a.session_id@
            && refs.find(a.stream@) == Some(stream_id@) && stream@ == a.stream@,
        _ => false,
    }
}

/// Whether a step assigns by the pattern of an assignment, from its start to its end.
pub open spec fn does_pattern(
    step: ApplyStep,
    a: PatternAssignment,
    refs: Refs,
    now: Instant,
) -> bool {
    match step {
        ApplyStep::AssignPattern { cwd_like, from, until, stream_id, stream } => {
            &&& cwd_like@ == a.cwd_like@
            &&& is_bound(from, a.start, now)
            &&& is_bound(until, a.end, now)
            &&& refs.find(a.stream@) == Some(stream_id@)
            &&& stream@ == a.stream@
        },
        _ => false,
    }
}

/// Whether a step assigns the events that an assignment lists, in their order.
pub open spec fn does_events(step: ApplyStep, a: EventIdsAssignment, refs: Refs) -> bool {
    match step {
        ApplyStep::AssignEventIds { event_ids, stream_id, stream } => {
            &&& event_ids@.len() == a.event_ids@.len()
            &&& forall|k: int|
                0 <= k < event_ids@.len() ==> (#[trigger] event_ids@[k])@ == a.event_ids@[k]@
            &&& refs.find(a.stream@) == Some(stream_id@)
            &&& stream@ == a.stream@
        },
        _ => false,
    }
}

/// Whether a step assigns the period of an assignment, from its start to its end.
pub open spec fn does_period(
    step: ApplyStep,
    a: TimeAssignment,
    refs: Refs,
    now: Instant,
) -> bool {
    match step {
        ApplyStep::AssignTime { start, end, stream_id, stream } => {
            &&& util::datetime_at(a.start@, now) == Some(start@)
            &&& util::datetime_at(a.end@, now) == Some(end@)
            &&& refs.find(a.stream@) == Some(stream_id@)
            &&& stream@ == a.stream@
        },
        _ => false,
    }
}

/// How many tags the definitions carry.
pub open spec fn tag_count(defs: Seq<StreamDef>) -> nat
    decreases defs.len(),
{
    if defs.len() == 0 {
        0
    } else {
        tag_count(defs.drop_last()) + defs.last().tags@.len()
    }
}

/// Folding steps of one kind into a plan without an error adds one step per item, behind
/// those that are there.
proof fn fold_adds<A>(
    items: Seq<A>,
    start: Plan,
    f: spec_fn(Plan, A) -> Plan,
    made: spec_fn(A) -> Step,
)
    requires
        forall|p: Plan, a: A| p.error is Some ==> #[trigger] f(p, a) == p,
        forall|p: Plan, a: A|
            (#[trigger] f(p, a)).error is None ==> f(p, a).steps == p.steps.push(made(a)),
        items.fold_left(start, f).error is None,
    ensures
        start.error is None,
        items.fold_left(start, f).steps.len() == start.steps.len() + items.len(),
        forall|k: int|
            0 <= k < start.steps.len() ==> #[trigger] items.fold_left(start, f).steps[k]
                == start.steps[k],
        forall|i: int|
            0 <= i < items.len() ==> items.fold_left(start, f).steps[start.steps.len() + i] == made(
                #[trigger] items[i],
            ),
    decreases items.len(),
{
    if items.len() > 0 {
        let before = items.drop_last().fold_left(start, f);
        let after = f(before, items.last());
        assert(items.fold_left(start, f) == after);
        assert(before.error is None);
        fold_adds(items.drop_last(), start, f, made);
        assert(after.steps == before.steps.push(made(items.last())));
        assert forall|i: int| 0 <= i < items.len() implies items.fold_left(
            start,
            f,
        ).steps[start.steps.len() + i] == made(#[trigger] items[i]) by {
            if i < items.len() - 1 {
                assert(items.drop_last()[i] == items[i]);
            }
        }
    }
}

/// Where the step for a tag stands: behind those of the definitions before.
pub open spec fn tag_place(defs: Seq<StreamDef>, i: int, t: int) -> int {
    tag_count(defs.take(i)) + t
}

/// Where the steps for the assignments by session begin: behind those for all tags.
pub open spec fn place_of_sessions(input: ClassifyApplyInput) -> int {
    tag_count(input.streams@) as int
}

/// Where the steps for the assignments by pattern begin.
pub open spec fn place_of_patterns(input: ClassifyApplyInput) -> int {
    place_of_sessions(input) + input.assign_by_session@.len()
}

/// Where the steps for the assignments by event begin.
pub open spec fn place_of_events(input: ClassifyApplyInput) -> int {
    place_of_patterns(input) + input.assign_by_pattern@.len()
}

/// Where the steps for the assignments by period begin.
pub open spec fn place_of_periods(input: ClassifyApplyInput) -> int {
    place_of_events(input) + input.assign_by_event_ids@.len()
}

/// Whether the step for a tag is where it belongs.
spec fn tag_is_given(steps: Seq<Step>, defs: Seq<StreamDef>, refs: Refs, i: int, t: int) -> bool {
    0 <= i < defs.len() && 0 <= t < defs[i].tags@.len() ==> {
        &&& tag_place(defs, i, t) < steps.len()
        &&& refs.find(defs[i].slug@) is Some
        &&& steps[tag_place(defs, i, t)] == (Step::Tag {
            stream: refs.find(defs[i].slug@)->0,
            tag: defs[i].tags@[t]@,
            named: defs[i].name@,
        })
    }
}

/// Folding the tags of definitions into a plan without an error adds one step per tag.
proof fn fold_adds_tags(defs: Seq<StreamDef>, refs: Refs, f: spec_fn(Plan, StreamDef) -> Plan)
    requires
        forall|p: Plan, d: StreamDef| #[trigger] f(p, d) == p.and_tags(d, refs),
        defs.fold_left(Plan::empty(), f).error is None,
    ensures
        defs.fold_left(Plan::empty(), f).steps.len() == tag_count(defs),
        forall|i: int, t: int| #[trigger]
            tag_is_given(defs.fold_left(Plan::empty(), f).steps, defs, refs, i, t),
    decreases defs.len(),
{
    if defs.len() > 0 {
        let earlier = defs.drop_last();
        let before = earlier.fold_left(Plan::empty(), f);
        let plan = defs.fold_left(Plan::empty(), f);
        assert(plan == f(before, defs.last()));
        assert(before.error is None);
        fold_adds_tags(earlier, refs, f);
        assert forall|i: int, t: int| #[trigger]
            tag_is_given(plan.steps, defs, refs, i, t) by {
            assert(tag_is_given(before.steps, earlier, refs, i, t));
            if 0 <= i < earlier.len() {
                assert(earlier.take(i) =~= defs.take(i));
            } else if i == earlier.len() && 0 <= t < defs[i].tags@.len() {
                assert(defs.take(i) =~= earlier);
                assert(text::texts(defs.last().tags@)[t] == defs[i].tags@[t]@);
            }
        }
    }
}

/// A plan without an error does what the assignments say and nothing else: one step for
/// each tag of each defined stream, then one for each assignment by session, by pattern,
/// by event and by period, in that order and in the order in which they are given. The
/// step of an assignment by pattern carries its pattern, as lower bound the point in time
/// that its start reads as and as upper bound the one that its end reads as, each absent
/// exactly where it is not given.
pub proof fn plans_do_what_is_assigned(
    plan: ApplyPlan,
    input: ClassifyApplyInput,
    refs: Refs,
    now: Instant,
)
    requires
        plan@ == plan_at(input, refs, now),
        plan.error is None,
    ensures
        plan.steps@.len() == place_of_periods(input) + input.assign_by_time@.len(),
        forall|i: int, t: int|
            0 <= i < input.streams@.len() && 0 <= t < input.streams@[i].tags@.len() ==> {
                &&& 0 <= #[trigger] tag_place(input.streams@, i, t) < place_of_sessions(input)
                &&& gives_tag(
                    plan.steps@[tag_place(input.streams@, i, t)],
                    input.streams@[i],
                    input.streams@[i].tags@[t]@,
                    refs,
                )
            },
        forall|i: int|
            0 <= i < input.assign_by_session@.len() ==> does_session(
                plan.steps@[place_of_sessions(input) + i],
                #[trigger] input.assign_by_session@[i],
                refs,
            ),
        forall|i: int|
            0 <= i < input.assign_by_pattern@.len() ==> does_pattern(
                plan.steps@[place_of_patterns(input) + i],
                #[trigger] input.assign_by_pattern@[i],
                refs,
                now,
            ),
        forall|i: int|
            0 <= i < input.assign_by_event_ids@.len() ==> does_events(
                plan.steps@[place_of_events(input) + i],
                #[trigger] input.assign_by_event_ids@[i],
                refs,
            ),
        forall|i: int|
            0 <= i < input.assign_by_time@.len() ==> does_period(
                plan.steps@[place_of_periods(input) + i],
                #[trigger] input.assign_by_time@[i],
                refs,
                now,
            ),
{
    let tag = |p: Plan, d: StreamDef| p.and_tags(d, refs);
    let session = |p: Plan, a: SessionAssignment| p.and_session(a, refs);
    let pattern = |p: Plan, a: PatternAssignment| p.and_pattern(a, refs, now);
    let event = |p: Plan, a: EventIdsAssignment| p.and_events(a, refs);
    let period = |p: Plan, a: TimeAssignment| p.and_period(a, refs, now);
    let for_session = |a: SessionAssignment|
        Step::Session {
            session: a.session_id@,
            stream: refs.find(a.stream@)->0,
            named: a.stream@,
        };
    let for_pattern = |a: PatternAssignment|
        Step::Pattern {
            cwd_like: a.cwd_like@,
            from: bound_at(a.start, now)->0,
            until: bound_at(a.end, now)->0,
            stream: refs.find(a.stream@)->0,
            named: a.stream@,
        };
    let for_event = |a: EventIdsAssignment|
        Step::Events {
            ids: text::texts(a.event_ids@),
            stream: refs.find(a.stream@)->0,
            named: a.stream@,
        };
    let for_period = |a: TimeAssignment|
        Step::Period {
            start: util::datetime_at(a.start@, now)->0,
            end: util::datetime_at(a.end@, now)->0,
            stream: refs.find(a.stream@)->0,
            named: a.stream@,
        };
    let tagged = input.streams@.fold_left(Plan::empty(), tag);
    let by_session = input.assign_by_session@.fold_left(tagged, session);
    let by_pattern = input.assign_by_pattern@.fold_left(by_session, pattern);
    let by_event = input.assign_by_event_ids@.fold_left(by_pattern, event);
    let done = input.assign_by_time@.fold_left(by_event, period);
    assert(plan@ == done && done.error is None);
    fold_adds(input.assign_by_time@, by_event, period, for_period);
    fold_adds(input.assign_by_event_ids@, by_pattern, event, for_event);
    fold_adds(input.assign_by_pattern@, by_session, pattern, for_pattern);
    fold_adds(input.assign_by_session@, tagged, session, for_session);
    fold_adds_tags(input.streams@, refs, tag);
    plans_name_known_streams(input, refs, now);
    times_are_read(input, refs, now);
    let steps = plan.steps@;
    assert forall|k: int| 0 <= k < steps.len() implies (#[trigger] steps[k])@ == done.steps[k] by {}
    assert forall|i: int, t: int|
        0 <= i < input.streams@.len() && 0 <= t < input.streams@[i].tags@.len() implies {
        &&& 0 <= #[trigger] tag_place(input.streams@, i, t) < place_of_sessions(input)
        &&& gives_tag(
            steps[tag_place(input.streams@, i, t)],
            input.streams@[i],
            input.streams@[i].tags@[t]@,
            refs,
        )
    } by {
        let k = tag_place(input.streams@, i, t);
        assert(tag_is_given(tagged.steps, input.streams@, refs, i, t));
        assert(by_session.steps[k] == tagged.steps[k]);
        assert(by_pattern.steps[k] == by_session.steps[k]);
        assert(by_event.steps[k] == by_pattern.steps[k]);
        assert(done.steps[k] == by_event.steps[k]);
        assert(steps[k]@ == done.steps[k]);
    }
    assert forall|i: int| 0 <= i < input.assign_by_session@.len() implies does_session(
        steps[place_of_sessions(input) + i],
        #[trigger] input.assign_by_session@[i],
        refs,
    ) by {
        let k = place_of_sessions(input) + i;
        let a = input.assign_by_session@[i];
        assert(by_session.steps[k] == for_session(a));
        assert(by_pattern.steps[k] == by_session.steps[k]);
        assert(by_event.steps[k] == by_pattern.steps[k]);
        assert(done.steps[k] == by_event.steps[k]);
        assert(steps[k]@ == done.steps[k]);
    }
    assert forall|i: int| 0 <= i < input.assign_by_pattern@.len() implies does_pattern(
        steps[place_of_patterns(input) + i],
        #[trigger] input.assign_by_pattern@[i],
        refs,
        now,
    ) by {
        let k = place_of_patterns(input) + i;
        let a = input.assign_by_pattern@[i];
        assert(by_pattern.steps[k] == for_pattern(a));
        assert(by_event.steps[k] == by_pattern.steps[k]);
        assert(done.steps[k] == by_event.steps[k]);
        assert(steps[k]@ == done.steps[k]);
    }
    assert forall|i: int| 0 <= i < input.assign_by_event_ids@.len() implies does_events(
        steps[place_of_events(input) + i],
        #[trigger] input.assign_by_event_ids@[i],
        refs,
    ) by {
        let k = place_of_events(input) + i;
        let a = input.assign_by_event_ids@[i];
        assert(by_event.steps[k] == for_event(a));
        assert(done.steps[k] == by_event.steps[k]);
        assert(steps[k]@ == done.steps[k]);
        let step = steps[k];
        if let ApplyStep::AssignEventIds { event_ids, stream_id, stream } = step {
            assert(text::texts(event_ids@) == text::texts(a.event_ids@));
            assert forall|j: int| 0 <= j < event_ids@.len() implies (#[trigger] event_ids@[j])@
                == a.event_ids@[j]@ by {
                assert(text::texts(event_ids@)[j] == event_ids@[j]@);
                assert(text::texts(a.event_ids@)[j] == a.event_ids@[j]@);
            }
            assert(text::texts(event_ids@).len() == event_ids@.len());
            assert(text::texts(a.event_ids@).len() == a.event_ids@.len());
        }
    }
    assert forall|i: int| 0 <= i < input.assign_by_time@.len() implies does_period(
        steps[place_of_periods(input) + i],
        #[trigger] input.assign_by_time@[i],
        refs,
        now,
    ) by {
        let k = place_of_periods(input) + i;
        let a = input.assign_by_time@[i];
        assert(done.steps[k] == for_period(a));
        assert(steps[k]@ == done.steps[k]);
    }
}

/// Whether every time that an assignment gives is a point in time.
pub open spec fn all_times_read(input: ClassifyApplyInput, now: Instant) -> bool {
    &&& forall|i: int|
        0 <= i < input.assign_by_pattern@.len() ==> ({
            let a = #[trigger] input.assign_by_pattern@[i];
            &&& a.start matches Some(start) ==> util::datetime_at(start@, now) is Some
            &&& a.end matches Some(end) ==> util::datetime_at(end@, now) is Some
        })
    &&& forall|i: int|
        0 <= i < input.assign_by_time@.len() ==> ({
            let a = #[trigger] input.assign_by_time@[i];
            util::datetime_at(a.start@, now) is Some && util::datetime_at(a.end@, now) is Some
        })
}

/// Folding steps over items that are good ends in no error.
proof fn fold_goes_on<A>(
    items: Seq<A>,
    start: Plan,
    f: spec_fn(Plan, A) -> Plan,
    good: spec_fn(A) -> bool,
)
    requires
        forall|p: Plan, a: A| p.error is None && good(a) ==> (#[trigger] f(p, a)).error is None,
        forall|i: int| 0 <= i < items.len() ==> good(#[trigger] items[i]),
        start.error is None,
    ensures
        items.fold_left(start, f).error is None,
    decreases items.len(),
{
    if items.len() > 0 {
        assert forall|i: int| 0 <= i < items.drop_last().len() implies good(
            #[trigger] items.drop_last()[i],
        ) by {
            assert(good(items[i]));
        }
        fold_goes_on(items.drop_last(), start, f, good);
        assert(good(items.last()));
        let before = items.drop_last().fold_left(start, f);
        assert(f(before, items.last()).error is None);
    }
}

/// Folding steps ends in an error where some item is not good.
proof fn fold_stops<A>(
    items: Seq<A>,
    start: Plan,
    f: spec_fn(Plan, A) -> Plan,
    good: spec_fn(A) -> bool,
)
    requires
        forall|p: Plan, a: A| p.error is Some ==> #[trigger] f(p, a) == p,
        forall|p: Plan, a: A| (#[trigger] f(p, a)).error is None ==> good(a),
    ensures
        items.fold_left(start, f).error is None ==> start.error is None && (forall|i: int|
            0 <= i < items.len() ==> good(#[trigger] items[i])),
    decreases items.len(),
{
    if items.len() > 0 {
        fold_stops(items.drop_last(), start, f, good);
        let before = items.drop_last().fold_left(start, f);
        let after = f(before, items.last());
        assert(items.fold_left(start, f) == after);
        if after.error is None {
            assert(good(items.last()));
            assert forall|i: int| 0 <= i < items.len() implies good(#[trigger] items[i]) by {
                if i < items.len() - 1 {
                    assert(items.drop_last()[i] == items[i]);
                }
            }
        }
    }
}

proof fn times_are_read(input: ClassifyApplyInput, refs: Refs, now: Instant)
    ensures
        plan_at(input, refs, now).error is None ==> all_times_read(input, now),
{
    let tag = |p: Plan, d: StreamDef| p.and_tags(d, refs);
    let session = |p: Plan, a: SessionAssignment| p.and_session(a, refs);
    let pattern = |p: Plan, a: PatternAssignment| p.and_pattern(a, refs, now);
    let event = |p: Plan, a: EventIdsAssignment| p.and_events(a, refs);
    let period = |p: Plan, a: TimeAssignment| p.and_period(a, refs, now);
    let good_pattern = |a: PatternAssignment|
        bound_at(a.start, now) is Some && bound_at(a.end, now) is Some;
    let good_period = |a: TimeAssignment|
        util::datetime_at(a.start@, now) is Some && util::datetime_at(a.end@, now) is Some;
    let tagged = input.streams@.fold_left(Plan::empty(), tag);
    let by_session = input.assign_by_session@.fold_left(tagged, session);
    let by_pattern = input.assign_by_pattern@.fold_left(by_session, pattern);
    let by_event = input.assign_by_event_ids@.fold_left(by_pattern, event);
    fold_stops(input.assign_by_time@, by_event, period, good_period);
    fold_stops(input.assign_by_event_ids@, by_pattern, event, |a: EventIdsAssignment| true);
    fold_stops(input.assign_by_pattern@, by_session, pattern, good_pattern);
    if plan_at(input, refs, now).error is None {
        assert forall|i: int| 0 <= i < input.assign_by_pattern@.len() implies ({
            let a = #[trigger] input.assign_by_pattern@[i];
            &&& a.start matches Some(start) ==> util::datetime_at(start@, now) is Some
            &&& a.end matches Some(end) ==> util::datetime_at(end@, now) is Some
        }) by {
            assert(good_pattern(input.assign_by_pattern@[i]));
        }
        assert forall|i: int| 0 <= i < input.assign_by_time@.len() implies ({
            let a = #[trigger] input.assign_by_time@[i];
            util::datetime_at(a.start@, now) is Some && util::datetime_at(a.end@, now) is Some
        }) by {
            assert(good_period(input.assign_by_time@[i]));
        }
    }
}

/// A plan ends in no error exactly where every assignment refers to a known stream and
/// every time that is given is a point in time.
pub proof fn plans_are_sound_where_all_is_known(
    input: ClassifyApplyInput,
    refs: Refs,
    now: Instant,
)
    ensures
        plan_at(input, refs, now).error is None <==> all_streams_known(input, refs)
            && all_times_read(input, now),
{
    plans_name_known_streams(input, refs, now);
    times_are_read(input, refs, now);
    if all_streams_known(input, refs) && all_times_read(input, now) {
        let tag = |p: Plan, d: StreamDef| p.and_tags(d, refs);
        let session = |p: Plan, a: SessionAssignment| p.and_session(a, refs);
        let pattern = |p: Plan, a: PatternAssignment| p.and_pattern(a, refs, now);
        let event = |p: Plan, a: EventIdsAssignment| p.and_events(a, refs);
        let period = |p: Plan, a: TimeAssignment| p.and_period(a, refs, now);
        let good_def = |d: StreamDef| refs.ids.contains_key(d.slug@);
        let good_session = |a: SessionAssignment| refs.ids.contains_key(a.stream@);
        let good_pattern = |a: PatternAssignment|
            refs.ids.contains_key(a.stream@) && bound_at(a.start, now) is Some && bound_at(
                a.end,
                now,
            ) is Some;
        let good_event = |a: EventIdsAssignment| refs.ids.contains_key(a.stream@);
        let good_period = |a: TimeAssignment|
            refs.ids.contains_key(a.stream@) && util::datetime_at(a.start@, now) is Some
                && util::datetime_at(a.end@, now) is Some;
        fold_goes_on(input.streams@, Plan::empty(), tag, good_def);
        let tagged = input.streams@.fold_left(Plan::empty(), tag);
        fold_goes_on(input.assign_by_session@, tagged, session, good_session);
        let by_session = input.assign_by_session@.fold_left(tagged, session);
        assert forall|i: int| 0 <= i < input.assign_by_pattern@.len() implies good_pattern(
            #[trigger] input.assign_by_pattern@[i],
        ) by {}
        fold_goes_on(input.assign_by_pattern@, by_session, pattern, good_pattern);
        let by_pattern = input.assign_by_pattern@.fold_left(by_session, pattern);
        fold_goes_on(input.assign_by_event_ids@, by_pattern, event, good_event);
        let by_event = input.assign_by_event_ids@.fold_left(by_pattern, event);
        fold_goes_on(input.assign_by_time@, by_event, period, good_period);
    }
}

/// Whether a point in time lies within the bounds of a step.
pub open spec fn lies_within(step: ApplyStep, at: Instant) -> bool {
    match step {
        ApplyStep::AssignPattern { from, until, .. } => {
            &&& from matches Some(from) ==> from@.at_most(at)
            &&& until matches Some(until) ==> at.at_most(until@)
        },
        ApplyStep::AssignTime { start, end, .. } => start@.at_most(at) && at.at_most(end@),
        _ => true,
    }
}

/// The bounds of the step for an assignment by pattern hold exactly the points in time
/// that come neither before its start nor after its end, as far as these are given; those
/// for an assignment by period hold exactly what lies between its start and its end.
pub proof fn steps_reach_from_start_to_end(
    plan: ApplyPlan,
    input: ClassifyApplyInput,
    refs: Refs,
    now: Instant,
    i: int,
    at: Instant,
)
    requires
        plan@ == plan_at(input, refs, now),
        plan.error is None,
    ensures
        0 <= i < input.assign_by_pattern@.len() ==> ({
            let a = input.assign_by_pattern@[i];
            let step = plan.steps@[place_of_patterns(input) + i];
            lies_within(step, at) <==> {
                &&& a.start matches Some(start) ==> util::datetime_at(start@, now)->0.at_most(at)
                &&& a.end matches Some(end) ==> at.at_most(util::datetime_at(end@, now)->0)
            }
        }),
        0 <= i < input.assign_by_time@.len() ==> ({
            let a = input.assign_by_time@[i];
            let step = plan.steps@[place_of_periods(input) + i];
            lies_within(step, at) <==> {
                &&& util::datetime_at(a.start@, now)->0.at_most(at)
                &&& at.at_most(util::datetime_at(a.end@, now)->0)
            }
        }),
{
    plans_do_what_is_assigned(plan, input, refs, now);
    if 0 <= i < input.assign_by_pattern@.len() {
        let a = input.assign_by_pattern@[i];
        let step = plan.steps@[place_of_patterns(input) + i];
        assert(does_pattern(step, a, refs, now));
    }
    if 0 <= i < input.assign_by_time@.len() {
        let a = input.assign_by_time@[i];
        let step = plan.steps@[place_of_periods(input) + i];
        assert(does_period(step, a, refs, now));
    }
}

/// A reference stands for the last stream that has it as its slug. Where none has, it
/// stands for the first that has it as its name, and where there is none either, for
/// nothing. `k` is where that stream stands.
pub proof fn references_stand_for_slugs_before_names(
    streams: Seq<Stream>,
    stream_ref: Seq<char>,
) -> (k: int)
    ensures
        Refs::of(streams).find(stream_ref) is None <==> (forall|i: int|
            0 <= i < streams.len() ==> text::opt_text((#[trigger] streams[i]).slug) != Some(
                stream_ref,
            ) && text::opt_text(streams[i].name) != Some(stream_ref)),
        Refs::of(streams).find(stream_ref) matches Some(id) ==> {
            &&& 0 <= k < streams.len() && streams[k].id@ == id
            &&& text::opt_text(streams[k].slug) == Some(stream_ref) ==> (forall|i: int|
                k < i < streams.len() ==> text::opt_text((#[trigger] streams[i]).slug) != Some(
                    stream_ref,
                ))
            &&& text::opt_text(streams[k].slug) != Some(stream_ref) ==> text::opt_text(
                streams[k].name,
            ) == Some(stream_ref) && (forall|i: int|
                0 <= i < streams.len() ==> text::opt_text((#[trigger] streams[i]).slug) != Some(
                    stream_ref,
                )) && (forall|i: int|
                0 <= i < k ==> text::opt_text((#[trigger] streams[i]).name) != Some(stream_ref))
        },
    decreases streams.len(),
{
    if streams.len() == 0 {
        0
    } else {
        let earlier = streams.drop_last();
        let last = streams.len() - 1;
        let k = references_stand_for_slugs_before_names(earlier, stream_ref);
        assert forall|i: int| 0 <= i < last implies earlier[i] == #[trigger] streams[i] by {}
        let s = streams[last];
        if text::opt_text(s.slug) == Some(stream_ref) {
            last
        } else if Refs::of(earlier).find(stream_ref) is Some {
            k
        } else {
            assert forall|i: int| 0 <= i < last implies text::opt_text(
                (#[trigger] streams[i]).slug,
            ) != Some(stream_ref) && text::opt_text(streams[i].name) != Some(stream_ref) by {
                assert(earlier[i] == streams[i]);
            }
            last
        }
    }
}

/// A stream is told of by the last slug that it is listed with. `k` is where it stands
/// so.
pub proof fn streams_are_told_by_their_slugs(streams: Seq<Stream>, id: Seq<char>) -> (k: int)
    ensures
        Refs::of(streams).slugs.contains_key(id) <==> (exists|i: int|
            0 <= i < streams.len() && (#[trigger] streams[i]).id@ == id && streams[i].slug is Some),
        Refs::of(streams).slugs.contains_key(id) ==> 0 <= k < streams.len() && streams[k].id@ == id
            && text::opt_text(streams[k].slug) == Some(Refs::of(streams).slugs[id]) && (forall|
            i: int,
        |
            k < i < streams.len() && (#[trigger] streams[i]).id@ == id ==> streams[i].slug is None),
    decreases streams.len(),
{
    if streams.len() == 0 {
        0
    } else {
        let earlier = streams.drop_last();
        let last = streams.len() - 1;
        let k = streams_are_told_by_their_slugs(earlier, id);
        assert forall|i: int| 0 <= i < last implies earlier[i] == #[trigger] streams[i] by {}
        let s = streams[last];
        if s.id@ == id && s.slug is Some {
            last
        } else {
            if exists|i: int|
                0 <= i < streams.len() && (#[trigger] streams[i]).id@ == id && streams[i].slug
                    is Some {
                let i = choose|i: int|
                    0 <= i < streams.len() && (#[trigger] streams[i]).id@ == id && streams[i].slug
                        is Some;
                assert(earlier[i].id@ == id);
            }
            k
        }
    }
}

/// A definition whose slug is in order goes to the stream that holds the slug where that
/// carries its very name, and makes a new one where none holds it. It is refused where
/// the slug is wrong, for that reason, and where it is held under another name or none.
pub proof fn definitions_are_settled_by_slug_and_name(
    def: StreamDef,
    slug_error: Option<Seq<char>>,
    found: Option<&Stream>,
)
    ensures
        ({
            let s = settlement(def, slug_error, held_by(found));
            &&& slug_error matches Some(error) ==> s == Settlement::Refused(error)
            &&& slug_error is None && found is None <==> s is Created
            &&& slug_error is None ==> (found matches Some(stream) ==> (if text::opt_text(
                stream.name,
            ) == Some(def.name@) {
                s == Settlement::Reused(stream.id@)
            } else {
                s is Refused
            }))
        }),
{
}

/// Every event that a step assigned is counted once; giving a tag assigns none. A session
/// is told of where events of it were assigned to a stream that has a slug, under that
/// slug, and what was told of others stays.
pub proof fn assigned_events_are_counted(
    tally: Tally,
    step: ApplyStep,
    count: nat,
    refs: Refs,
    other: Seq<char>,
)
    ensures
        ({
            let after = tally.and(step@, count, refs);
            &&& after.total == tally.total + (if step is AddTag {
                0
            } else {
                count
            })
            &&& step matches ApplyStep::AssignSession { session_id, stream_id, .. } ==> {
                &&& count > 0 && refs.slugs.contains_key(stream_id@) ==> after.slugs.contains_key(
                    session_id@,
                ) && after.slugs[session_id@] == refs.slugs[stream_id@]
                &&& count == 0 || !refs.slugs.contains_key(stream_id@) ==> after.slugs
                    == tally.slugs
                &&& other != session_id@ ==> after.slugs.contains_key(other)
                    == tally.slugs.contains_key(other) && (tally.slugs.contains_key(other)
                    ==> after.slugs[other] == tally.slugs[other])
            }
            &&& !(step is AssignSession) ==> after.slugs == tally.slugs
        }),
{
}

/// The text that a step failed names what the step is about, and ends with the stream as
/// the assignment names it.
pub proof fn failures_name_their_stream(step: ApplyStep)
    ensures
        ({
            let said = failure_text(step@);
            let named = match step {
                ApplyStep::AddTag { stream, .. } => stream@,
                ApplyStep::AssignSession { stream, .. } => stream@,
                ApplyStep::AssignPattern { stream, .. } => stream@,
                ApplyStep::AssignEventIds { stream, .. } => stream@,
                ApplyStep::AssignTime { stream, .. } => stream@,
            };
            &&& said.len() >= named.len()
            &&& said.skip(said.len() - named.len()) == named
            &&& step matches ApplyStep::AddTag { tag, .. } ==> said.subrange(
                "failed to add tag "@.len() as int,
                ("failed to add tag "@.len() + tag@.len()) as int,
            ) == tag@
            &&& step matches ApplyStep::AssignSession { session_id, .. } ==> said.subrange(
                "failed to assign session "@.len() as int,
                ("failed to assign session "@.len() + session_id@.len()) as int,
            ) == session_id@
            &&& step matches ApplyStep::AssignPattern { cwd_like, .. } ==> said.subrange(
                "failed to assign events matching "@.len() as int,
                ("failed to assign events matching "@.len() + cwd_like@.len()) as int,
            ) == cwd_like@
        }),
{
    let said = failure_text(step@);
    match step {
        ApplyStep::AddTag { tag, stream, .. } => {
            assert(said.skip(said.len() - stream@.len()) =~= stream@);
            let start = "failed to add tag "@.len() as int;
            assert(said.subrange(start, start + tag@.len()) =~= tag@);
        },
        ApplyStep::AssignSession { session_id, stream, .. } => {
            assert(said.skip(said.len() - stream@.len()) =~= stream@);
            let start = "failed to assign session "@.len() as int;
            assert(said.subrange(start, start + session_id@.len()) =~= session_id@);
        },
        ApplyStep::AssignPattern { cwd_like, stream, .. } => {
            assert(said.skip(said.len() - stream@.len()) =~= stream@);
            let start = "failed to assign events matching "@.len() as int;
            assert(said.subrange(start, start + cwd_like@.len()) =~= cwd_like@);
        },
        ApplyStep::AssignEventIds { stream, .. } => {
            assert(said.skip(said.len() - stream@.len()) =~= stream@);
        },
        ApplyStep::AssignTime { stream, .. } => {
            assert(said.skip(said.len() - stream@.len()) =~= stream@);
        },
    }
}

/// The messages name what they are about: the reference that stands for no stream; the
/// slug, its owner and the name that is refused, in that order; and of a created stream
/// its name, its slug and the start of its id.
pub proof fn messages_name_what_they_are_about(
    stream_ref: Seq<char>,
    slug: Seq<char>,
    owner: Option<Seq<char>>,
    name: Seq<char>,
    def: StreamDef,
    id: Seq<char>,
)
    requires
        id.len() >= 8,
    ensures
        text::stands_in("unknown stream: '"@ + stream_ref + "'"@, unknown_stream(stream_ref)),
        text::stands_in(
            "slug '"@ + slug + "' already belongs to stream '"@ + (match owner {
                Some(owner) => owner,
                None => "(unnamed)"@,
            }) + "'; refusing to reuse it for '"@ + name + "'"@,
            slug_taken(slug, owner, name),
        ),
        text::stands_in(
            "Created stream: "@ + def.name@ + " ["@ + def.slug@ + "] ("@ + id.subrange(0, 8)
                + ")"@,
            created_line(def, id),
        ),
{
    let none = Seq::<char>::empty();
    reveal_strlit("' — define it in \"streams\" or use an existing slug");
    reveal_strlit("'");
    let end = "' — define it in \"streams\" or use an existing slug"@;
    assert(end =~= "'"@ + end.skip(1));
    assert(unknown_stream(stream_ref) =~= none + ("unknown stream: '"@ + stream_ref + "'"@)
        + end.skip(1));
    let taken = slug_taken(slug, owner, name);
    assert(taken =~= none + taken + none);
    let created = created_line(def, id);
    assert(id.take(8) =~= id.subrange(0, 8));
    assert(created =~= none + created + none);
}

/// The closing line tells how many events were assigned, and that none were where none
/// were.
pub proof fn the_total_is_told(total: nat)
    ensures
        total > 0 ==> text::stands_in(
            "Assigned "@ + text::decimal(total) + " events"@,
            closing_line(total),
        ),
        total == 0 ==> closing_line(total) == "No events to assign."@,
{
    reveal_strlit(" events. Recomputing...");
    reveal_strlit(" events");
    reveal_strlit(". Recomputing...");
    assert(" events. Recomputing..."@ =~= " events"@ + ". Recomputing..."@);
    if total > 0 {
        assert(closing_line(total) =~= Seq::empty() + ("Assigned "@ + text::decimal(total)
            + " events"@) + ". Recomputing..."@);
    }
}

} // verus!
