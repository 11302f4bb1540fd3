//! Logs: which files are logs, where reading them resumes, and what their lines
//! give.
use vstd::hash_map::StringHashMap;
use vstd::prelude::*;
use vstd::string::*;

use crate::export;
use crate::export::{process_claude_entry, EventView, ExportEvent, Recorder, SeenSessions};
use crate::json;
use crate::text;

verus! {

broadcast use vstd::seq_lib::group_seq_properties;

/// Where the line that starts at `from` ends: behind its newline, or at the end.
pub open spec fn line_end(bytes: Seq<u8>, from: int) -> int {
    let k = text::seek(bytes, 10u8, from);
    if k < bytes.len() {
        k + 1
    } else {
        bytes.len() as int
    }
}

fn end_of_line(bytes: &Vec<u8>, from: usize) -> (r: usize)
    requires
        from < bytes@.len(),
    ensures
        r == line_end(bytes@, from as int),
        from < r <= bytes@.len(),
{
    let k: usize = text::find_byte(bytes.as_slice(), 10, from);
    if k < bytes.len() {
        k + 1
    } else {
        k
    }
}

/// The text of the line in `bytes[from..to]`; `None` where it is not UTF-8.
pub open spec fn line_text(bytes: Seq<u8>, from: int, to: int) -> Option<Seq<char>> {
    if vstd::utf8::valid_utf8(bytes.subrange(from, to)) {
        Some(vstd::utf8::decode_utf8(bytes.subrange(from, to)))
    } else {
        None
    }
}

fn text_of_line(bytes: &Vec<u8>, from: usize, to: usize) -> (r: Option<String>)
    requires
        from <= to <= bytes@.len(),
    ensures
        text::opt_text(r) == line_text(bytes@, from as int, to as int),
{
    let mut line: Vec<u8> = Vec::new();
    let mut i: usize = from;
    while i < to
        invariant
            from <= i <= to <= bytes@.len(),
            line@ == bytes@.subrange(from as int, i as int),
        decreases to - i,
    {
        line.push(bytes[i]);
        proof {
            assert(line@ =~= bytes@.subrange(from as int, i + 1));
        }
        i += 1;
    }
    text::utf8_text(line)
}

/// What reading a session log gives.
pub struct LogView {
    pub events: Seq<EventView>,
    /// The sessions that have been met.
    pub seen: Set<Seq<char>>,
    /// How far the log has been read for good.
    pub position: int,
}

/// What reading a session log gives from the line at `from` on, where it has been
/// read for good up to `good`. A line that is no JSON is passed over, and is read
/// again next time unless a later line succeeds. Reading stops at a line that is no
/// UTF-8.
pub open spec fn read_log(
    bytes: Seq<u8>,
    from: int,
    good: int,
    seen: Set<Seq<char>>,
    by: Recorder,
) -> LogView
    decreases bytes.len() - from,
{
    let end = line_end(bytes, from);
    if from >= bytes.len() || end <= from {
        LogView { events: Seq::empty(), seen, position: good }
    } else {
        match line_text(bytes, from, end) {
            None => LogView { events: Seq::empty(), seen, position: good },
            Some(line) => if text::trimmed(line).len() == 0 {
                read_log(bytes, end, end, seen, by)
            } else {
                match json::parsed_json(line) {
                    None => read_log(bytes, end, good, seen, by),
                    Some(entry) => {
                        let rest = read_log(
                            bytes,
                            end,
                            end,
                            export::seen_after(entry, seen),
                            by,
                        );
                        LogView {
                            events: export::entry_events(entry, seen, by) + rest.events,
                            seen: rest.seen,
                            position: rest.position,
                        }
                    },
                }
            },
        }
    }
}

/// Reads a session log: adds the events of its lines to `out`, and says how far the
/// log has been read for good.
pub fn read_session_log(
    bytes: &Vec<u8>,
    seen: &mut SeenSessions,
    by: &Recorder,
    out: &mut Vec<ExportEvent>,
) -> (r: usize)
    ensures
        r <= bytes@.len(),
        ({
            let log = read_log(bytes@, 0, 0, old(seen)@, *by);
            &&& r == log.position
            &&& final(seen)@ == log.seen
            &&& export::views(final(out)@) == export::views(old(out)@) + log.events
        }),
{
    let ghost start = export::views(out@);
    let ghost whole = read_log(bytes@, 0, 0, seen@, *by);
    let mut from: usize = 0;
    let mut good: usize = 0;
    proof {
        assert(start + whole.events =~= export::views(out@) + whole.events);
    }
    while from < bytes.len()
        invariant
            good <= from <= bytes@.len(),
            start == export::views(old(out)@),
            whole == read_log(bytes@, 0, 0, old(seen)@, *by),
            ({
                let rest = read_log(bytes@, from as int, good as int, seen@, *by);
                &&& whole.position == rest.position
                &&& whole.seen == rest.seen
                &&& start + whole.events == export::views(out@) + rest.events
            }),
        decreases bytes@.len() - from,
    {
        let end: usize = end_of_line(bytes, from);
        let line: String = match text_of_line(bytes, from, end) {
            Some(line) => line,
            None => {
                proof {
                    assert(start + whole.events =~= export::views(out@));
                }
                return good;
            },
        };
        if text::is_blank(line.as_str()) {
            good = end;
        } else if let Some(entry) = json::read_json(line.as_str()) {
            let ghost before = export::views(out@);
            let ghost made = export::entry_events(json::content(entry), seen@, *by);
            let ghost rest = read_log(
                bytes@,
                end as int,
                end as int,
                export::seen_after(json::content(entry), seen@),
                *by,
            );
            process_claude_entry(&entry, seen, by, out);
            good = end;
            proof {
                assert(before + (made + rest.events) =~= (before + made) + rest.events);
            }
        }
        from = end;
    }
    proof {
        assert(start + whole.events =~= export::views(out@));
    }
    good
}

/// Where reading a log of `size` bytes resumes: where it was left, or at its start
/// where it has become shorter since.
pub fn resume_offset(start: u64, size: u64) -> (r: u64)
    ensures
        r == if start > size {
            0u64
        } else {
            start
        },
{
    if start > size {
        0
    } else {
        start
    }
}

proof fn seek_within(first: Seq<u8>, more: Seq<u8>, from: int)
    requires
        0 <= from < first.len(),
        first.last() == 10u8,
    ensures
        line_end(first + more, from) == line_end(first, from),
        from < line_end(first, from) <= first.len(),
    decreases first.len() - from,
{
    assert((first + more)[from] == first[from]);
    if first[from] != 10u8 {
        assert(from + 1 < first.len());
        seek_within(first, more, from + 1);
    }
}

proof fn seek_beyond(first: Seq<u8>, more: Seq<u8>, from: int)
    requires
        0 <= from <= more.len(),
    ensures
        line_end(first + more, first.len() + from) == first.len() + line_end(more, from),
        text::seek(first + more, 10u8, first.len() + from) == first.len() + text::seek(
            more,
            10u8,
            from,
        ),
    decreases more.len() - from,
{
    if from < more.len() {
        assert((first + more)[first.len() + from] == more[from]);
        if more[from] != 10u8 {
            seek_beyond(first, more, from + 1);
        }
    }
}

proof fn reading_shifts(
    first: Seq<u8>,
    more: Seq<u8>,
    from: int,
    good: int,
    seen: Set<Seq<char>>,
    by: Recorder,
)
    requires
        0 <= from <= more.len(),
    ensures
        ({
            let whole = read_log(
                first + more,
                first.len() + from,
                first.len() + good,
                seen,
                by,
            );
            let rest = read_log(more, from, good, seen, by);
            &&& whole.events == rest.events
            &&& whole.seen == rest.seen
            &&& whole.position == first.len() + rest.position
        }),
    decreases more.len() - from,
{
    if from < more.len() {
        let end = line_end(more, from);
        seek_beyond(first, more, from);
        text::seek_is_first(more, 10u8, from);
        assert((first + more).subrange(first.len() + from, first.len() + end) =~= more.subrange(
            from,
            end,
        ));
        if let Some(line) = line_text(more, from, end) {
            if text::trimmed(line).len() == 0 {
                reading_shifts(first, more, end, end, seen, by);
            } else if let Some(entry) = json::parsed_json(line) {
                reading_shifts(
                    first,
                    more,
                    end,
                    end,
                    export::seen_after(entry, seen),
                    by,
                );
            } else {
                reading_shifts(first, more, end, good, seen, by);
            }
        }
    }
}

proof fn position_reaches_the_end(
    bytes: Seq<u8>,
    from: int,
    good: int,
    seen: Set<Seq<char>>,
    by: Recorder,
)
    requires
        0 <= good <= from <= bytes.len(),
    ensures
        good <= read_log(bytes, from, good, seen, by).position <= bytes.len(),
    decreases bytes.len() - from,
{
    if from < bytes.len() {
        let end = line_end(bytes, from);
        text::seek_is_first(bytes, 10u8, from);
        if let Some(line) = line_text(bytes, from, end) {
            if text::trimmed(line).len() == 0 {
                position_reaches_the_end(bytes, end, end, seen, by);
            } else if let Some(entry) = json::parsed_json(line) {
                position_reaches_the_end(
                    bytes,
                    end,
                    end,
                    export::seen_after(entry, seen),
                    by,
                );
            } else {
                position_reaches_the_end(bytes, end, good, seen, by);
            }
        }
    }
}

proof fn reading_splits(
    first: Seq<u8>,
    more: Seq<u8>,
    from: int,
    good: int,
    seen: Set<Seq<char>>,
    by: Recorder,
)
    requires
        0 <= good <= from <= first.len(),
        first.len() > 0 ==> first.last() == 10u8,
        read_log(first, from, good, seen, by).position == first.len(),
    ensures
        ({
            let whole = read_log(first + more, from, good, seen, by);
            let before = read_log(first, from, good, seen, by);
            let after = read_log(more, 0, 0, before.seen, by);
            &&& whole.events == before.events + after.events
            &&& whole.seen == after.seen
            &&& whole.position == first.len() + after.position
        }),
    decreases first.len() - from,
{
    let before = read_log(first, from, good, seen, by);
    let after = read_log(more, 0, 0, before.seen, by);
    if from == first.len() {
        reading_shifts(first, more, 0, 0, seen, by);
        assert(before.events + after.events =~= after.events);
    } else {
        let end = line_end(first, from);
        seek_within(first, more, from);
        assert((first + more).subrange(from, end) =~= first.subrange(from, end));
        if let Some(line) = line_text(first, from, end) {
            if text::trimmed(line).len() == 0 {
                reading_splits(first, more, end, end, seen, by);
            } else if let Some(entry) = json::parsed_json(line) {
                let met = export::seen_after(entry, seen);
                reading_splits(first, more, end, end, met, by);
                let made = export::entry_events(entry, seen, by);
                let rest = read_log(first, end, end, met, by);
                assert(made + (rest.events + after.events) =~= (made + rest.events)
                    + after.events);
            } else {
                reading_splits(first, more, end, good, seen, by);
            }
        }
    }
}

/// A log that has been read to the end of its last line gives, together with what
/// is appended later, the same events as the two parts read one after the other.
pub proof fn reading_resumes(
    first: Seq<u8>,
    more: Seq<u8>,
    seen: Set<Seq<char>>,
    by: Recorder,
)
    requires
        first.len() > 0 ==> first.last() == 10u8,
        read_log(first, 0, 0, seen, by).position == first.len(),
    ensures
        ({
            let whole = read_log(first + more, 0, 0, seen, by);
            let before = read_log(first, 0, 0, seen, by);
            let after = read_log(more, 0, 0, before.seen, by);
            &&& whole.events == before.events + after.events
            &&& whole.seen == after.seen
            &&& whole.position == first.len() + after.position
        }),
{
    reading_splits(first, more, 0, 0, seen, by);
}

proof fn nothing_good_gives_nothing(
    bytes: Seq<u8>,
    from: int,
    good: int,
    seen: Set<Seq<char>>,
    by: Recorder,
)
    requires
        0 <= good <= from <= bytes.len(),
    ensures
        ({
            let log = read_log(bytes, from, good, seen, by);
            &&& log.position == good ==> log.events.len() == 0 && log.seen == seen
            &&& log.position != good ==> log.position > from
        }),
    decreases bytes.len() - from,
{
    if from < bytes.len() {
        let end = line_end(bytes, from);
        text::seek_is_first(bytes, 10u8, from);
        if let Some(line) = line_text(bytes, from, end) {
            if text::trimmed(line).len() == 0 {
                position_reaches_the_end(bytes, end, end, seen, by);
            } else if let Some(entry) = json::parsed_json(line) {
                position_reaches_the_end(bytes, end, end, export::seen_after(entry, seen), by);
            } else {
                nothing_good_gives_nothing(bytes, end, good, seen, by);
            }
        }
    }
}

proof fn the_rest_gives_nothing(
    bytes: Seq<u8>,
    from: int,
    good: int,
    seen: Set<Seq<char>>,
    by: Recorder,
)
    requires
        0 <= good <= from <= bytes.len(),
        ({
            let reached = read_log(bytes, from, good, seen, by).position;
            from <= reached && (reached > 0 ==> bytes[reached - 1] == 10u8)
        }),
    ensures
        ({
            let log = read_log(bytes, from, good, seen, by);
            let part = read_log(bytes.take(log.position), from, good, seen, by);
            &&& log.position <= bytes.len()
            &&& part.events == log.events
            &&& part.seen == log.seen
            &&& part.position == log.position
        }),
    decreases bytes.len() - from,
{
    let log = read_log(bytes, from, good, seen, by);
    let reached = log.position;
    position_reaches_the_end(bytes, from, good, seen, by);
    nothing_good_gives_nothing(bytes, from, good, seen, by);
    let part = bytes.take(reached);
    if from < reached {
        let end = line_end(bytes, from);
        text::seek_is_first(bytes, 10u8, from);
        assert(part + bytes.skip(reached) =~= bytes);
        assert(part.last() == 10u8);
        seek_within(part, bytes.skip(reached), from);
        assert(part.subrange(from, end) =~= bytes.subrange(from, end));
        if let Some(line) = line_text(bytes, from, end) {
            if text::trimmed(line).len() == 0 {
                the_rest_gives_nothing(bytes, end, end, seen, by);
            } else if let Some(entry) = json::parsed_json(line) {
                the_rest_gives_nothing(bytes, end, end, export::seen_after(entry, seen), by);
            } else {
                nothing_good_gives_nothing(bytes, end, good, seen, by);
                the_rest_gives_nothing(bytes, end, good, seen, by);
            }
        }
    } else {
        assert(log.events =~= Seq::empty());
    }
}

/// Nothing is lost and nothing comes twice where a log is read, grows, and is read on
/// from where it was left: the events are those of the whole log. That place must lie
/// behind a line that had ended, as a last line without its newline may still grow.
pub proof fn reading_goes_on_where_it_was_left(
    first: Seq<u8>,
    more: Seq<u8>,
    seen: Set<Seq<char>>,
    by: Recorder,
)
    requires
        ({
            let reached = read_log(first, 0, 0, seen, by).position;
            reached > 0 ==> first[reached - 1] == 10u8
        }),
    ensures
        ({
            let whole = read_log(first + more, 0, 0, seen, by);
            let before = read_log(first, 0, 0, seen, by);
            let after = read_log((first + more).skip(before.position), 0, 0, before.seen, by);
            &&& whole.events == before.events + after.events
            &&& whole.seen == after.seen
            &&& whole.position == before.position + after.position
        }),
{
    let reached = read_log(first, 0, 0, seen, by).position;
    position_reaches_the_end(first, 0, 0, seen, by);
    the_rest_gives_nothing(first, 0, 0, seen, by);
    let kept = first.take(reached);
    let rest = (first + more).skip(reached);
    assert(kept + rest =~= first + more);
    reading_resumes(kept, rest, seen, by);
}

/// A log is read for good up to a place within it.
pub proof fn positions_lie_within(bytes: Seq<u8>, seen: Set<Seq<char>>, by: Recorder)
    ensures
        0 <= read_log(bytes, 0, 0, seen, by).position <= bytes.len(),
{
    position_reaches_the_end(bytes, 0, 0, seen, by);
}

/// Whether an event is the start of a session.
pub open spec fn starts(event: EventView, session_id: Seq<char>) -> bool {
    event.data matches export::DataView::AgentSession { session_id: s, .. } && s == session_id
}

/// The events that start a session.
pub open spec fn starts_in(events: Seq<EventView>, session_id: Seq<char>) -> Seq<EventView> {
    events.filter(|e: EventView| starts(e, session_id))
}

proof fn tools_start_nothing(
    items: Seq<json::JsonView>,
    session_id: Seq<char>,
    timestamp: Seq<char>,
    by: Recorder,
    of: Seq<char>,
)
    ensures
        starts_in(export::tool_events(items, session_id, timestamp, by), of).len() == 0,
    decreases items.len(),
{
    let pred = |e: EventView| starts(e, of);
    if items.len() == 0 {
        reveal(Seq::filter);
    } else {
        tools_start_nothing(items.drop_last(), session_id, timestamp, by, of);
        let rest = export::tool_events(items.drop_last(), session_id, timestamp, by);
        let last = export::tool_event(items.last(), session_id, timestamp, by);
        Seq::filter_distributes_over_add(rest, last, pred);
        assert(last.filter(pred).len() == 0) by {
            reveal(Seq::filter);
            if last.len() > 0 {
                assert(last.drop_last() =~= Seq::empty());
                assert(last.drop_last().filter(pred) =~= Seq::empty());
                assert(!pred(last.last()));
            }
        }
    }
}

proof fn entry_starts(
    entry: json::JsonView,
    seen: Set<Seq<char>>,
    by: Recorder,
    of: Seq<char>,
)
    ensures
        starts_in(export::entry_events(entry, seen, by), of).len() == (if !seen.contains(of)
            && export::seen_after(entry, seen).contains(of) {
            1int
        } else {
            0
        }),
{
    let pred = |e: EventView| starts(e, of);
    match export::told_of(entry) {
        Some((session_id, timestamp)) => {
            let told = export::told_events(entry, session_id, timestamp, by);
            assert(told.filter(pred).len() == 0) by {
                if export::type_of(entry) == "user"@ {
                    reveal_with_fuel(Seq::filter, 2);
                } else if export::type_of(entry) == "assistant"@ {
                    match export::message_content(entry) {
                        Some(json::JsonView::Array(items)) => {
                            tools_start_nothing(items, session_id, timestamp, by, of);
                        },
                        _ => {
                            reveal(Seq::filter);
                        },
                    }
                } else {
                    reveal(Seq::filter);
                }
            }
            let start = export::start_event(
                session_id,
                timestamp,
                entry.text_at("cwd"@),
                by,
            );
            let first = if seen.contains(session_id) {
                Seq::empty()
            } else {
                seq![start]
            };
            Seq::filter_distributes_over_add(first, told, pred);
            assert(first.filter(pred).len() == (if !seen.contains(session_id) && session_id
                == of {
                1int
            } else {
                0
            })) by {
                reveal_with_fuel(Seq::filter, 2);
                if !seen.contains(session_id) {
                    assert(first.drop_last() =~= Seq::empty());
                    assert(pred(start) == (session_id == of));
                }
            }
        },
        None => {
            reveal(Seq::filter);
        },
    }
}

proof fn log_starts(
    bytes: Seq<u8>,
    from: int,
    good: int,
    seen: Set<Seq<char>>,
    by: Recorder,
    of: Seq<char>,
)
    ensures
        ({
            let log = read_log(bytes, from, good, seen, by);
            &&& seen.subset_of(log.seen)
            &&& starts_in(log.events, of).len() == (if !seen.contains(of) && log.seen.contains(
                of,
            ) {
                1int
            } else {
                0
            })
        }),
    decreases bytes.len() - from,
{
    let pred = |e: EventView| starts(e, of);
    let end = line_end(bytes, from);
    assert(Seq::<EventView>::empty().filter(pred).len() == 0) by {
        reveal(Seq::filter);
    }
    if from < bytes.len() && end > from {
        if let Some(line) = line_text(bytes, from, end) {
            if text::trimmed(line).len() == 0 {
                log_starts(bytes, end, end, seen, by, of);
            } else if let Some(entry) = json::parsed_json(line) {
                let met = export::seen_after(entry, seen);
                log_starts(bytes, end, end, met, by, of);
                entry_starts(entry, seen, by, of);
                let made = export::entry_events(entry, seen, by);
                let rest = read_log(bytes, end, end, met, by);
                Seq::filter_distributes_over_add(made, rest.events, pred);
            } else {
                log_starts(bytes, end, good, seen, by, of);
            }
        }
    }
}

/// The start of a session is reported once, and never for a session that has been
/// met before.
pub proof fn sessions_start_once(
    bytes: Seq<u8>,
    seen: Set<Seq<char>>,
    by: Recorder,
    session_id: Seq<char>,
)
    ensures
        ({
            let log = read_log(bytes, 0, 0, seen, by);
            &&& starts_in(log.events, session_id).len() == (if !seen.contains(session_id)
                && log.seen.contains(session_id) {
                1int
            } else {
                0
            })
            &&& seen.subset_of(log.seen)
        }),
{
    log_starts(bytes, 0, 0, seen, by, session_id);
}

/// Where recorded reading left each log.
pub struct ClaudeManifest {
    /// For each log's path, how many of its bytes have been read for good.
    pub sessions: StringHashMap<u64>,
}

impl Default for ClaudeManifest {
    fn default() -> (r: Self)
        ensures
            r.sessions@ == Map::<Seq<char>, u64>::empty(),
    {
        ClaudeManifest { sessions: StringHashMap::new() }
    }
}

impl ClaudeManifest {
    /// Where reading of a log was left; its start where nothing is recorded.
    pub fn offset(&self, path: &str) -> (r: u64)
        ensures
            r == if self.sessions@.contains_key(path@) {
                self.sessions@[path@]
            } else {
                0u64
            },
    {
        match self.sessions.get(path) {
            Some(offset) => *offset,
            None => 0,
        }
    }

    /// Records how far a log has been read; what is recorded stays where reading it
    /// failed.
    pub fn record(&mut self, path: &str, reached: Option<u64>)
        ensures
            final(self).sessions@ == match reached {
                Some(offset) => old(self).sessions@.insert(path@, offset),
                None => old(self).sessions@,
            },
    {
        if let Some(offset) = reached {
            self.sessions.insert(path.to_owned(), offset);
        }
    }

    /// Keeps the logs that still exist, and no others.
    pub fn retain(&mut self, paths: &Vec<String>)
        ensures
            final(self).sessions@ == old(self).sessions@.restrict(text::texts(paths@).to_set()),
    {
        let ghost all = self.sessions@;
        let ghost names = text::texts(paths@);
        let mut kept: StringHashMap<u64> = StringHashMap::new();
        let mut i: usize = 0;
        proof {
            assert(names.take(0).to_set() =~= Set::empty());
            assert(all.restrict(Set::<Seq<char>>::empty()) =~= Map::empty());
        }
        while i < paths.len()
            invariant
                i <= paths@.len(),
                names == text::texts(paths@),
                self.sessions@ == all,
                kept@ == all.restrict(names.take(i as int).to_set()),
            decreases paths@.len() - i,
        {
            let path: &String = &paths[i];
            proof {
                assert(names.take(i + 1) =~= names.take(i as int).push(path@));
                assert(names.take(i + 1).to_set() =~= names.take(i as int).to_set().insert(path@));
            }
            if let Some(offset) = self.sessions.get(path.as_str()) {
                kept.insert(path.as_str().to_owned(), *offset);
            }
            proof {
                assert(kept@ =~= all.restrict(names.take(i + 1).to_set()));
            }
            i += 1;
        }
        proof {
            assert(names.take(i as int) =~= names);
        }
        self.sessions = kept;
    }
}

/// Whether a directory holds the logs of a project.
pub open spec fn holds_logs(name: Seq<char>) -> bool {
    name != "subagents"@
}

/// Whether a directory holds the logs of a project.
pub fn is_project_dir(name: &str) -> (r: bool)
    ensures
        r == holds_logs(name@),
{
    !text::same(name, "subagents")
}

/// Whether a file's name has the extension `jsonl`: the name has a dot that is not
/// its first character, and `jsonl` follows the last dot.
pub open spec fn is_log_name(name: Seq<char>) -> bool {
    let dot = text::seek_back(name, '.', name.len() as int);
    dot > 0 && name.skip(dot + 1) == "jsonl"@
}

/// Whether a file is a session log, by its name.
pub fn is_session_log(name: &str) -> (r: bool)
    ensures
        r == is_log_name(name@),
{
    let chars = text::chars_of(name);
    let count: usize = chars.len();
    match text::find_last_char(&chars, '.') {
        Some(dot) => {
            let extension = text::string_from(&chars, dot + 1, count);
            proof {
                assert(extension@ =~= name@.skip(dot + 1));
            }
            dot > 0 && text::same(extension.as_str(), "jsonl")
        },
        None => false,
    }
}

/// A line without the newline that ended it.
pub open spec fn without_newline(line: Seq<char>) -> Seq<char> {
    if line.len() > 0 && line.last() == '\n' {
        text::without_return(line.drop_last())
    } else {
        line
    }
}

fn strip_newline(line: &str) -> (r: String)
    ensures
        r@ == without_newline(line@),
{
    let chars = text::chars_of(line);
    let mut end: usize = chars.len();
    if end > 0 && chars[end - 1] == '\n' {
        end -= 1;
        if end > 0 && chars[end - 1] == '\r' {
            end -= 1;
        }
    }
    let r = text::string_from(&chars, 0, end);
    proof {
        assert(r@ =~= without_newline(line@));
    }
    r
}

/// The lines of the tmux log that are passed on, from the line at `from` on. Lines
/// that are blank, no UTF-8 or no JSON are left out; so are, until the line with the
/// id `after` has been passed, all others, and that line too.
pub open spec fn passed_lines(
    bytes: Seq<u8>,
    from: int,
    past: bool,
    after: Option<Seq<char>>,
) -> Seq<Seq<char>>
    decreases bytes.len() - from,
{
    let end = line_end(bytes, from);
    if from >= bytes.len() || end <= from {
        Seq::empty()
    } else {
        match line_text(bytes, from, end) {
            None => passed_lines(bytes, end, past, after),
            Some(whole) => {
                let line = without_newline(whole);
                if text::trimmed(line).len() == 0 {
                    passed_lines(bytes, end, past, after)
                } else if !past {
                    passed_lines(
                        bytes,
                        end,
                        after matches Some(id) && text::contains_text(line, id),
                        after,
                    )
                } else if json::is_raw_json(line) {
                    seq![line] + passed_lines(bytes, end, past, after)
                } else {
                    passed_lines(bytes, end, past, after)
                }
            },
        }
    }
}

/// Picks the lines of the tmux log that are passed on; with `after`, those behind the
/// line that holds this id.
pub fn export_tmux_events(bytes: &Vec<u8>, after: Option<&str>) -> (r: Vec<String>)
    ensures
        text::texts(r@) == passed_lines(bytes@, 0, after is None, text::opt_str(after)),
{
    let ghost id = text::opt_str(after);
    let mut past: bool = after.is_none();
    let mut out: Vec<String> = Vec::new();
    let mut from: usize = 0;
    let ghost whole = passed_lines(bytes@, 0, past, id);
    proof {
        assert(text::texts(out@) + whole =~= whole);
    }
    while from < bytes.len()
        invariant
            from <= bytes@.len(),
            id == text::opt_str(after),
            whole == text::texts(out@) + passed_lines(bytes@, from as int, past, id),
        decreases bytes@.len() - from,
    {
        let end: usize = end_of_line(bytes, from);
        if let Some(read) = text_of_line(bytes, from, end) {
            let line = strip_newline(read.as_str());
            if !text::is_blank(line.as_str()) {
                if !past {
                    past = match after {
                        Some(id) => text::contains(line.as_str(), id),
                        None => false,
                    };
                } else if json::reads_as_raw(line.as_str()) {
                    let ghost before = text::texts(out@);
                    let ghost rest = passed_lines(bytes@, end as int, past, id);
                    let ghost passed = line@;
                    out.push(line);
                    proof {
                        assert(text::texts(out@) =~= before + seq![passed]);
                        assert(before + (seq![passed] + rest) =~= (before + seq![passed]) + rest);
                    }
                }
            }
        }
        from = end;
    }
    proof {
        assert(text::texts(out@) + passed_lines(bytes@, from as int, past, id) =~= text::texts(
            out@,
        ));
    }
    out
}

proof fn lines_pass(bytes: Seq<u8>, from: int, past: bool, after: Option<Seq<char>>, i: int)
    requires
        0 <= i < passed_lines(bytes, from, past, after).len(),
        0 <= from,
    ensures
        json::is_raw_json(passed_lines(bytes, from, past, after)[i]),
        exists|start: int| #[trigger]
            is_line_at(bytes, start, passed_lines(bytes, from, past, after)[i]),
    decreases bytes.len() - from,
{
    let end = line_end(bytes, from);
    let all = passed_lines(bytes, from, past, after);
    if from < bytes.len() {
        text::seek_is_first(bytes, 10u8, from);
        match line_text(bytes, from, end) {
            None => {
                lines_pass(bytes, end, past, after, i);
            },
            Some(whole) => {
                let line = without_newline(whole);
                if text::trimmed(line).len() == 0 {
                    lines_pass(bytes, end, past, after, i);
                } else if !past {
                    lines_pass(
                        bytes,
                        end,
                        after matches Some(id) && text::contains_text(line, id),
                        after,
                        i,
                    );
                } else if json::is_raw_json(line) {
                    if i == 0 {
                        assert(all[0] == line);
                        assert(is_line_at(bytes, from, all[i]));
                    } else {
                        lines_pass(bytes, end, past, after, i - 1);
                    }
                } else {
                    lines_pass(bytes, end, past, after, i);
                }
            },
        }
    }
}

/// Whether a line of the log starts at a place and has a text.
pub open spec fn is_line_at(bytes: Seq<u8>, start: int, line: Seq<char>) -> bool {
    &&& 0 <= start < bytes.len()
    &&& line_text(bytes, start, line_end(bytes, start)) matches Some(whole) && without_newline(
        whole,
    ) == line
}

/// Every line that is passed on is JSON and stands in the log as it is.
pub proof fn lines_pass_unchanged(bytes: Seq<u8>, after: Option<Seq<char>>, i: int)
    requires
        0 <= i < passed_lines(bytes, 0, after is None, after).len(),
    ensures
        json::is_raw_json(passed_lines(bytes, 0, after is None, after)[i]),
        exists|start: int| #[trigger]
            is_line_at(bytes, start, passed_lines(bytes, 0, after is None, after)[i]),
{
    lines_pass(bytes, 0, after is None, after, i);
}

proof fn past_the_line_all_passes(bytes: Seq<u8>, from: int, after: Option<Seq<char>>)
    ensures
        passed_lines(bytes, from, true, after) == passed_lines(bytes, from, true, None),
    decreases bytes.len() - from,
{
    let end = line_end(bytes, from);
    if from < bytes.len() && end > from {
        past_the_line_all_passes(bytes, end, after);
    }
}

/// What a line that is waited past leaves out: itself, where it would be passed on.
#[verifier::spinoff_prover]
proof fn a_waiting_line_is_left_out(
    bytes: Seq<u8>,
    from: int,
    after: Option<Seq<char>>,
    whole: Seq<char>,
    skipped: int,
)
    requires
        from < bytes.len(),
        from < line_end(bytes, from),
        line_text(bytes, from, line_end(bytes, from)) == Some(whole),
        text::trimmed(without_newline(whole)).len() > 0,
        ({
            let end = line_end(bytes, from);
            let past = after matches Some(id) && text::contains_text(without_newline(whole), id);
            let later = passed_lines(bytes, end, true, None);
            &&& 0 <= skipped <= later.len()
            &&& passed_lines(bytes, end, past, after) == later.skip(skipped)
        }),
    ensures
        ({
            let all = passed_lines(bytes, from, true, None);
            let left = if json::is_raw_json(without_newline(whole)) {
                skipped + 1
            } else {
                skipped
            };
            &&& left <= all.len()
            &&& passed_lines(bytes, from, false, after) == all.skip(left)
        }),
{
    let line = without_newline(whole);
    let end = line_end(bytes, from);
    let all = passed_lines(bytes, from, true, None);
    let later = passed_lines(bytes, end, true, None);
    if json::is_raw_json(line) {
        assert(all == seq![line] + later);
        assert(all.skip(skipped + 1) =~= later.skip(skipped));
    } else {
        assert(all == later);
    }
}

#[verifier::spinoff_prover]
proof fn waiting_only_leaves_out(
    bytes: Seq<u8>,
    from: int,
    past: bool,
    after: Option<Seq<char>>,
) -> (skipped: int)
    ensures
        0 <= skipped <= passed_lines(bytes, from, true, None).len(),
        passed_lines(bytes, from, past, after) == passed_lines(bytes, from, true, None).skip(
            skipped,
        ),
    decreases bytes.len() - from,
{
    let all = passed_lines(bytes, from, true, None);
    let end = line_end(bytes, from);
    if past {
        past_the_line_all_passes(bytes, from, after);
        assert(all.skip(0) =~= all);
        0
    } else if from >= bytes.len() || end <= from {
        assert(all.skip(0) =~= all);
        0
    } else {
        match line_text(bytes, from, end) {
            None => waiting_only_leaves_out(bytes, end, past, after),
            Some(whole) => {
                let line = without_newline(whole);
                if text::trimmed(line).len() == 0 {
                    waiting_only_leaves_out(bytes, end, past, after)
                } else {
                    let skipped = waiting_only_leaves_out(
                        bytes,
                        end,
                        after matches Some(id) && text::contains_text(line, id),
                        after,
                    );
                    a_waiting_line_is_left_out(bytes, from, after, whole, skipped);
                    if json::is_raw_json(line) {
                        skipped + 1
                    } else {
                        skipped
                    }
                }
            },
        }
    }
}

/// With an id to start behind, the lines that are passed on are the last of those that
/// are passed on without one.
pub proof fn starting_behind_an_id_gives_the_last_lines(
    bytes: Seq<u8>,
    id: Seq<char>,
) -> (skipped: int)
    ensures
        0 <= skipped <= passed_lines(bytes, 0, true, None).len(),
        passed_lines(bytes, 0, false, Some(id)) == passed_lines(bytes, 0, true, None).skip(
            skipped,
        ),
{
    waiting_only_leaves_out(bytes, 0, false, Some(id))
}

proof fn what_is_good_matters_to_no_event(
    bytes: Seq<u8>,
    from: int,
    good: int,
    other: int,
    seen: Set<Seq<char>>,
    by: Recorder,
)
    ensures
        read_log(bytes, from, good, seen, by).events == read_log(
            bytes,
            from,
            other,
            seen,
            by,
        ).events,
        read_log(bytes, from, good, seen, by).seen == read_log(bytes, from, other, seen, by).seen,
    decreases bytes.len() - from,
{
    let end = line_end(bytes, from);
    if from < bytes.len() && end > from {
        if let Some(line) = line_text(bytes, from, end) {
            if text::trimmed(line).len() > 0 && json::parsed_json(line) is None {
                what_is_good_matters_to_no_event(bytes, end, good, other, seen, by);
            }
        }
    }
}

/// A log gives what its lines give, one behind the other: a line that is JSON the events
/// of its entry, and a blank line or one that is no JSON none. A line that is no text ends
/// it.
pub proof fn logs_give_what_their_lines_give(
    first: Seq<u8>,
    more: Seq<u8>,
    seen: Set<Seq<char>>,
    by: Recorder,
)
    requires
        first.len() > 0,
        first.last() == 10u8,
        forall|i: int| 0 <= i < first.len() - 1 ==> first[i] != 10u8,
    ensures
        ({
            let log = read_log(first + more, 0, 0, seen, by);
            let rest = read_log(more, 0, 0, seen, by);
            match line_text(first, 0, first.len() as int) {
                None => log.events.len() == 0 && log.seen == seen && log.position == 0,
                Some(line) => if text::trimmed(line).len() == 0 {
                    log.events == rest.events && log.seen == rest.seen && log.position
                        == first.len() + rest.position
                } else {
                    match json::parsed_json(line) {
                        None => log.events == rest.events && log.seen == rest.seen,
                        Some(entry) => {
                            let next = read_log(more, 0, 0, export::seen_after(entry, seen), by);
                            log.events == export::entry_events(entry, seen, by) + next.events
                                && log.seen == next.seen && log.position == first.len()
                                + next.position
                        },
                    }
                },
            }
        }),
{
    let whole = first + more;
    let end = first.len() as int;
    seek_within(first, more, 0);
    text::seek_is_first(first, 10u8, 0);
    assert(line_end(first, 0) == end) by {
        let k = text::seek(first, 10u8, 0);
        assert(first[first.len() - 1] == 10u8);
        if k < first.len() - 1 {
            assert(first[k] != 10u8);
        }
    }
    assert(whole.subrange(0, end) =~= first.subrange(0, end));
    reading_shifts(first, more, 0, 0, seen, by);
    if let Some(line) = line_text(first, 0, end) {
        if text::trimmed(line).len() > 0 {
            if let Some(entry) = json::parsed_json(line) {
                reading_shifts(first, more, 0, 0, export::seen_after(entry, seen), by);
            } else {
                what_is_good_matters_to_no_event(whole, end, 0, end, seen, by);
            }
        }
    }
}

proof fn passing_shifts(
    first: Seq<u8>,
    more: Seq<u8>,
    from: int,
    past: bool,
    after: Option<Seq<char>>,
)
    requires
        0 <= from <= more.len(),
    ensures
        passed_lines(first + more, first.len() + from, past, after) == passed_lines(
            more,
            from,
            past,
            after,
        ),
    decreases more.len() - from,
{
    if from < more.len() {
        let end = line_end(more, from);
        seek_beyond(first, more, from);
        text::seek_is_first(more, 10u8, from);
        assert((first + more).subrange(first.len() + from, first.len() + end) =~= more.subrange(
            from,
            end,
        ));
        passing_shifts(first, more, end, past, after);
        passing_shifts(first, more, end, true, after);
        passing_shifts(first, more, end, false, after);
    }
}

/// The lines that are passed on come as they stand in the log: each that is JSON, without
/// its newline, from the one behind the line with the id on. A line that is blank, no text
/// or no JSON is left out, and the rest comes all the same.
pub proof fn lines_pass_one_behind_the_other(
    first: Seq<u8>,
    more: Seq<u8>,
    after: Option<Seq<char>>,
)
    requires
        first.len() > 0,
        first.last() == 10u8,
        forall|i: int| 0 <= i < first.len() - 1 ==> first[i] != 10u8,
    ensures
        ({
            let whole = first + more;
            match line_text(first, 0, first.len() as int) {
                None => passed_lines(whole, 0, true, after) == passed_lines(more, 0, true, after)
                    && passed_lines(whole, 0, false, after) == passed_lines(more, 0, false, after),
                Some(told) => {
                    let line = without_newline(told);
                    let blank = text::trimmed(line).len() == 0;
                    &&& !blank && json::is_raw_json(line) ==> passed_lines(whole, 0, true, after)
                        == seq![line] + passed_lines(more, 0, true, after)
                    &&& blank || !json::is_raw_json(line) ==> passed_lines(whole, 0, true, after)
                        == passed_lines(more, 0, true, after)
                    &&& !blank && after is Some && text::contains_text(line, after->0)
                        ==> passed_lines(whole, 0, false, after) == passed_lines(
                        more,
                        0,
                        true,
                        after,
                    )
                    &&& blank || after is None || !text::contains_text(line, after->0)
                        ==> passed_lines(whole, 0, false, after) == passed_lines(
                        more,
                        0,
                        false,
                        after,
                    )
                },
            }
        }),
{
    let whole = first + more;
    let end = first.len() as int;
    seek_within(first, more, 0);
    text::seek_is_first(first, 10u8, 0);
    assert(line_end(first, 0) == end) by {
        let k = text::seek(first, 10u8, 0);
        assert(first[first.len() - 1] == 10u8);
        if k < first.len() - 1 {
            assert(first[k] != 10u8);
        }
    }
    assert(whole.subrange(0, end) =~= first.subrange(0, end));
    passing_shifts(first, more, 0, true, after);
    passing_shifts(first, more, 0, false, after);
}

proof fn last_dot(stem: Seq<char>, extension: Seq<char>, to: int)
    requires
        stem.len() < to <= stem.len() + 1 + extension.len(),
        forall|i: int| 0 <= i < extension.len() ==> extension[i] != '.',
    ensures
        text::seek_back(stem + seq!['.'] + extension, '.', to) == stem.len(),
    decreases to,
{
    let whole = stem + seq!['.'] + extension;
    if to == stem.len() + 1 {
        assert(whole[to - 1] == '.');
    } else {
        assert(whole[to - 1] == extension[to - 1 - stem.len() - 1]);
        last_dot(stem, extension, to - 1);
    }
}

/// A file is a log exactly where `jsonl` follows the last dot of its name and something
/// stands before that dot.
pub proof fn logs_end_with_their_extension(stem: Seq<char>, extension: Seq<char>)
    requires
        forall|i: int| 0 <= i < extension.len() ==> extension[i] != '.',
    ensures
        is_log_name(stem + seq!['.'] + extension) <==> stem.len() > 0 && extension == "jsonl"@,
        !is_log_name(extension),
{
    let name = stem + seq!['.'] + extension;
    last_dot(stem, extension, name.len() as int);
    assert(name.skip(stem.len() as int + 1) =~= extension);
    no_dot(extension, extension.len() as int);
}

proof fn no_dot(name: Seq<char>, to: int)
    requires
        0 <= to <= name.len(),
        forall|i: int| 0 <= i < name.len() ==> name[i] != '.',
    ensures
        text::seek_back(name, '.', to) == -1,
    decreases to,
{
    if to > 0 {
        no_dot(name, to - 1);
    }
}

/// A line loses the newline that ended it, with a return before that, and nothing else.
pub proof fn lines_lose_their_newline(line: Seq<char>)
    requires
        line.len() > 0 ==> line.last() != '\n' && line.last() != '\r',
    ensures
        without_newline(line) == line,
        without_newline(line.push('\n')) == line,
        without_newline(line.push('\r').push('\n')) == line,
{
    assert(line.push('\n').drop_last() =~= line);
    assert(line.push('\r').push('\n').drop_last() =~= line.push('\r'));
    assert(line.push('\r').drop_last() =~= line);
}

/// Every directory but that of the subagents holds the logs of a project.
pub proof fn only_subagents_are_left_out(name: Seq<char>)
    ensures
        holds_logs(name) <==> name != "subagents"@,
{
}

} // verus!
