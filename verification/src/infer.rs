//! Stream inference: what becomes of the streams that were inferred, and what is told
//! of them.
use vstd::prelude::*;
use vstd::string::*;

use crate::text;
use crate::time::Timestamp;

verus! {

broadcast use vstd::seq_lib::group_seq_properties;

/// A stream that was inferred.
#[derive(Clone, Debug)]
pub struct InferredStream {
    pub id: String,
    pub name: String,
    pub first_event_at: Timestamp,
    pub last_event_at: Timestamp,
}

/// A stream as it is first stored.
#[derive(Clone, Debug)]
pub struct FreshStream {
    pub id: String,
    pub name: Option<String>,
    pub created_at: Timestamp,
    pub updated_at: Timestamp,
    pub time_direct_ms: i64,
    pub time_delegated_ms: i64,
    pub first_event_at: Option<Timestamp>,
    pub last_event_at: Option<Timestamp>,
    /// Whether the times are still to be computed.
    pub needs_recompute: bool,
}

/// Makes the stream that is stored for an inferred one.
pub fn fresh_stream(inferred: &InferredStream, created_at: Timestamp, updated_at: Timestamp) -> (r:
    FreshStream)
    ensures
        r == (FreshStream {
            id: inferred.id,
            name: Some(inferred.name),
            created_at,
            updated_at,
            time_direct_ms: 0,
            time_delegated_ms: 0,
            first_event_at: Some(inferred.first_event_at),
            last_event_at: Some(inferred.last_event_at),
            needs_recompute: true,
        }),
{
    FreshStream {
        id: inferred.id.clone(),
        name: Some(inferred.name.clone()),
        created_at,
        updated_at,
        time_direct_ms: 0,
        time_delegated_ms: 0,
        first_event_at: Some(inferred.first_event_at),
        last_event_at: Some(inferred.last_event_at),
        needs_recompute: true,
    }
}

/// Tells what clearing earlier inferences removed.
pub fn cleared_line(cleared: u64, deleted: u64) -> (r: String)
    ensures
        r@ == "Cleared "@ + text::decimal(cleared as nat)
            + " inferred assignments, deleted "@ + text::decimal(deleted as nat)
            + " orphaned streams"@,
{
    let mut out = "Cleared ".to_owned();
    text::push_decimal(&mut out, cleared);
    out.append(" inferred assignments, deleted ");
    text::push_decimal(&mut out, deleted);
    out.append(" orphaned streams");
    out
}

/// Why inference ends without a stream.
pub open spec fn early_end(events: int, streams: int) -> Option<Seq<char>> {
    if events == 0 {
        Some("No events to process"@)
    } else if streams == 0 {
        Some("No new streams created (all events already assigned)"@)
    } else {
        None
    }
}

/// Tells why inference ends without a stream; `None` where it goes on.
pub fn early_end_line(events: usize, streams: usize) -> (r: Option<String>)
    ensures
        text::opt_text(r) == early_end(events as int, streams as int),
{
    if events == 0 {
        Some("No events to process".to_owned())
    } else if streams == 0 {
        Some("No new streams created (all events already assigned)".to_owned())
    } else {
        None
    }
}

/// How many events were assigned to a stream. An assignment is an event and a stream.
pub open spec fn assigned_to(assignments: Seq<(String, String)>, id: Seq<char>) -> nat
    decreases assignments.len(),
{
    if assignments.len() == 0 {
        0
    } else {
        assigned_to(assignments.drop_last(), id) + (if assignments.last().1@ == id {
            1nat
        } else {
            0
        })
    }
}

fn count_assigned(assignments: &Vec<(String, String)>, id: &str) -> (r: usize)
    ensures
        r == assigned_to(assignments@, id@),
{
    let mut n: usize = 0;
    let mut i: usize = 0;
    while i < assignments.len()
        invariant
            n <= i <= assignments@.len(),
            n == assigned_to(assignments@.take(i as int), id@),
        decreases assignments@.len() - i,
    {
        proof {
            assert(assignments@.take(i + 1).drop_last() =~= assignments@.take(i as int));
        }
        if text::same(assignments[i].1.as_str(), id) {
            n += 1;
        }
        i += 1;
    }
    proof {
        assert(assignments@.take(i as int) =~= assignments@);
    }
    n
}

/// The lines of the streams, each with its number of events.
pub open spec fn stream_lines(
    streams: Seq<InferredStream>,
    assignments: Seq<(String, String)>,
) -> Seq<char>
    decreases streams.len(),
{
    if streams.len() == 0 {
        Seq::empty()
    } else {
        stream_lines(streams.drop_last(), assignments) + "  "@ + streams.last().name@ + " ("@
            + text::decimal(assigned_to(assignments, streams.last().id@)) + " events)\n"@
    }
}

/// Tells which streams were created, and how many events were assigned.
pub fn summary(
    streams: &Vec<InferredStream>,
    assignments: &Vec<(String, String)>,
    assigned_count: u64,
) -> (r: String)
    ensures
        r@ == "Created "@ + text::decimal(streams@.len()) + " stream(s), assigned "@
            + text::decimal(assigned_count as nat) + " event(s)\n"@ + stream_lines(
            streams@,
            assignments@,
        ),
{
    let mut out = "Created ".to_owned();
    text::push_decimal(&mut out, streams.len() as u64);
    out.append(" stream(s), assigned ");
    text::push_decimal(&mut out, assigned_count);
    out.append(" event(s)\n");
    let ghost start = out@;
    let mut i: usize = 0;
    proof {
        assert(start + stream_lines(streams@.take(0), assignments@) =~= start);
    }
    while i < streams.len()
        invariant
            i <= streams@.len(),
            out@ == start + stream_lines(streams@.take(i as int), assignments@),
        decreases streams@.len() - i,
    {
        proof {
            assert(streams@.take(i + 1).drop_last() =~= streams@.take(i as int));
        }
        let count: usize = count_assigned(assignments, streams[i].id.as_str());
        out.append("  ");
        out.append(streams[i].name.as_str());
        out.append(" (");
        text::push_decimal(&mut out, count as u64);
        out.append(" events)\n");
        proof {
            assert(out@ =~= start + stream_lines(streams@.take(i + 1), assignments@));
        }
        i += 1;
    }
    proof {
        assert(streams@.take(i as int) =~= streams@);
    }
    out
}

/// Each assignment counts for the stream that it names and for no other: the counts of
/// two lists are those of both together.
pub proof fn assignments_count_for_their_stream(
    a: Seq<(String, String)>,
    b: Seq<(String, String)>,
    one: (String, String),
    id: Seq<char>,
)
    ensures
        assigned_to(a + b, id) == assigned_to(a, id) + assigned_to(b, id),
        assigned_to(seq![one], id) == (if one.1@ == id {
            1nat
        } else {
            0
        }),
    decreases b.len(),
{
    assert(seq![one].drop_last() =~= Seq::empty());
    assert(assigned_to(Seq::empty(), id) == 0);
    assert(seq![one].last() == one);
    if b.len() > 0 {
        assert((a + b).drop_last() =~= a + b.drop_last());
        assignments_count_for_their_stream(a, b.drop_last(), one, id);
    } else {
        assert(a + b =~= a);
    }
}

/// The streams are told of in their order, one line each, which names the stream and
/// gives the number of the events that were assigned to it.
pub proof fn each_stream_has_its_line(
    a: Seq<InferredStream>,
    b: Seq<InferredStream>,
    one: InferredStream,
    assignments: Seq<(String, String)>,
)
    ensures
        stream_lines(a + b, assignments) == stream_lines(a, assignments) + stream_lines(
            b,
            assignments,
        ),
        stream_lines(seq![one], assignments) == "  "@ + one.name@ + " ("@ + text::decimal(
            assigned_to(assignments, one.id@),
        ) + " events)\n"@,
    decreases b.len(),
{
    assert(seq![one].drop_last() =~= Seq::empty());
    assert(stream_lines(Seq::empty(), assignments) =~= Seq::empty());
    assert(seq![one].last() == one);
    assert(stream_lines(seq![one], assignments) =~= "  "@ + one.name@ + " ("@ + text::decimal(
        assigned_to(assignments, one.id@),
    ) + " events)\n"@);
    if b.len() > 0 {
        assert((a + b).drop_last() =~= a + b.drop_last());
        each_stream_has_its_line(a, b.drop_last(), one, assignments);
        assert(stream_lines(a + b, assignments) =~= stream_lines(a, assignments) + stream_lines(
            b,
            assignments,
        ));
    } else {
        assert(a + b =~= a);
        assert(stream_lines(b, assignments) =~= Seq::empty());
        assert(stream_lines(a, assignments) + stream_lines(b, assignments) =~= stream_lines(
            a,
            assignments,
        ));
    }
}

/// Inference goes on exactly where there are events and streams were made of them.
pub proof fn inference_goes_on_with_events_and_streams(events: int, streams: int)
    ensures
        early_end(events, streams) is None <==> events != 0 && streams != 0,
        events == 0 ==> early_end(events, streams) == early_end(0, 1),
        events != 0 && streams == 0 ==> early_end(events, streams) != early_end(0, 1),
{
    reveal_strlit("No events to process");
    reveal_strlit("No new streams created (all events already assigned)");
    assert("No events to process"@.len() == 20);
    assert("No new streams created (all events already assigned)"@.len() > 20);
}

} // verus!
