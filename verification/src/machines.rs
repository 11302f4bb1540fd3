//! Known machines, and which of them have gone dark.
use vstd::prelude::*;
use vstd::string::*;

use crate::text;
use crate::time;
use crate::time::{Instant, Timestamp};

verus! {

/// Nanoseconds without an event after which a machine has gone dark: seven days.
pub const DARK_AFTER_NANOS: u64 = 7 * 86_400_000_000_000;

/// A known machine, with the time of its newest event.
#[derive(Clone, Debug)]
pub struct MachineStatus {
    pub machine_id: String,
    pub label: String,
    pub last_sync_at: Option<String>,
    pub last_event_at: Option<Timestamp>,
}

/// Whether a machine has gone dark: it has sent no events, or none for days.
pub open spec fn has_gone_dark(last_event_at: Option<Timestamp>, now: Instant) -> bool {
    match last_event_at {
        Some(last) => now.since(last@) >= DARK_AFTER_NANOS,
        None => true,
    }
}

/// Whether a machine has gone dark. What counts are events, not syncs: a sync that
/// succeeds and brings nothing is what this is to catch.
pub fn is_dark(last_event_at: Option<Timestamp>, now: &Timestamp) -> (r: bool)
    ensures
        r == has_gone_dark(last_event_at, now@),
{
    match last_event_at {
        Some(last) => now.since(&last) >= DARK_AFTER_NANOS as i128,
        None => true,
    }
}

/// Puts together what is known of a machine; its newest event is given as text. The
/// error tells of a text that is no time.
pub fn machine_status(
    machine_id: String,
    label: String,
    last_sync_at: Option<String>,
    last_event: Option<&str>,
) -> (r: Result<MachineStatus, String>)
    ensures
        match last_event {
            Some(raw) => match time::rfc3339_instant(raw@) {
                Some((secs, nanos)) => r matches Ok(status) && status.machine_id == machine_id
                    && status.label == label && status.last_sync_at == last_sync_at
                    && status.last_event_at is Some && status.last_event_at->0@ == (Instant {
                    secs: secs as int,
                    nanos: nanos as int,
                }),
                None => r matches Err(message) && message@
                    == "invalid event timestamp for machine "@ + label@,
            },
            None => r matches Ok(status) && status == (MachineStatus {
                machine_id,
                label,
                last_sync_at,
                last_event_at: None,
            }),
        },
{
    let last_event_at: Option<Timestamp> = match last_event {
        Some(raw) => match Timestamp::parse(raw) {
            Some(at) => Some(at),
            None => {
                let mut message = "invalid event timestamp for machine ".to_owned();
                message.append(label.as_str());
                return Err(message);
            },
        },
        None => None,
    };
    Ok(MachineStatus { machine_id, label, last_sync_at, last_event_at })
}

/// The warning for a dark machine that has been silent for an age.
pub open spec fn warning(status: MachineStatus, age: Seq<char>) -> Seq<char> {
    "⚠ "@ + status.label@ + (match status.last_event_at {
        Some(_) => " has sent no events for "@ + age,
        None => " has never sent any events"@,
    }) + " — check that tt is still running there."@
}

/// The warnings for the dark machines, in their order.
pub open spec fn warnings(
    statuses: Seq<MachineStatus>,
    ages: Seq<Seq<char>>,
    now: Instant,
) -> Seq<Seq<char>>
    decreases statuses.len(),
{
    if statuses.len() == 0 {
        Seq::empty()
    } else {
        let rest = warnings(statuses.drop_last(), ages.drop_last(), now);
        if has_gone_dark(statuses.last().last_event_at, now) {
            rest.push(warning(statuses.last(), ages.last()))
        } else {
            rest
        }
    }
}

fn warn(status: &MachineStatus, age: &str) -> (r: String)
    ensures
        r@ == warning(*status, age@),
{
    let mut line = "⚠ ".to_owned();
    line.append(status.label.as_str());
    match status.last_event_at {
        Some(_) => {
            let ghost start = line@;
            line.append(" has sent no events for ");
            line.append(age);
            proof {
                assert(line@ =~= start + (" has sent no events for "@ + age@));
            }
        },
        None => {
            line.append(" has never sent any events");
        },
    }
    line.append(" — check that tt is still running there.");
    line
}

/// Warns of each dark machine; `ages` says how long ago each machine's newest event
/// was.
pub fn dark_machine_warnings(
    statuses: &Vec<MachineStatus>,
    ages: &Vec<String>,
    now: &Timestamp,
) -> (r: Vec<String>)
    requires
        ages@.len() == statuses@.len(),
    ensures
        text::texts(r@) == warnings(statuses@, text::texts(ages@), now@),
{
    let ghost spans = text::texts(ages@);
    let mut out: Vec<String> = Vec::new();
    let mut i: usize = 0;
    proof {
        assert(text::texts(out@) =~= warnings(statuses@.take(0), spans.take(0), now@));
    }
    while i < statuses.len()
        invariant
            i <= statuses@.len() == ages@.len(),
            spans == text::texts(ages@),
            text::texts(out@) == warnings(statuses@.take(i as int), spans.take(i as int), now@),
        decreases statuses@.len() - i,
    {
        let ghost before = text::texts(out@);
        proof {
            assert(statuses@.take(i + 1).drop_last() =~= statuses@.take(i as int));
            assert(spans.take(i + 1).drop_last() =~= spans.take(i as int));
            assert(spans.take(i + 1).last() == ages@[i as int]@);
        }
        if is_dark(statuses[i].last_event_at, now) {
            let line = warn(&statuses[i], ages[i].as_str());
            let ghost told = line@;
            out.push(line);
            proof {
                assert(text::texts(out@) =~= before.push(told));
            }
        }
        i += 1;
    }
    proof {
        assert(statuses@.take(i as int) =~= statuses@);
        assert(spans.take(i as int) =~= spans);
    }
    out
}

/// The row of a machine.
pub open spec fn row(status: MachineStatus, age: Seq<char>, now: Instant) -> Seq<char> {
    text::padded(status.machine_id@, 38) + " "@ + text::padded(status.label@, 20) + " "@
        + text::padded(
        match status.last_sync_at {
            Some(at) => at@,
            None => "never"@,
        },
        26,
    ) + " "@ + text::padded(
        match status.last_event_at {
            Some(_) => age + " ago"@,
            None => "never"@,
        },
        11,
    ) + " "@ + (if has_gone_dark(status.last_event_at, now) {
        "⚠ DARK"@
    } else {
        "ok"@
    }) + "\n"@
}

/// The rows of the machines.
pub open spec fn rows(
    statuses: Seq<MachineStatus>,
    ages: Seq<Seq<char>>,
    now: Instant,
) -> Seq<char>
    decreases statuses.len(),
{
    if statuses.len() == 0 {
        Seq::empty()
    } else {
        rows(statuses.drop_last(), ages.drop_last(), now) + row(statuses.last(), ages.last(), now)
    }
}

/// Lines, each with its newline.
pub open spec fn ended(lines: Seq<Seq<char>>) -> Seq<char>
    decreases lines.len(),
{
    if lines.len() == 0 {
        Seq::empty()
    } else {
        ended(lines.drop_last()) + lines.last() + "\n"@
    }
}

/// The heading of the table.
pub open spec fn heading() -> Seq<char> {
    text::padded("MACHINE ID"@, 38) + " "@ + text::padded("LABEL"@, 20) + " "@ + text::padded(
        "LAST SYNC"@,
        26,
    ) + " "@ + text::padded("LAST EVENT"@, 11) + " STATUS\n"@
}

/// The table of machines, with a row for each, and a warning for each dark one below.
pub open spec fn table(
    statuses: Seq<MachineStatus>,
    ages: Seq<Seq<char>>,
    now: Instant,
) -> Seq<char> {
    if statuses.len() == 0 {
        "No machines registered yet. Run 'tt sync <remote>' to import from a remote.\n"@
    } else {
        let told = warnings(statuses, ages, now);
        heading() + rows(statuses, ages, now) + (if told.len() > 0 {
            "\n"@ + ended(told)
        } else {
            Seq::empty()
        })
    }
}

fn push_row(out: &mut String, status: &MachineStatus, age: &str, now: &Timestamp)
    ensures
        final(out)@ == old(out)@ + row(*status, age@, now@),
{
    let ghost start = out@;
    let last_sync: &str = match &status.last_sync_at {
        Some(at) => at.as_str(),
        None => "never",
    };
    let last_event: String = match status.last_event_at {
        Some(_) => {
            let mut span = age.to_owned();
            span.append(" ago");
            span
        },
        None => "never".to_owned(),
    };
    text::push_padded(out, status.machine_id.as_str(), 38);
    out.append(" ");
    text::push_padded(out, status.label.as_str(), 20);
    out.append(" ");
    text::push_padded(out, last_sync, 26);
    out.append(" ");
    text::push_padded(out, last_event.as_str(), 11);
    out.append(" ");
    out.append(
        if is_dark(status.last_event_at, now) {
            "⚠ DARK"
        } else {
            "ok"
        },
    );
    out.append("\n");
    proof {
        assert(out@ =~= start + row(*status, age@, now@));
    }
}

fn push_ended(out: &mut String, lines: &Vec<String>)
    ensures
        final(out)@ == old(out)@ + ended(text::texts(lines@)),
{
    let ghost start = out@;
    let ghost all = text::texts(lines@);
    let mut i: usize = 0;
    proof {
        assert(start + ended(all.take(0)) =~= start);
    }
    while i < lines.len()
        invariant
            i <= lines@.len(),
            all == text::texts(lines@),
            out@ == start + ended(all.take(i as int)),
        decreases lines@.len() - i,
    {
        proof {
            assert(all.take(i + 1).drop_last() =~= all.take(i as int));
            assert(all.take(i + 1).last() == lines@[i as int]@);
        }
        out.append(lines[i].as_str());
        out.append("\n");
        proof {
            assert(out@ =~= start + ended(all.take(i + 1)));
        }
        i += 1;
    }
    proof {
        assert(all.take(i as int) =~= all);
    }
}

/// Writes the table of machines; `ages` says how long ago each machine's newest event
/// was.
pub fn format_machines(
    statuses: &Vec<MachineStatus>,
    ages: &Vec<String>,
    now: &Timestamp,
) -> (r: String)
    requires
        ages@.len() == statuses@.len(),
    ensures
        r@ == table(statuses@, text::texts(ages@), now@),
{
    let ghost spans = text::texts(ages@);
    if statuses.len() == 0 {
        return "No machines registered yet. Run 'tt sync <remote>' to import from a remote.\n".to_owned();
    }
    let mut out = String::new();
    text::push_padded(&mut out, "MACHINE ID", 38);
    out.append(" ");
    text::push_padded(&mut out, "LABEL", 20);
    out.append(" ");
    text::push_padded(&mut out, "LAST SYNC", 26);
    out.append(" ");
    text::push_padded(&mut out, "LAST EVENT", 11);
    out.append(" STATUS\n");
    proof {
        assert(out@ =~= heading());
        assert(heading() + rows(statuses@.take(0), spans.take(0), now@) =~= heading());
    }
    let mut i: usize = 0;
    while i < statuses.len()
        invariant
            i <= statuses@.len() == ages@.len(),
            spans == text::texts(ages@),
            out@ == heading() + rows(statuses@.take(i as int), spans.take(i as int), now@),
        decreases statuses@.len() - i,
    {
        proof {
            assert(statuses@.take(i + 1).drop_last() =~= statuses@.take(i as int));
            assert(spans.take(i + 1).drop_last() =~= spans.take(i as int));
            assert(spans.take(i + 1).last() == ages@[i as int]@);
        }
        push_row(&mut out, &statuses[i], ages[i].as_str(), now);
        proof {
            assert(out@ =~= heading() + rows(statuses@.take(i + 1), spans.take(i + 1), now@));
        }
        i += 1;
    }
    proof {
        assert(statuses@.take(i as int) =~= statuses@);
        assert(spans.take(i as int) =~= spans);
    }
    let warned = dark_machine_warnings(statuses, ages, now);
    proof {
        assert(text::texts(warned@).len() == warned@.len());
    }
    if warned.len() > 0 {
        out.append("\n");
        push_ended(&mut out, &warned);
    }
    proof {
        assert(out@ =~= table(statuses@, spans, now@));
    }
    out
}

/// There is a warning for every dark machine and for no other.
pub proof fn every_dark_machine_is_warned_of(
    statuses: Seq<MachineStatus>,
    ages: Seq<Seq<char>>,
    now: Instant,
)
    ensures
        warnings(statuses, ages, now).len() == statuses.filter(
            |s: MachineStatus| has_gone_dark(s.last_event_at, now),
        ).len(),
    decreases statuses.len(),
{
    reveal(Seq::filter);
    if statuses.len() > 0 {
        every_dark_machine_is_warned_of(statuses.drop_last(), ages.drop_last(), now);
    }
}

/// Whether an instant lies within a leap second.
pub open spec fn is_leap(at: Instant) -> bool {
    at.nanos >= time::SECOND_NANOS
}

/// A machine that has gone dark stays dark until it sends an event. Around a leap
/// second, which is counted by the times of day alone, this holds from three seconds
/// on.
pub proof fn silence_lasts(last_event_at: Option<Timestamp>, now: Instant, later: Instant)
    requires
        has_gone_dark(last_event_at, now),
        now.valid(),
        later.valid(),
        now.at_most(later),
        last_event_at matches Some(last) ==> last@.valid(),
        later.secs >= now.secs + 3 || !(is_leap(now) || is_leap(later) || (last_event_at is Some
            && is_leap(last_event_at->0@))),
    ensures
        has_gone_dark(last_event_at, later),
{
}

/// A machine has gone dark exactly where it never sent an event, or has sent none for
/// seven days.
pub proof fn a_week_of_silence_is_dark(last_event_at: Option<Timestamp>, now: Instant)
    requires
        0 <= now.nanos < 1_000_000_000,
        last_event_at matches Some(last) ==> 0 <= last@.nanos < 1_000_000_000,
    ensures
        last_event_at is None ==> has_gone_dark(last_event_at, now),
        last_event_at matches Some(last) ==> (has_gone_dark(last_event_at, now)
            <==> time::epoch_nanos(now) - time::epoch_nanos(last@) >= 7 * 24 * 60 * 60
            * 1_000_000_000),
{
}

/// A warning names the machine and tells how long it has been silent, or that it never
/// sent anything. Warnings come in the order of the machines, and none comes for one that
/// is not dark.
pub proof fn warnings_name_their_machine(
    statuses: Seq<MachineStatus>,
    ages: Seq<Seq<char>>,
    now: Instant,
    status: MachineStatus,
    age: Seq<char>,
)
    requires
        statuses.len() == ages.len(),
    ensures
        warnings(Seq::empty(), Seq::empty(), now).len() == 0,
        !has_gone_dark(status.last_event_at, now) ==> warnings(
            statuses.push(status),
            ages.push(age),
            now,
        ) == warnings(statuses, ages, now),
        has_gone_dark(status.last_event_at, now) ==> warnings(
            statuses.push(status),
            ages.push(age),
            now,
        ) == warnings(statuses, ages, now).push(warning(status, age)),
        status.last_event_at is Some ==> text::stands_in(
            status.label@ + " has sent no events for "@ + age,
            warning(status, age),
        ),
        status.last_event_at is None ==> text::stands_in(
            status.label@ + " has never sent any events"@,
            warning(status, age),
        ),
{
    assert(statuses.push(status).drop_last() =~= statuses);
    assert(ages.push(age).drop_last() =~= ages);
    let start = "⚠ "@;
    let end = " — check that tt is still running there."@;
    if status.last_event_at is Some {
        assert(warning(status, age) =~= start + (status.label@ + " has sent no events for "@ + age)
            + end);
    } else {
        assert(warning(status, age) =~= start + (status.label@ + " has never sent any events"@)
            + end);
    }
}

/// The rows come in the order of the machines. A row gives the machine, its label, when
/// it was synced last and how long ago its newest event was, each in its own column, and
/// says of a dark machine that it is.
pub proof fn rows_tell_their_machine(
    statuses: Seq<MachineStatus>,
    ages: Seq<Seq<char>>,
    now: Instant,
    status: MachineStatus,
    age: Seq<char>,
)
    requires
        statuses.len() == ages.len(),
    ensures
        rows(Seq::empty(), Seq::empty(), now).len() == 0,
        rows(statuses.push(status), ages.push(age), now) == rows(statuses, ages, now) + row(
            status,
            age,
            now,
        ),
        ({
            let told = row(status, age, now);
            let name = text::padded(status.machine_id@, 38) + " "@ + text::padded(
                status.label@,
                20,
            ) + " "@;
            let sync = text::padded(
                match status.last_sync_at {
                    Some(at) => at@,
                    None => "never"@,
                },
                26,
            ) + " "@;
            let event = text::padded(
                match status.last_event_at {
                    Some(_) => age + " ago"@,
                    None => "never"@,
                },
                11,
            ) + " "@;
            &&& told.take(name.len() as int) == name
            &&& told.skip(name.len() as int).take(sync.len() as int) == sync
            &&& told.skip(name.len() as int + sync.len() as int).take(event.len() as int) == event
            &&& told.skip(name.len() as int + sync.len() as int + event.len() as int) == (
            if has_gone_dark(status.last_event_at, now) {
                "⚠ DARK"@
            } else {
                "ok"@
            }) + "\n"@
        }),
{
    assert(statuses.push(status).drop_last() =~= statuses);
    assert(ages.push(age).drop_last() =~= ages);
    let told = row(status, age, now);
    let name = text::padded(status.machine_id@, 38) + " "@ + text::padded(status.label@, 20)
        + " "@;
    let sync = text::padded(
        match status.last_sync_at {
            Some(at) => at@,
            None => "never"@,
        },
        26,
    ) + " "@;
    let event = text::padded(
        match status.last_event_at {
            Some(_) => age + " ago"@,
            None => "never"@,
        },
        11,
    ) + " "@;
    let end = (if has_gone_dark(status.last_event_at, now) {
        "⚠ DARK"@
    } else {
        "ok"@
    }) + "\n"@;
    assert(told =~= name + sync + event + end);
    assert(told.take(name.len() as int) =~= name);
    assert(told.skip(name.len() as int).take(sync.len() as int) =~= sync);
    assert(told.skip(name.len() as int + sync.len() as int).take(event.len() as int) =~= event);
    assert(told.skip(name.len() as int + sync.len() as int + event.len() as int) =~= end);
}

/// The table holds the rows, and below them a line for each warning where there is any.
pub proof fn warnings_stand_below_the_rows(
    statuses: Seq<MachineStatus>,
    ages: Seq<Seq<char>>,
    now: Instant,
    lines: Seq<Seq<char>>,
    line: Seq<char>,
)
    requires
        statuses.len() > 0,
    ensures
        warnings(statuses, ages, now).len() == 0 ==> table(statuses, ages, now) == heading() + rows(
            statuses,
            ages,
            now,
        ),
        warnings(statuses, ages, now).len() > 0 ==> table(statuses, ages, now) == heading() + rows(
            statuses,
            ages,
            now,
        ) + "\n"@ + ended(warnings(statuses, ages, now)),
        ended(lines.push(line)) == ended(lines) + (line + "\n"@),
        ended(Seq::empty()).len() == 0,
{
    assert(lines.push(line).drop_last() =~= lines);
    assert(ended(lines.push(line)) =~= ended(lines) + (line + "\n"@));
    let told = table(statuses, ages, now);
    if warnings(statuses, ages, now).len() == 0 {
        assert(told =~= heading() + rows(statuses, ages, now));
    } else {
        assert(told =~= heading() + rows(statuses, ages, now) + "\n"@ + ended(
            warnings(statuses, ages, now),
        ));
    }
}

} // verus!
