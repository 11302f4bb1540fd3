//! Reading dates and times as users write them.
use vstd::prelude::*;
use vstd::string::*;

use crate::text;
use crate::time;
use crate::time::{Instant, Timestamp};

verus! {

/// A text gives no point in time.
#[derive(Clone, Copy, Debug, PartialEq, Eq, Structural)]
pub struct NotATime;

/// The instant that the parts read from a text stand for.
pub open spec fn instant_of(parts: (i64, u32)) -> Instant {
    Instant { secs: parts.0 as int, nanos: parts.1 as int }
}

/// The seconds in a unit of time, by its name in the singular or the plural.
pub open spec fn unit_seconds(unit: Seq<char>) -> Option<int> {
    if unit == "minute"@ || unit == "minutes"@ {
        Some(60)
    } else if unit == "hour"@ || unit == "hours"@ {
        Some(3_600)
    } else if unit == "day"@ || unit == "days"@ {
        Some(86_400)
    } else if unit == "week"@ || unit == "weeks"@ {
        Some(604_800)
    } else {
        None
    }
}

/// How many seconds ago a text of the form `<number> <unit> ago` means.
pub open spec fn relative_seconds(s: Seq<char>) -> Option<int> {
    let words = text::words(s, false);
    if words.len() == 3 && words[2] == "ago"@ {
        match (text::unsigned_of(words[0], 10, u32::MAX as nat), unit_seconds(words[1])) {
            (Some(n), Some(unit)) => Some(n * unit),
            _ => None,
        }
    } else {
        None
    }
}

/// The instant that a text gives at the time `now`.
pub open spec fn datetime_at(s: Seq<char>, now: Instant) -> Option<Instant> {
    match time::rfc3339_instant(s) {
        Some(parts) => Some(instant_of(parts)),
        None => match relative_seconds(s) {
            Some(ago) => if now.minus(ago).valid() {
                Some(now.minus(ago))
            } else {
                None
            },
            None => None,
        },
    }
}

fn seconds_in(unit: &str) -> (r: Option<u64>)
    ensures
        match unit_seconds(unit@) {
            Some(n) => r == Some(n as u64) && 0 < n <= 604_800,
            None => r is None,
        },
{
    if text::same(unit, "minute") || text::same(unit, "minutes") {
        Some(60)
    } else if text::same(unit, "hour") || text::same(unit, "hours") {
        Some(3_600)
    } else if text::same(unit, "day") || text::same(unit, "days") {
        Some(86_400)
    } else if text::same(unit, "week") || text::same(unit, "weeks") {
        Some(604_800)
    } else {
        None
    }
}

fn seconds_ago(s: &str) -> (r: Option<u64>)
    ensures
        match relative_seconds(s@) {
            Some(n) => r == Some(n as u64) && 0 <= n <= u64::MAX,
            None => r is None,
        },
{
    let words = text::words_of(s, false);
    proof {
        assert(text::texts(words@).len() == words@.len());
        assert(forall|i: int|
            0 <= i < words@.len() ==> #[trigger] text::texts(words@)[i] == words@[i]@);
    }
    if words.len() != 3 || !text::same(words[2].as_str(), "ago") {
        return None;
    }
    let digits = text::chars_of(words[0].as_str());
    proof {
        assert(digits@.subrange(0, digits@.len() as int) =~= digits@);
    }
    let number: u64 = match text::parse_unsigned(&digits, 0, digits.len(), 10, u32::MAX as u64) {
        Some(n) => n,
        None => {
            return None;
        },
    };
    match seconds_in(words[1].as_str()) {
        Some(unit) => {
            proof {
                assert(0 <= number * unit <= u32::MAX * 604_800) by (nonlinear_arith)
                    requires
                        number <= u32::MAX,
                        unit <= 604_800,
                ;
            }
            Some(number * unit)
        },
        None => None,
    }
}

/// Reads a point in time at the time `now`: an RFC 3339 text, or a number of
/// minutes, hours, days or weeks `ago`.
pub fn parse_datetime_at(s: &str, now: &Timestamp) -> (r: Result<Timestamp, NotATime>)
    ensures
        match datetime_at(s@, now@) {
            Some(at) => r matches Ok(t) && t@ == at,
            None => r == Err::<Timestamp, NotATime>(NotATime),
        },
        time::rfc3339_instant(s@) is Some ==> (r matches Ok(t) && time::is_text_second(t@.secs)),
{
    if let Some(at) = Timestamp::parse(s) {
        return Ok(at);
    }
    match seconds_ago(s) {
        Some(ago) => match now.minus(ago) {
            Some(at) => Ok(at),
            None => Err(NotATime),
        },
        None => Err(NotATime),
    }
}

/// Reads a point in time, counting back from the present where the text is
/// relative.
pub fn parse_datetime(s: &str) -> (r: Result<Timestamp, NotATime>)
    ensures
        exists|now: Instant|
            now.valid() && match #[trigger] datetime_at(s@, now) {
                Some(at) => r matches Ok(t) && t@ == at,
                None => r == Err::<Timestamp, NotATime>(NotATime),
            },
{
    let now = Timestamp::now();
    parse_datetime_at(s, &now)
}

/// What is wrong with the ends of a period.
#[derive(Clone, Copy, Debug, PartialEq, Eq, Structural)]
pub enum PeriodError {
    /// The end is no point in time.
    InvalidEnd,
    /// The start is no point in time.
    InvalidStart,
}

/// The period that optional texts give at the time `now`: it ends now where no end
/// is given, and starts a day before its end where no start is.
pub open spec fn period_at(
    start: Option<Seq<char>>,
    end: Option<Seq<char>>,
    now: Instant,
) -> Result<(Instant, Instant), PeriodError> {
    let until = match end {
        Some(s) => datetime_at(s, now),
        None => Some(now),
    };
    match until {
        None => Err(PeriodError::InvalidEnd),
        Some(until) => match start {
            None => Ok((until.minus(86_400), until)),
            Some(s) => match datetime_at(s, now) {
                Some(from) => Ok((from, until)),
                None => Err(PeriodError::InvalidStart),
            },
        },
    }
}

/// Whether a day before the end of the period that `end` gives is in range. An
/// RFC 3339 end always leaves that day.
pub open spec fn leaves_a_day(end: Option<Seq<char>>, now: Instant) -> bool {
    let relative = match end {
        Some(s) => relative_seconds(s),
        None => Some(0),
    };
    match relative {
        Some(ago) => now.minus(ago).valid() ==> now.minus(ago).minus(86_400).valid(),
        None => true,
    }
}

/// Tells whether a day before the end of the period that `end` gives is in range.
pub fn can_resolve(end: Option<&str>, now: &Timestamp) -> (r: bool)
    ensures
        r == leaves_a_day(text::opt_str(end), now@),
{
    let ago: u64 = match end {
        Some(s) => match seconds_ago(s) {
            Some(ago) => ago,
            None => {
                return true;
            },
        },
        None => 0,
    };
    match now.minus(ago) {
        Some(until) => until.minus(86_400).is_some(),
        None => true,
    }
}

/// Resolves a period at the time `now`.
pub fn resolve_time_range(start: Option<&str>, end: Option<&str>, now: &Timestamp) -> (r: Result<
    (Timestamp, Timestamp),
    PeriodError,
>)
    requires
        start is None ==> leaves_a_day(text::opt_str(end), now@),
    ensures
        match period_at(text::opt_str(start), text::opt_str(end), now@) {
            Ok(period) => r matches Ok(t) && t.0@ == period.0 && t.1@ == period.1,
            Err(e) => r == Err::<(Timestamp, Timestamp), PeriodError>(e),
        },
{
    let until: Timestamp = match end {
        Some(s) => match parse_datetime_at(s, now) {
            Ok(at) => at,
            Err(_) => {
                return Err(PeriodError::InvalidEnd);
            },
        },
        None => *now,
    };
    match start {
        Some(s) => match parse_datetime_at(s, now) {
            Ok(from) => Ok((from, until)),
            Err(_) => Err(PeriodError::InvalidStart),
        },
        None => {
            let day_before = until.minus(86_400);
            Ok((day_before.unwrap(), until))
        },
    }
}

/// A text that gives an instant by itself gives that one whatever the time is. One that
/// counts back in words gives the instant so many minutes, hours, days or weeks before
/// now, where there is one.
pub proof fn relative_times_count_back_in_their_unit(
    s: Seq<char>,
    now: Instant,
    number: Seq<char>,
    unit: Seq<char>,
    n: nat,
    seconds: int,
)
    requires
        text::words(s, false) == seq![number, unit, "ago"@],
        text::unsigned_of(number, 10, u32::MAX as nat) == Some(n),
        time::rfc3339_instant(s) is None,
        now.valid(),
        now.nanos < 1_000_000_000,
        ({
            ||| seconds == 60 && (unit == "minute"@ || unit == "minutes"@)
            ||| seconds == 60 * 60 && (unit == "hour"@ || unit == "hours"@)
            ||| seconds == 24 * 60 * 60 && (unit == "day"@ || unit == "days"@)
            ||| seconds == 7 * 24 * 60 * 60 && (unit == "week"@ || unit == "weeks"@)
        }),
    ensures
        datetime_at(s, now) is Some <==> now.secs - n * seconds >= time::MIN_SECONDS,
        datetime_at(s, now) matches Some(at) ==> time::epoch_nanos(now) - time::epoch_nanos(at) == n
            * seconds * 1_000_000_000,
{
    reveal_strlit("minute");
    reveal_strlit("minutes");
    reveal_strlit("hour");
    reveal_strlit("hours");
    reveal_strlit("day");
    reveal_strlit("days");
    reveal_strlit("week");
    reveal_strlit("weeks");
    assert("minute"@.len() == 6 && "minutes"@.len() == 7 && "hour"@.len() == 4 && "hours"@.len()
        == 5);
    assert("day"@.len() == 3 && "days"@.len() == 4 && "week"@.len() == 4 && "weeks"@.len() == 5);
    assert("hour"@[0] == 'h' && "hours"@[0] == 'h' && "days"@[0] == 'd' && "week"@[0] == 'w'
        && "weeks"@[0] == 'w');
    assert(unit_seconds(unit) == Some(seconds));
    assert(relative_seconds(s) == Some(n * seconds));
    assert(n * seconds >= 0) by (nonlinear_arith)
        requires
            seconds > 0,
            n >= 0,
    ;
    time::going_back_takes_the_seconds(now, n * seconds, 0);
}

/// A text that gives an instant by itself gives that one whatever the time is, and one
/// that neither does so nor counts back in words gives none.
pub proof fn absolute_times_do_not_depend_on_now(s: Seq<char>, now: Instant, later: Instant)
    ensures
        time::rfc3339_instant(s) matches Some(parts) ==> datetime_at(s, now) == Some(
            (Instant { secs: parts.0 as int, nanos: parts.1 as int }),
        ) && datetime_at(s, later) == datetime_at(s, now),
        time::rfc3339_instant(s) is None && (text::words(s, false).len() != 3 || text::words(
            s,
            false,
        )[2] != "ago"@) ==> datetime_at(s, now) is None,
{
}

/// A period ends at the instant that its end gives, or now where none is given, and it
/// starts at the one that its start gives, or a day before its end where none is given.
/// Its end is told to be wrong exactly where it is given and gives no instant, and its
/// start where only that is so.
pub proof fn periods_reach_from_start_to_end(
    start: Option<Seq<char>>,
    end: Option<Seq<char>>,
    now: Instant,
)
    ensures
        period_at(start, end, now) == Err::<(Instant, Instant), PeriodError>(
            PeriodError::InvalidEnd,
        ) <==> end is Some && datetime_at(end->0, now) is None,
        period_at(start, end, now) == Err::<(Instant, Instant), PeriodError>(
            PeriodError::InvalidStart,
        ) <==> !(end is Some && datetime_at(end->0, now) is None) && start is Some && datetime_at(
            start->0,
            now,
        ) is None,
        period_at(start, end, now) matches Ok(period) ==> {
            &&& end is None ==> period.1 == now
            &&& end is Some ==> datetime_at(end->0, now) == Some(period.1)
            &&& start is Some ==> datetime_at(start->0, now) == Some(period.0)
            &&& start is None && 0 <= period.1.nanos < 1_000_000_000 ==> time::epoch_nanos(
                period.1,
            ) - time::epoch_nanos(period.0) == 24 * 60 * 60 * 1_000_000_000
        },
{
}

/// Where a day is left before the end of a period, the period can start there: a period
/// without a start of its own starts at an instant.
pub proof fn a_day_that_is_left_can_start(end: Option<Seq<char>>, now: Instant)
    requires
        now.valid(),
        end matches Some(s) ==> time::rfc3339_instant(s) is None,
    ensures
        leaves_a_day(end, now) <==> (period_at(None, end, now) matches Ok(period)
            ==> period.0.valid()),
{
    if end is None {
        assert(now.minus(0) == now);
    }
}

} // verus!
