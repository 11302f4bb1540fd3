//! Instants in UTC: order, differences, and their RFC 3339 texts.
use chrono::{DateTime, TimeDelta, Utc};
use vstd::prelude::*;

verus! {

/// First second that an instant can hold (the start of the year -262143).
pub const MIN_SECONDS: i64 = -8_334_601_228_800;

/// Last second that an instant can hold (the end of the year 262142).
pub const MAX_SECONDS: i64 = 8_210_266_876_799;

/// Nanoseconds in a second.
pub const SECOND_NANOS: i128 = 1_000_000_000;

/// Whether `secs` seconds after the epoch and `nanos` nanoseconds are an
/// instant. A nanosecond count from one billion on stands for a leap second,
/// which only the last second of a minute can hold.
pub open spec fn is_instant(secs: int, nanos: int) -> bool {
    &&& MIN_SECONDS <= secs <= MAX_SECONDS
    &&& 0 <= nanos < 2_000_000_000
    &&& nanos >= 1_000_000_000 ==> secs % 60 == 59
}

/// An instant in UTC, to the nanosecond.
#[derive(Clone, Copy, Debug, PartialEq, Eq, Structural)]
pub struct Timestamp {
    secs: i64,
    nanos: u32,
}

/// An instant as seconds after the epoch and nanoseconds within the second.
pub struct Instant {
    pub secs: int,
    pub nanos: int,
}

impl Instant {
    /// Whether this is an instant that a [`Timestamp`] can hold.
    pub open spec fn valid(self) -> bool {
        is_instant(self.secs, self.nanos)
    }

    /// Milliseconds since the epoch, rounded down.
    pub open spec fn millis(self) -> int {
        self.secs * 1000 + self.nanos / 1_000_000
    }

    /// This instant without what lies below its millisecond.
    pub open spec fn to_the_milli(self) -> Instant {
        Instant { nanos: self.nanos / 1_000_000 * 1_000_000, ..self }
    }

    /// Whether this instant comes at or before `other`.
    pub open spec fn at_most(self, other: Instant) -> bool {
        self.secs < other.secs || (self.secs == other.secs && self.nanos <= other.nanos)
    }

    /// Whether this instant comes before `other`.
    pub open spec fn before(self, other: Instant) -> bool {
        self.at_most(other) && self != other
    }

    /// The second of the day.
    pub open spec fn second_of_day(self) -> int {
        self.secs % 86_400
    }

    /// Nanoseconds from `earlier` to this instant; negative where it comes
    /// later. A leap second is counted where it lies between the two times of
    /// day.
    pub open spec fn since(self, earlier: Instant) -> int {
        let leap: int = if self.second_of_day() > earlier.second_of_day() && earlier.nanos
            >= SECOND_NANOS {
            1
        } else if self.second_of_day() < earlier.second_of_day() && self.nanos >= SECOND_NANOS {
            -1
        } else {
            0
        };
        (self.secs - earlier.secs + leap) * SECOND_NANOS + (self.nanos - earlier.nanos)
    }

    /// The instant `seconds` before this one. Leaving a leap second folds it
    /// into the second that follows.
    pub open spec fn minus(self, seconds: int) -> Instant {
        if seconds != 0 && self.nanos >= SECOND_NANOS {
            Instant { secs: self.secs + 1 - seconds, nanos: self.nanos - SECOND_NANOS }
        } else {
            Instant { secs: self.secs - seconds, nanos: self.nanos }
        }
    }
}

/// Whether a second lies in the years from zero to 9999, or less than a day away:
/// those that an RFC 3339 text can give.
pub open spec fn is_text_second(secs: int) -> bool {
    -62_167_305_600 <= secs <= 253_402_387_199
}

/// Whether a second lies in the years from zero to 9999, which are written with four
/// digits and no sign.
pub open spec fn is_plain_second(secs: int) -> bool {
    -62_167_219_200 <= secs <= 253_402_300_799
}

/// The instant that `DateTime::parse_from_rfc3339` reads from a text.
pub uninterp spec fn rfc3339_instant(text: Seq<char>) -> Option<(i64, u32)>;

/// Whether an instant is read from a text.
pub open spec fn reads_as(text: Seq<char>, at: Instant) -> bool {
    rfc3339_instant(text) matches Some(parts) && parts.0 == at.secs && parts.1 == at.nanos
}

/// The text that `DateTime::to_rfc3339` writes for an instant.
pub uninterp spec fn rfc3339_text(secs: int, nanos: int) -> Seq<char>;

/// The text that `DateTime::format` writes for an instant and a format.
pub uninterp spec fn formatted_text(secs: int, nanos: int, format: Seq<char>) -> Seq<char>;

/// Format of an instant to the second.
pub open spec fn second_format() -> Seq<char> {
    "%Y-%m-%dT%H:%M:%SZ"@
}

/// Format of an instant to the millisecond.
pub open spec fn milli_format() -> Seq<char> {
    "%Y-%m-%dT%H:%M:%S%.3fZ"@
}

/// Calls `chrono::DateTime::parse_from_rfc3339` and takes the seconds and
/// nanoseconds of the instant in UTC. The result depends on the text alone. What is
/// read is an instant, and since the text writes a year with four digits and an
/// offset of less than a day, it lies in those years or a day away.
#[verifier::external_body]
fn read_rfc3339(text: &str) -> (r: Option<(i64, u32)>)
    ensures
        r == rfc3339_instant(text@),
        r matches Some(parts) ==> is_instant(parts.0 as int, parts.1 as int) && is_text_second(
            parts.0 as int,
        ),
{
    match DateTime::parse_from_rfc3339(text) {
        Ok(at) => Some((at.timestamp(), at.timestamp_subsec_nanos())),
        Err(_) => None,
    }
}

/// Calls `chrono::DateTime::to_rfc3339` on the instant of these seconds and
/// nanoseconds, which `DateTime::from_timestamp` accepts for every instant. It writes
/// as many digits of the nanoseconds as there are, so that in the years that are
/// written plainly `DateTime::parse_from_rfc3339` reads the same instant back.
#[verifier::external_body]
fn write_rfc3339(secs: i64, nanos: u32) -> (r: String)
    requires
        is_instant(secs as int, nanos as int),
    ensures
        r@ == rfc3339_text(secs as int, nanos as int),
        is_plain_second(secs as int) ==> rfc3339_instant(r@) == Some((secs, nanos)),
{
    DateTime::<Utc>::from_timestamp(secs, nanos).expect("an instant").to_rfc3339()
}

/// Calls `chrono::DateTime::format` and takes the text. The formats are the two
/// whose specifiers `chrono` knows; with others the text could not be written. In the
/// years that are written plainly `DateTime::parse_from_rfc3339` reads the instant back
/// with the format to the millisecond, as far as that tells it.
#[verifier::external_body]
fn write_formatted(secs: i64, nanos: u32, format: &str) -> (r: String)
    requires
        is_instant(secs as int, nanos as int),
        format@ == second_format() || format@ == milli_format(),
    ensures
        r@ == formatted_text(secs as int, nanos as int, format@),
        is_plain_second(secs as int) && format@ == milli_format() ==> rfc3339_instant(r@) == Some(
            (secs, (nanos / 1_000_000 * 1_000_000) as u32),
        ),
{
    DateTime::<Utc>::from_timestamp(secs, nanos).expect("an instant").format(format).to_string()
}

/// Calls `chrono::Utc::now`. Of the result only that it is an instant, and one in no
/// leap second, is stated: which one it is depends on the clock. The clock counts from
/// the epoch without leap seconds, so that none is ever given.
#[verifier::external_body]
fn read_clock() -> (r: (i64, u32))
    ensures
        is_instant(r.0 as int, r.1 as int),
        r.1 < SECOND_NANOS,
{
    let at = Utc::now();
    (at.timestamp(), at.timestamp_subsec_nanos())
}

/// The instant, as seconds and nanoseconds, that `DateTime::checked_add_signed` gives
/// for milliseconds after an instant; `None` where it is out of range.
pub uninterp spec fn shifted_parts(secs: int, nanos: int, millis: int) -> Option<(i64, u32)>;

/// The instant this many milliseconds after another.
pub open spec fn shifted(at: Instant, millis: int) -> Option<Instant> {
    match shifted_parts(at.secs, at.nanos, millis) {
        Some(parts) => Some(Instant { secs: parts.0 as int, nanos: parts.1 as int }),
        None => None,
    }
}

/// Whether an instant lies this many milliseconds after another that is in no leap
/// second, or is out of range there.
pub open spec fn lies_after(found: Option<(i64, u32)>, at: Instant, millis: int) -> bool {
    let nanos = at.nanos + millis * 1_000_000;
    match found {
        Some(parts) => parts.0 == at.secs + nanos / SECOND_NANOS as int && parts.1 == nanos
            % SECOND_NANOS as int,
        None => !is_instant(at.secs + nanos / SECOND_NANOS as int, nanos % SECOND_NANOS as int),
    }
}

/// Calls `chrono::DateTime::checked_add_signed` with `TimeDelta::milliseconds`. Outside
/// of a leap second the time passes as the clock counts; what is given within one
/// depends on the arguments alone.
#[verifier::external_body]
fn add_millis(secs: i64, nanos: u32, millis: i64) -> (r: Option<(i64, u32)>)
    requires
        is_instant(secs as int, nanos as int),
        millis > i64::MIN,
    ensures
        r == shifted_parts(secs as int, nanos as int, millis as int),
        r matches Some(parts) ==> is_instant(parts.0 as int, parts.1 as int),
        nanos < SECOND_NANOS ==> lies_after(
            r,
            (Instant { secs: secs as int, nanos: nanos as int }),
            millis as int,
        ),
{
    let at = DateTime::<Utc>::from_timestamp(secs, nanos).expect("an instant");
    let moved = at.checked_add_signed(TimeDelta::milliseconds(millis))?;
    Some((moved.timestamp(), moved.timestamp_subsec_nanos()))
}

/// How far `secs` lies into its minute or day, the epoch starting both.
fn second_within(secs: i64, period: i64) -> (r: i64)
    requires
        secs >= MIN_SECONDS,
        secs <= MAX_SECONDS,
        period == 60 || period == 86_400,
    ensures
        r == secs as int % period as int,
{
    // The first second that an instant can hold starts a day.
    let shifted: i64 = secs - MIN_SECONDS;
    shifted % period
}

impl View for Timestamp {
    type V = Instant;

    closed spec fn view(&self) -> Instant {
        Instant { secs: self.secs as int, nanos: self.nanos as int }
    }
}

impl Timestamp {
    #[verifier::type_invariant]
    spec fn well_formed(self) -> bool {
        is_instant(self.secs as int, self.nanos as int)
    }

    /// The instant `secs` seconds and `nanos` nanoseconds after the epoch;
    /// `None` where these are no instant.
    pub fn from_parts(secs: i64, nanos: u32) -> (r: Option<Timestamp>)
        ensures
            r is Some <==> is_instant(secs as int, nanos as int),
            r matches Some(t) ==> t@ == (Instant { secs: secs as int, nanos: nanos as int }),
    {
        if secs < MIN_SECONDS || secs > MAX_SECONDS || nanos >= 2_000_000_000 {
            return None;
        }
        if nanos >= 1_000_000_000 && second_within(secs, 60) != 59 {
            return None;
        }
        Some(Timestamp { secs, nanos })
    }

    /// The seconds since the epoch and the nanoseconds within the second.
    pub fn parts(&self) -> (r: (i64, u32))
        ensures
            self@ == (Instant { secs: r.0 as int, nanos: r.1 as int }),
            is_instant(r.0 as int, r.1 as int),
    {
        proof {
            use_type_invariant(self);
        }
        (self.secs, self.nanos)
    }

    /// The instant that an RFC 3339 text gives; `None` for any other text.
    pub fn parse(text: &str) -> (r: Option<Timestamp>)
        ensures
            match rfc3339_instant(text@) {
                Some(parts) => r matches Some(t) && t@ == (Instant {
                    secs: parts.0 as int,
                    nanos: parts.1 as int,
                }) && is_text_second(t@.secs),
                None => r is None,
            },
    {
        match read_rfc3339(text) {
            Some((secs, nanos)) => Some(Timestamp { secs, nanos }),
            None => None,
        }
    }

    /// The present instant, as the clock gives it: one in no leap second.
    pub fn now() -> (r: Timestamp)
        ensures
            r@.valid(),
            r@.nanos < SECOND_NANOS,
    {
        let (secs, nanos): (i64, u32) = read_clock();
        Timestamp { secs, nanos }
    }

    /// The RFC 3339 text of this instant.
    pub fn to_rfc3339(&self) -> (r: String)
        ensures
            r@ == rfc3339_text(self@.secs, self@.nanos),
            is_plain_second(self@.secs) ==> reads_as(r@, self@),
    {
        proof {
            use_type_invariant(self);
        }
        write_rfc3339(self.secs, self.nanos)
    }

    /// This instant to the second, with a final `Z`.
    pub fn to_second_text(&self) -> (r: String)
        ensures
            r@ == formatted_text(self@.secs, self@.nanos, second_format()),
    {
        proof {
            use_type_invariant(self);
        }
        write_formatted(self.secs, self.nanos, "%Y-%m-%dT%H:%M:%SZ")
    }

    /// This instant to the millisecond, with a final `Z`.
    pub fn to_milli_text(&self) -> (r: String)
        ensures
            r@ == formatted_text(self@.secs, self@.nanos, milli_format()),
            is_plain_second(self@.secs) ==> reads_as(r@, self@.to_the_milli()),
    {
        proof {
            use_type_invariant(self);
        }
        write_formatted(self.secs, self.nanos, "%Y-%m-%dT%H:%M:%S%.3fZ")
    }

    /// Whether this instant comes at or before `other`.
    pub fn at_most(&self, other: &Timestamp) -> (r: bool)
        ensures
            r == self@.at_most(other@),
    {
        self.secs < other.secs || (self.secs == other.secs && self.nanos <= other.nanos)
    }

    /// Whether this instant comes before `other`.
    pub fn before(&self, other: &Timestamp) -> (r: bool)
        ensures
            r == self@.before(other@),
    {
        self.secs < other.secs || (self.secs == other.secs && self.nanos < other.nanos)
    }

    /// Nanoseconds from `earlier` to this instant.
    pub fn since(&self, earlier: &Timestamp) -> (r: i128)
        ensures
            r == self@.since(earlier@),
            -2_000_000_000_000_000_000_000_000 < r < 2_000_000_000_000_000_000_000_000,
    {
        proof {
            use_type_invariant(self);
            use_type_invariant(earlier);
        }
        let own: i64 = second_within(self.secs, 86_400);
        let other: i64 = second_within(earlier.secs, 86_400);
        let leap: i128 = if own > other && earlier.nanos >= 1_000_000_000 {
            1
        } else if own < other && self.nanos >= 1_000_000_000 {
            -1
        } else {
            0
        };
        let whole: i128 = self.secs as i128 - earlier.secs as i128 + leap;
        whole * SECOND_NANOS + (self.nanos as i128 - earlier.nanos as i128)
    }

    /// Whole minutes from `earlier` to this instant, rounded towards zero.
    pub fn minutes_since(&self, earlier: &Timestamp) -> (r: i64)
        ensures
            r == truncated(self@.since(earlier@), 60 * SECOND_NANOS),
    {
        let nanos: i128 = self.since(earlier);
        if nanos >= 0 {
            (nanos / 60_000_000_000) as i64
        } else {
            -((-nanos) / 60_000_000_000) as i64
        }
    }

    /// Whole milliseconds from `earlier` to this instant, rounded towards zero.
    pub fn millis_since(&self, earlier: &Timestamp) -> (r: i64)
        ensures
            r == truncated(self@.since(earlier@), 1_000_000),
            -2_000_000_000_000_000_000 < r < 2_000_000_000_000_000_000,
    {
        let nanos: i128 = self.since(earlier);
        if nanos >= 0 {
            (nanos / 1_000_000) as i64
        } else {
            -((-nanos) / 1_000_000) as i64
        }
    }

    /// Milliseconds since the epoch, rounded down. A leap second counts on into the
    /// second that follows.
    pub fn timestamp_millis(&self) -> (r: i64)
        ensures
            r == self@.millis(),
    {
        proof {
            use_type_invariant(self);
        }
        self.secs * 1000 + (self.nanos / 1_000_000) as i64
    }

    /// The instant `millis` milliseconds after this one, or before it where they are
    /// negative; `None` where that is out of range.
    pub fn shift_millis(&self, millis: i64) -> (r: Option<Timestamp>)
        requires
            millis > i64::MIN,
        ensures
            match shifted(self@, millis as int) {
                Some(at) => r matches Some(t) && t@ == at,
                None => r is None,
            },
            self@.nanos < SECOND_NANOS ==> lies_after(
                shifted_parts(self@.secs, self@.nanos, millis as int),
                self@,
                millis as int,
            ),
    {
        proof {
            use_type_invariant(self);
        }
        match add_millis(self.secs, self.nanos, millis) {
            Some((secs, nanos)) => Some(Timestamp { secs, nanos }),
            None => None,
        }
    }

    /// The instant `seconds` before this one; `None` where that is out of range.
    pub fn minus(&self, seconds: u64) -> (r: Option<Timestamp>)
        ensures
            self@.valid(),
            r is Some <==> self@.minus(seconds as int).valid(),
            r matches Some(t) ==> t@ == self@.minus(seconds as int),
    {
        proof {
            use_type_invariant(self);
        }
        if seconds > 20_000_000_000_000 {
            return None;
        }
        if seconds != 0 && self.nanos >= 1_000_000_000 {
            Timestamp::from_parts(self.secs + 1 - seconds as i64, self.nanos - 1_000_000_000)
        } else {
            Timestamp::from_parts(self.secs - seconds as i64, self.nanos)
        }
    }
}

/// The instant of an optional timestamp.
pub open spec fn opt_instant(t: Option<Timestamp>) -> Option<Instant> {
    match t {
        Some(t) => Some(t@),
        None => None,
    }
}

/// Quotient of `a` by `b`, rounded towards zero.
pub open spec fn truncated(a: int, b: int) -> int {
    if a >= 0 {
        a / b
    } else {
        -((-a) / b)
    }
}

/// The order of instants is total: of two, one comes at or before the other, and
/// both do only where they are the same.
pub proof fn instants_are_ordered(a: Instant, b: Instant, c: Instant)
    ensures
        a.at_most(b) || b.at_most(a),
        a.at_most(b) && b.at_most(a) ==> a == b,
        a.at_most(b) && b.at_most(c) ==> a.at_most(c),
{
}

/// Nanoseconds since the epoch, of an instant in no leap second.
pub open spec fn epoch_nanos(at: Instant) -> int {
    at.secs * 1_000_000_000 + at.nanos
}

/// Outside of leap seconds instants follow the clock: they come in the order of their
/// nanoseconds since the epoch, and what lies between two is the difference of these.
pub proof fn instants_follow_the_clock(a: Instant, b: Instant)
    requires
        0 <= a.nanos < 1_000_000_000,
        0 <= b.nanos < 1_000_000_000,
    ensures
        a.at_most(b) <==> epoch_nanos(a) <= epoch_nanos(b),
        a.before(b) <==> epoch_nanos(a) < epoch_nanos(b),
        a.since(b) == epoch_nanos(a) - epoch_nanos(b),
{
}

/// Outside of leap seconds going back takes the seconds from the clock, so that they lie
/// between the two instants; going back by nothing changes nothing, and going back twice
/// goes back by both.
pub proof fn going_back_takes_the_seconds(at: Instant, seconds: int, more: int)
    requires
        0 <= at.nanos < 1_000_000_000,
    ensures
        epoch_nanos(at.minus(seconds)) == epoch_nanos(at) - seconds * 1_000_000_000,
        at.since(at.minus(seconds)) == seconds * 1_000_000_000,
        at.minus(0) == at,
        at.minus(seconds).minus(more) == at.minus(seconds + more),
{
}

/// The milliseconds of an instant are those that have passed in full, and what lies
/// below them is all that leaving out the rest takes away.
pub proof fn milliseconds_are_rounded_down(at: Instant)
    requires
        0 <= at.nanos,
    ensures
        at.millis() * 1_000_000 <= epoch_nanos(at) < (at.millis() + 1) * 1_000_000,
        at.to_the_milli().at_most(at),
        epoch_nanos(at.to_the_milli()) == at.millis() * 1_000_000,
        at.to_the_milli().millis() == at.millis(),
{
}

/// A quotient that is rounded towards zero leaves less than the divisor, on the side of
/// the dividend, and changes its sign with the dividend.
pub proof fn quotients_are_rounded_towards_zero(a: int, b: int)
    requires
        b > 0,
    ensures
        a >= 0 ==> truncated(a, b) * b <= a < truncated(a, b) * b + b,
        a <= 0 ==> truncated(a, b) * b - b < a <= truncated(a, b) * b,
        truncated(-a, b) == -truncated(a, b),
{
    let q = if a >= 0 {
        a / b
    } else {
        (-a) / b
    };
    let size = if a >= 0 {
        a
    } else {
        -a
    };
    vstd::arithmetic::div_mod::lemma_fundamental_div_mod(size, b);
    vstd::arithmetic::div_mod::lemma_mod_bound(size, b);
    assert(q * b == b * q) by (nonlinear_arith);
    assert((-q) * b == -(q * b)) by (nonlinear_arith);
    if a == 0 {
        assert(q == 0) by {
            vstd::arithmetic::div_mod::lemma_div_of0(b);
        }
    }
}

} // verus!
