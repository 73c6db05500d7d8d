//! UTC instants: their order, their clock readings and their wire form.
use vstd::prelude::*;
use crate::text::{two_place_text, two_places};
use crate::wire::{Parsed, Reader, Wire};

verus! {

/// Unix seconds of the first second of the calendar's first year.
pub const FIRST_SECOND: i64 = -8_334_601_228_800;

/// Unix seconds of the last second of the calendar's last year.
pub const LAST_SECOND: i64 = 8_210_266_876_799;

pub const HOUR: i64 = 3_600;

pub const DAY: i64 = 86_400;

/// A UTC instant: whole seconds since the Unix epoch, and nanoseconds past
/// them. Nanoseconds of a billion and more are a leap second.
#[derive(Clone, Copy, Debug, PartialEq, Eq, Structural, Hash)]
pub struct Instant {
    pub secs: i64,
    pub nanos: u32,
}

impl View for Instant {
    type V = Instant;

    open spec fn view(&self) -> Instant {
        *self
    }
}

impl DeepView for Instant {
    type V = Instant;

    open spec fn deep_view(&self) -> Instant {
        *self
    }
}

/// Whether a pair of seconds and nanoseconds names an instant of the calendar.
pub open spec fn on_calendar(secs: i64, nanos: u32) -> bool {
    &&& FIRST_SECOND <= secs <= LAST_SECOND
    &&& nanos < 1_000_000_000 || (nanos < 2_000_000_000 && secs % 60 == 59)
}

/// `chrono::DateTime::from_timestamp`, read back through `timestamp` and
/// `timestamp_subsec_nanos`.
///
/// Trusted: it answers exactly on the pairs that are on the calendar, whose
/// years run from -262143 to 262142 and whose leap seconds follow a 59th
/// second, and the instant it answers has the seconds and nanoseconds given.
#[verifier::external_body]
fn calendar_instant(secs: i64, nanos: u32) -> (instant: Option<Instant>)
    ensures
        instant == (if on_calendar(secs, nanos) {
            Some(Instant { secs, nanos })
        } else {
            None
        }),
{
    chrono::DateTime::from_timestamp(secs, nanos).map(
        |t| Instant { secs: t.timestamp(), nanos: t.timestamp_subsec_nanos() },
    )
}

/// What `chrono` writes for a UTC second under a pattern.
pub uninterp spec fn calendar_text(secs: i64, pattern: Seq<char>) -> Seq<char>;

/// `chrono::DateTime::format` of the instant that
/// `chrono::DateTime::from_timestamp` gives.
///
/// Trusted: it answers exactly for a second on the calendar, and the text is a
/// function of the second and the pattern alone. What the text is, letter by
/// letter, is left to `chrono`. The patterns are two that it can write.
#[verifier::external_body]
pub(crate) fn format_calendar(secs: i64, pattern: &str) -> (text: Option<String>)
    requires
        pattern@ == "%b %d %Y %H:%M"@ || pattern@ == "%m/%d"@,
    ensures
        text.deep_view() == (if on_calendar(secs, 0) {
            Some(calendar_text(secs, pattern@))
        } else {
            None
        }),
{
    let instant = chrono::DateTime::from_timestamp(secs, 0);
    instant.map(|t| t.format(pattern).to_string())
}

/// What `chrono` reads in a text under `%Y-%m-%dT%H:%M:%S`.
pub uninterp spec fn calendar_reading(text: Seq<char>) -> Option<Instant>;

/// `chrono::NaiveDateTime::parse_from_str` with `%Y-%m-%dT%H:%M:%S`, taken as
/// UTC.
///
/// Trusted: what it reads is a function of the text alone, and is on the
/// calendar. Which texts it reads, and as what, is left to `chrono`.
#[verifier::external_body]
pub(crate) fn parse_calendar(text: &str) -> (instant: Option<Instant>)
    ensures
        instant == calendar_reading(text@),
        instant matches Some(t) ==> on_calendar(t.secs, t.nanos),
{
    let read = chrono::NaiveDateTime::parse_from_str(text, "%Y-%m-%dT%H:%M:%S").ok();
    read.map(
        |t|
            Instant {
                secs: t.and_utc().timestamp(),
                nanos: t.and_utc().timestamp_subsec_nanos(),
            },
    )
}

impl Instant {
    /// The instant `secs` whole seconds after the epoch.
    pub fn at(secs: i64) -> (instant: Instant)
        ensures
            instant == (Instant { secs, nanos: 0 }),
    {
        Instant { secs, nanos: 0 }
    }

    /// Strictly earlier.
    pub open spec fn before(self, other: Instant) -> bool {
        self.secs < other.secs || (self.secs == other.secs && self.nanos < other.nanos)
    }

    /// Earlier, or the same.
    pub open spec fn not_after(self, other: Instant) -> bool {
        !other.before(self)
    }

    pub fn is_before(&self, other: &Instant) -> (b: bool)
        ensures
            b == self.before(*other),
    {
        self.secs < other.secs || (self.secs == other.secs && self.nanos < other.nanos)
    }

    pub fn is_not_after(&self, other: &Instant) -> (b: bool)
        ensures
            b == self.not_after(*other),
    {
        !other.is_before(self)
    }

    /// The hour of the day, UTC.
    pub open spec fn hour_of_day(self) -> nat {
        ((self.secs as int % DAY as int) / HOUR as int) as nat
    }

    /// The minute of the hour, UTC.
    pub open spec fn minute_of_hour(self) -> nat {
        ((self.secs as int % HOUR as int) / 60) as nat
    }

    pub fn hour(&self) -> (h: u64)
        ensures
            h == self.hour_of_day(),
            h < 24,
    {
        match self.secs.checked_rem_euclid(DAY) {
            Some(in_day) => (in_day as u64) / 3_600,
            None => 0,
        }
    }

    pub fn minute(&self) -> (m: u64)
        ensures
            m == self.minute_of_hour(),
            m < 60,
    {
        match self.secs.checked_rem_euclid(HOUR) {
            Some(in_hour) => (in_hour as u64) / 60,
            None => 0,
        }
    }

    /// This instant moved by whole seconds. The caller keeps it in range.
    pub open spec fn shifted(self, secs: int) -> Instant {
        Instant { secs: (self.secs + secs) as i64, nanos: self.nanos }
    }

    /// On the calendar, and not in a leap second.
    pub open spec fn steady(self) -> bool {
        &&& FIRST_SECOND <= self.secs <= LAST_SECOND
        &&& self.nanos < 1_000_000_000
    }

    pub fn is_steady(&self) -> (b: bool)
        ensures
            b == self.steady(),
    {
        FIRST_SECOND <= self.secs && self.secs <= LAST_SECOND && self.nanos < 1_000_000_000
    }

    /// This instant, some hours on.
    pub open spec fn hours_on(self, hours: int) -> Instant {
        self.shifted(hours * HOUR)
    }

    pub fn plus_hours(&self, hours: u8) -> (later: Instant)
        requires
            self.secs <= LAST_SECOND,
        ensures
            later == self.hours_on(hours as int),
            later.secs == self.secs + hours * HOUR,
    {
        Instant { secs: self.secs + hours as i64 * HOUR, nanos: self.nanos }
    }

    pub fn minus_hours(&self, hours: u8) -> (earlier: Instant)
        requires
            self.secs >= FIRST_SECOND,
        ensures
            earlier == self.hours_on(-hours),
            earlier.secs == self.secs - hours * HOUR,
    {
        Instant { secs: self.secs - hours as i64 * HOUR, nanos: self.nanos }
    }

    /// Whole hours from an earlier instant to this one, cut toward zero.
    pub open spec fn hours_since(self, earlier: Instant) -> int {
        let nanos = (self.secs - earlier.secs) * 1_000_000_000 + self.nanos - earlier.nanos;
        if nanos >= 0 {
            nanos / 3_600_000_000_000
        } else {
            -((-nanos) / 3_600_000_000_000)
        }
    }

    /// Whole hours from an earlier instant to this one, where a byte holds them.
    pub fn byte_hours_since(&self, earlier: &Instant) -> (hours: Option<u8>)
        requires
            self.steady(),
            earlier.steady(),
        ensures
            hours == (if 0 <= self.hours_since(*earlier) <= u8::MAX {
                Some(self.hours_since(*earlier) as u8)
            } else {
                None
            }),
    {
        let nanos: i128 = (self.secs as i128 - earlier.secs as i128) * 1_000_000_000
            + self.nanos as i128 - earlier.nanos as i128;
        if nanos < 0 {
            if nanos > -3_600_000_000_000 {
                return Some(0);
            }
            return None;
        }
        let hours: i128 = nanos / 3_600_000_000_000;
        if hours <= 255 {
            Some(hours as u8)
        } else {
            None
        }
    }

    /// Whether two instants fall on one UTC day.
    pub open spec fn on_day_of(self, other: Instant) -> bool {
        self.secs as int / DAY as int == other.secs as int / DAY as int
    }

    pub fn same_day(&self, other: &Instant) -> (b: bool)
        ensures
            b == self.on_day_of(*other),
    {
        match (self.secs.checked_div_euclid(DAY), other.secs.checked_div_euclid(DAY)) {
            (Some(a), Some(b)) => a == b,
            _ => false,
        }
    }

    /// The start of the hour this instant is in.
    pub open spec fn hour_start(self) -> Instant {
        Instant { secs: (self.secs - self.secs as int % HOUR as int) as i64, nanos: 0 }
    }

    pub fn on_the_hour(&self) -> (start: Instant)
        requires
            self.secs >= FIRST_SECOND,
        ensures
            start == self.hour_start(),
            start.secs % HOUR == 0,
            start.secs <= self.secs < start.secs + HOUR,
    {
        match self.secs.checked_rem_euclid(HOUR) {
            Some(past) => Instant { secs: self.secs - past, nanos: 0 },
            None => *self,
        }
    }

    /// The clock reading `HH:MMz`.
    pub open spec fn clock_view(self) -> Seq<char> {
        two_places(self.hour_of_day()) + seq![':'] + two_places(self.minute_of_hour()) + seq!['z']
    }

    pub fn clock(&self) -> (text: String)
        ensures
            text@ == self.clock_view(),
    {
        proof {
            reveal_strlit(":");
            reveal_strlit("z");
        }
        let mut text = two_place_text(self.hour());
        text.append(":");
        text.append(two_place_text(self.minute()).as_str());
        text.append("z");
        assert(text@ =~= self.clock_view());
        text
    }
}

/// Instants are ordered as a line: of two that differ, exactly one is earlier,
/// and earlier carries through.
pub proof fn law_instants_are_ordered(a: Instant, b: Instant, c: Instant)
    ensures
        !a.before(a),
        a == b || a.before(b) || b.before(a),
        a.before(b) ==> !b.before(a),
        a.before(b) && b.before(c) ==> a.before(c),
        a.not_after(b) && b.not_after(c) ==> a.not_after(c),
        a.not_after(b) && b.not_after(a) ==> a == b,
{
}

/// Twelve bytes: the seconds and then the nanoseconds. A pair off the calendar
/// is refused rather than clamped to a time nobody stated.
impl Wire for Instant {
    open spec fn fits(view: Instant) -> bool {
        on_calendar(view.secs, view.nanos)
    }

    open spec fn encoded(view: Instant) -> Seq<u8> {
        <(i64, u32) as Wire>::encoded((view.secs, view.nanos))
    }

    open spec fn parsed(bytes: Seq<u8>) -> Parsed<Instant> {
        match <(i64, u32) as Wire>::parsed(bytes) {
            Some(((secs, nanos), rest)) => if on_calendar(secs, nanos) {
                Some((Instant { secs, nanos }, rest))
            } else {
                None
            },
            None => None,
        }
    }

    open spec fn restored(&self) -> bool {
        true
    }

    fn encode(&self, out: &mut Vec<u8>) {
        (self.secs, self.nanos).encode(out);
    }

    fn decode(r: &mut Reader<'_>) -> (value: Option<Instant>) {
        match <(i64, u32) as Wire>::decode(r) {
            Some((secs, nanos)) => calendar_instant(secs, nanos),
            None => None,
        }
    }

    proof fn law_round_trip(view: Instant, tail: Seq<u8>) {
        <(i64, u32) as Wire>::law_round_trip((view.secs, view.nanos), tail);
    }

    proof fn law_canonical(bytes: Seq<u8>) {
        <(i64, u32) as Wire>::law_canonical(bytes);
    }
}

/// Of two instants the one with fewer seconds is earlier, and within one second
/// the one with fewer nanoseconds; one moved on is later than it was.
pub proof fn law_the_clock_orders_instants(a: Instant, b: Instant, secs: int)
    requires
        0 < secs,
        a.secs + secs <= i64::MAX,
    ensures
        a.secs < b.secs ==> a.before(b),
        a.secs == b.secs && a.nanos < b.nanos ==> a.before(b),
        a.before(b) ==> a.secs <= b.secs,
        !a.before(a),
        a.before(a.shifted(secs)),
        a.shifted(secs).secs == a.secs + secs,
        a.shifted(secs).nanos == a.nanos,
{
}

/// So many hours on is so many whole hours later, and so is anything short of one
/// more.
pub proof fn law_hours_on_are_hours_since(t: Instant, hours: int, past: int)
    requires
        0 <= hours,
        0 <= past < HOUR,
        t.secs + hours * HOUR + past <= i64::MAX,
    ensures
        t.hours_on(hours).secs == t.secs + hours * 3_600,
        t.hours_on(hours).nanos == t.nanos,
        t.hours_on(hours).hours_since(t) == hours,
        t.hours_on(hours).shifted(past).hours_since(t) == hours,
{
    let nanos = (hours * HOUR) * 1_000_000_000;
    let more = (hours * HOUR + past) * 1_000_000_000;
    assert(nanos == hours * 3_600_000_000_000 && nanos >= 0 && nanos <= more < nanos
        + 3_600_000_000_000);
    assert(nanos / 3_600_000_000_000 == hours && more / 3_600_000_000_000 == hours)
        by (nonlinear_arith)
        requires
            nanos == hours * 3_600_000_000_000,
            nanos <= more < nanos + 3_600_000_000_000,
    ;
}

/// The start of an instant's hour is on the hour, not after the instant, and less
/// than an hour before it; hour and minute are what a clock shows.
pub proof fn law_an_hour_starts_on_the_hour(t: Instant)
    requires
        t.secs >= FIRST_SECOND,
    ensures
        t.hour_start().secs % 3_600 == 0,
        t.hour_start().nanos == 0,
        t.hour_start().secs <= t.secs < t.hour_start().secs + 3_600,
        t.hour_of_day() < 24,
        t.minute_of_hour() < 60,
        exists|day: int, sec: int|
            #![trigger second_of(day, t.hour_of_day() as int, t.minute_of_hour() as int, sec)]
            0 <= sec < 60 && t.secs == second_of(
                day,
                t.hour_of_day() as int,
                t.minute_of_hour() as int,
                sec,
            ),
{
    let day = t.secs as int / 86_400;
    let sec = t.secs as int % 60;
    assert(t.secs == second_of(day, t.hour_of_day() as int, t.minute_of_hour() as int, sec));
}

/// The second that a day, an hour, a minute and a second of it are.
pub open spec fn second_of(day: int, hour: int, minute: int, second: int) -> int {
    day * 86_400 + hour * 3_600 + minute * 60 + second
}

} // verus!
