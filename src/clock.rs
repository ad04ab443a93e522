//! Wall-clock time model: times of day, naive date-times counted in seconds,
//! weekdays, and the few conversions that only a time-zone database can make.
use chrono::{Offset, TimeZone};
use chrono_tz::Tz;
use vstd::prelude::*;

verus! {

/// Seconds in one calendar day.
pub const SECONDS_PER_DAY: i64 = 86400;

/// Largest distance, in seconds, of a naive date-time from 1970-01-01T00:00:00
/// (about 34,800 years); every date-time the library builds stays within twice
/// that distance.
pub const MAX_ABS_SECS: i64 = 1_099_511_627_776;

/// Whether a count of seconds since 1970-01-01T00:00:00 is a valid date-time.
pub open spec fn valid_secs(s: int) -> bool {
    -MAX_ABS_SECS <= s <= MAX_ABS_SECS
}

/// Whether a count of seconds lies in the range where date arithmetic and the
/// time-zone conversions below are defined.
pub open spec fn in_clock_range(s: int) -> bool {
    -2 * MAX_ABS_SECS <= s <= 2 * MAX_ABS_SECS
}

/// A wall-clock time of day, in whole seconds since midnight.
#[derive(Clone, Copy, Debug, PartialEq, Eq, Structural)]
pub struct NaiveTime {
    pub secs: u32,
}

impl NaiveTime {
    pub open spec fn wf(self) -> bool {
        self.secs < 86400
    }

    /// The time `h:m:s`.
    pub fn from_hms(h: u32, m: u32, s: u32) -> (r: NaiveTime)
        requires
            h < 24,
            m < 60,
            s < 60,
        ensures
            r.wf(),
            r.secs == 3600 * h + 60 * m + s,
    {
        NaiveTime { secs: 3600 * h + 60 * m + s }
    }
}

/// A wall-clock date and time with no zone, as the number of seconds since
/// 1970-01-01T00:00:00 on the same wall clock.
#[derive(Clone, Copy, Debug, PartialEq, Eq, Structural)]
pub struct NaiveDateTime {
    pub secs: i64,
}

/// The day number (days since 1970-01-01) of a count of seconds.
pub open spec fn day_of(s: int) -> int {
    s / 86400
}

/// The second of the day of a count of seconds.
pub open spec fn time_of(s: int) -> int {
    s % 86400
}

/// The count of seconds of a day number at a second of that day.
pub open spec fn at_day(day: int, t: int) -> int {
    day * 86400 + t
}

pub proof fn lemma_day_time(s: int)
    ensures
        at_day(day_of(s), time_of(s)) == s,
        0 <= time_of(s) < 86400,
{
    vstd::arithmetic::div_mod::lemma_fundamental_div_mod(s, 86400);
}

pub proof fn lemma_at_day(day: int, t: int)
    requires
        0 <= t < 86400,
    ensures
        day_of(at_day(day, t)) == day,
        time_of(at_day(day, t)) == t,
{
    vstd::arithmetic::div_mod::lemma_fundamental_div_mod(at_day(day, t), 86400);
    assert(day_of(at_day(day, t)) == day) by (nonlinear_arith)
        requires
            0 <= t < 86400,
            at_day(day, t) == 86400 * day_of(at_day(day, t)) + time_of(at_day(day, t)),
            0 <= time_of(at_day(day, t)) < 86400,
            at_day(day, t) == day * 86400 + t,
    ;
}

impl NaiveDateTime {
    pub open spec fn wf(self) -> bool {
        valid_secs(self.secs as int)
    }

    /// The day number of this date-time.
    pub open spec fn day(self) -> int {
        day_of(self.secs as int)
    }

    /// The second of the day of this date-time.
    pub open spec fn time_secs(self) -> int {
        time_of(self.secs as int)
    }

    /// The day number, days since 1970-01-01.
    pub fn date(&self) -> (r: i64)
        requires
            in_clock_range(self.secs as int),
        ensures
            r == self.day(),
            -(2 * MAX_ABS_SECS) / 86400 - 1 <= r <= (2 * MAX_ABS_SECS) / 86400,
    {
        let r = self.secs.checked_div_euclid(SECONDS_PER_DAY).unwrap();
        proof {
            lemma_day_time(self.secs as int);
        }
        r
    }

    /// The time of day.
    pub fn time(&self) -> (r: NaiveTime)
        ensures
            r.wf(),
            r.secs == self.time_secs(),
    {
        let t = self.secs.checked_rem_euclid(SECONDS_PER_DAY).unwrap();
        proof {
            lemma_day_time(self.secs as int);
        }
        NaiveTime { secs: t as u32 }
    }

    /// The date-time at time `t` of day number `day`.
    pub fn from_date_time(day: i64, t: NaiveTime) -> (r: NaiveDateTime)
        requires
            t.wf(),
            -(2 * MAX_ABS_SECS) / 86400 - 2 <= day <= (2 * MAX_ABS_SECS) / 86400 + 1,
        ensures
            r.secs == at_day(day as int, t.secs as int),
            r.day() == day,
            r.time_secs() == t.secs,
    {
        proof {
            lemma_at_day(day as int, t.secs as int);
        }
        NaiveDateTime { secs: day * SECONDS_PER_DAY + t.secs as i64 }
    }
}

/// A day of the week.
#[derive(Clone, Copy, Debug, PartialEq, Eq, Structural)]
pub enum Weekday {
    Mon,
    Tue,
    Wed,
    Thu,
    Fri,
    Sat,
    Sun,
}

impl Weekday {
    pub open spec fn index(self) -> int {
        match self {
            Weekday::Mon => 0,
            Weekday::Tue => 1,
            Weekday::Wed => 2,
            Weekday::Thu => 3,
            Weekday::Fri => 4,
            Weekday::Sat => 5,
            Weekday::Sun => 6,
        }
    }

    /// Days since the Monday of the same week.
    pub fn num_days_from_monday(&self) -> (r: u32)
        ensures
            r == self.index(),
    {
        match self {
            Weekday::Mon => 0,
            Weekday::Tue => 1,
            Weekday::Wed => 2,
            Weekday::Thu => 3,
            Weekday::Fri => 4,
            Weekday::Sat => 5,
            Weekday::Sun => 6,
        }
    }
}

/// The weekday of a day number, as days since Monday: 1970-01-01 was a Thursday.
pub open spec fn weekday_of(day: int) -> int {
    (day + 3) % 7
}

/// Days since Monday of the weekday of day number `day`.
pub fn weekday_index(day: i64) -> (r: u32)
    requires
        -(4 * MAX_ABS_SECS) <= day <= 4 * MAX_ABS_SECS,
    ensures
        r == weekday_of(day as int),
        r < 7,
{
    (day + 3).checked_rem_euclid(7).unwrap() as u32
}

/// An instant together with the wall-clock date-time it shows in some zone.
#[derive(Clone, Copy, Debug, PartialEq, Eq, Structural)]
pub struct ZonedDateTime {
    /// Seconds since 1970-01-01T00:00:00Z.
    pub timestamp: i64,
    /// The wall clock of the zone at that instant.
    pub local: NaiveDateTime,
}

/// chrono-tz's time-zone type, carried through the library as an opaque
/// value and read only by the conversions below.
#[verifier::external_type_specification]
#[verifier::external_body]
pub struct ExTz(Tz);

/// The offset, in seconds, of the wall clock of `zone` from UTC at the instant
/// `utc` (seconds since the epoch).
pub uninterp spec fn utc_offset(zone: Tz, utc: int) -> int;

/// The instant (seconds since the epoch) at which the wall clock of `zone`
/// shows `local`, when exactly one such instant exists.
pub uninterp spec fn utc_of_local(zone: Tz, local: int) -> Option<int>;

/// The RFC 3339 text of the instant `utc` in `zone`.
pub uninterp spec fn rfc3339_text(zone: Tz, utc: int) -> Seq<char>;

/// An optional count of seconds, widened.
pub open spec fn as_int(o: Option<i64>) -> Option<int> {
    match o {
        Some(u) => Some(u as int),
        None => None,
    }
}

/// The wall clock of `zone` at the instant `utc`.
pub open spec fn local_of(zone: Tz, utc: int) -> int {
    utc + utc_offset(zone, utc)
}

/// Relies on `chrono::Utc::now`: the current instant, in whole seconds since
/// the epoch. Nothing is known of its value.
#[verifier::external_body]
pub(crate) fn utc_now() -> (r: i64) {
    chrono::Utc::now().timestamp()
}

/// Relies on `TimeZone::offset_from_utc_datetime` of `chrono_tz::Tz` and
/// `FixedOffset::local_minus_utc`: the zone's offset at an instant, which
/// chrono keeps strictly within one day.
#[verifier::external_body]
pub(crate) fn offset_at(zone: &Tz, utc: i64) -> (r: i32)
    requires
        in_clock_range(utc as int),
    ensures
        r == utc_offset(*zone, utc as int),
        -86400 < r < 86400,
{
    let instant = chrono::DateTime::from_timestamp(utc, 0).unwrap();
    zone.offset_from_utc_datetime(&instant.naive_utc()).fix().local_minus_utc()
}

/// Relies on `TimeZone::from_local_datetime` of `chrono_tz::Tz` and
/// `MappedLocalTime::single`: the instant at which the zone's wall clock shows
/// `local`, or `None` where the wall clock skips or repeats it; chrono finds it
/// by taking the zone's offset, always under one day, from `local`.
#[verifier::external_body]
pub(crate) fn local_to_utc(zone: &Tz, local: i64) -> (r: Option<i64>)
    requires
        in_clock_range(local as int),
    ensures
        as_int(r) == utc_of_local(*zone, local as int),
        r matches Some(u) ==> local - 86400 < u < local + 86400,
{
    let naive = chrono::DateTime::from_timestamp(local, 0).unwrap().naive_utc();
    zone.from_local_datetime(&naive).single().map(|d| d.timestamp())
}

/// Relies on `DateTime::to_rfc3339`: the instant as RFC 3339 text with the
/// zone's offset.
#[verifier::external_body]
pub(crate) fn to_rfc3339(zone: &Tz, utc: i64) -> (r: String)
    requires
        in_clock_range(utc as int),
    ensures
        r@ == rfc3339_text(*zone, utc as int),
{
    zone.timestamp_opt(utc, 0).unwrap().to_rfc3339()
}

/// The wall clock of `zone` at the instant `utc`.
pub fn local_at(zone: &Tz, utc: i64) -> (r: NaiveDateTime)
    requires
        valid_secs(utc as int),
    ensures
        r.secs == local_of(*zone, utc as int),
        in_clock_range(r.secs as int),
        -MAX_ABS_SECS - 86400 < r.secs < MAX_ABS_SECS + 86400,
{
    let off = offset_at(zone, utc);
    NaiveDateTime { secs: utc + off as i64 }
}

} // verus!
