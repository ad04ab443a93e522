//! Locating the shift that encloses an instant, given the times of day at
//! which shifts start.
use crate::clock::{
    at_day, day_of, in_clock_range, lemma_day_time, local_at, local_of,
    local_to_utc, time_of, utc_now, utc_of_local, valid_secs, NaiveDateTime, NaiveTime,
    ZonedDateTime, MAX_ABS_SECS,
};
use chrono_tz::Tz;
use vstd::prelude::*;

verus! {

/// Whether every time in `starts` is a valid time of day.
pub open spec fn all_wf(starts: Seq<NaiveTime>) -> bool {
    forall|i: int| 0 <= i < starts.len() ==> (#[trigger] starts[i]).wf()
}

/// Whether `starts` is in non-decreasing order.
pub open spec fn non_decreasing(starts: Seq<NaiveTime>) -> bool {
    forall|i: int, j: int| 0 <= i <= j < starts.len() ==> starts[i].secs <= starts[j].secs
}

/// The last index of `starts` whose time is not after second `t` of the day,
/// or -1 when every start is after `t`.
pub open spec fn last_started(starts: Seq<NaiveTime>, t: int) -> int
    decreases starts.len(),
{
    if starts.len() == 0 {
        -1
    } else if starts.last().secs <= t {
        starts.len() - 1
    } else {
        last_started(starts.drop_last(), t)
    }
}

/// Start of the shift that encloses the wall-clock instant `now`: today at the
/// last start not after the time of `now`, or yesterday at the last start when
/// every start is after it.
pub open spec fn shift_start_of(now: int, starts: Seq<NaiveTime>) -> int {
    let i = last_started(starts, time_of(now));
    if i >= 0 {
        at_day(day_of(now), starts[i].secs as int)
    } else {
        at_day(day_of(now) - 1, starts.last().secs as int)
    }
}

/// End of the shift that encloses the wall-clock instant `now`: today at the
/// next start, tomorrow at the first start after the last one, or today at the
/// first start when every start is after `now`.
pub open spec fn shift_end_of(now: int, starts: Seq<NaiveTime>) -> int {
    let i = last_started(starts, time_of(now));
    if i == starts.len() - 1 {
        at_day(day_of(now) + 1, starts[0].secs as int)
    } else if i >= 0 {
        at_day(day_of(now), starts[i + 1].secs as int)
    } else {
        at_day(day_of(now), starts[0].secs as int)
    }
}

proof fn lemma_last_started(starts: Seq<NaiveTime>, t: int)
    ensures
        -1 <= last_started(starts, t) < starts.len(),
        last_started(starts, t) >= 0 ==> starts[last_started(starts, t)].secs <= t,
        forall|j: int|
            last_started(starts, t) < j < starts.len() ==> starts[j].secs > t,
    decreases starts.len(),
{
    if starts.len() > 0 && starts.last().secs > t {
        let rest = starts.drop_last();
        lemma_last_started(rest, t);
        assert forall|j: int| last_started(starts, t) < j < starts.len() implies starts[j].secs
            > t by {
            if j < rest.len() {
                assert(rest[j] == starts[j]);
            }
        }
    }
}

/// Bounds of the shift that encloses the wall-clock date-time `now`, on the
/// same wall clock.
pub fn shift_bounds_local(now: NaiveDateTime, starts: &Vec<NaiveTime>) -> (r: (
    NaiveDateTime,
    NaiveDateTime,
))
    requires
        -MAX_ABS_SECS - 86400 < now.secs < MAX_ABS_SECS + 86400,
        starts.len() > 0,
        all_wf(starts@),
    ensures
        r.0.secs == shift_start_of(now.secs as int, starts@),
        r.1.secs == shift_end_of(now.secs as int, starts@),
        in_clock_range(r.0.secs as int),
        in_clock_range(r.1.secs as int),
        r.0.secs < r.1.secs,
{
    let t = now.time();
    let day = now.date();
    let n = starts.len();
    let mut i: usize = n;
    assert(starts@.take(n as int) =~= starts@);
    while i > 0 && starts[i - 1].secs > t.secs
        invariant
            0 <= i <= n,
            n == starts.len(),
            last_started(starts@, t.secs as int) == last_started(starts@.take(i as int), t.secs as int),
        decreases i,
    {
        assert(starts@.take(i as int).drop_last() =~= starts@.take(i - 1));
        i -= 1;
    }
    proof {
        if i > 0 {
            assert(starts@.take(i as int).last() == starts@[i - 1]);
        } else {
            assert(starts@.take(0).len() == 0);
        }
        lemma_day_time(now.secs as int);
        lemma_shift_bounds_enclose(now.secs as int, starts@);
    }
    let start = if i > 0 {
        NaiveDateTime::from_date_time(day, starts[i - 1])
    } else {
        NaiveDateTime::from_date_time(day - 1, starts[n - 1])
    };
    let end = if i == n {
        NaiveDateTime::from_date_time(day + 1, starts[0])
    } else if i > 0 {
        NaiveDateTime::from_date_time(day, starts[i])
    } else {
        NaiveDateTime::from_date_time(day, starts[0])
    };
    (start, end)
}

/// Bounds of the shift that encloses the instant `now` (seconds since the
/// epoch) on the wall clock of `zone`, or `None` when the wall clock of `zone`
/// skips or repeats one of the two bounds.
pub open spec fn zoned_shift_bounds(zone: Tz, now: int, starts: Seq<NaiveTime>) -> Option<
    (ZonedDateTime, ZonedDateTime),
> {
    let local = local_of(zone, now);
    let s = shift_start_of(local, starts);
    let e = shift_end_of(local, starts);
    match (utc_of_local(zone, s), utc_of_local(zone, e)) {
        (Some(su), Some(eu)) => Some(
            (
                ZonedDateTime { timestamp: su as i64, local: NaiveDateTime { secs: s as i64 } },
                ZonedDateTime { timestamp: eu as i64, local: NaiveDateTime { secs: e as i64 } },
            ),
        ),
        _ => None,
    }
}

/// Bounds of the shift that encloses the instant `now` in `zone`.
pub fn find_shift_bounds_at(zone: &Tz, now: i64, starts: &Vec<NaiveTime>) -> (r: Option<
    (ZonedDateTime, ZonedDateTime),
>)
    requires
        valid_secs(now as int),
        starts.len() > 0,
        all_wf(starts@),
    ensures
        r == zoned_shift_bounds(*zone, now as int, starts@),
        r matches Some((s, e)) ==> in_clock_range(s.local.secs as int) && in_clock_range(
            e.local.secs as int,
        ) && s.local.secs < e.local.secs,
{
    let local = local_at(zone, now);
    let (start, end) = shift_bounds_local(local, starts);
    let start_utc = local_to_utc(zone, start.secs);
    let end_utc = local_to_utc(zone, end.secs);
    match (start_utc, end_utc) {
        (Some(su), Some(eu)) => Some(
            (
                ZonedDateTime { timestamp: su, local: start },
                ZonedDateTime { timestamp: eu, local: end },
            ),
        ),
        _ => None,
    }
}

/// Bounds of the shift that encloses the current instant in `zone`; `None`
/// when the clock reads outside the supported range or the zone's wall clock
/// skips or repeats a bound.
pub fn find_shift_bounds(zone: &Tz, starts: &Vec<NaiveTime>) -> (r: Option<
    (ZonedDateTime, ZonedDateTime),
>)
    requires
        starts.len() > 0,
        all_wf(starts@),
    ensures
        exists|now: int|
            (valid_secs(now) && r == zoned_shift_bounds(*zone, now, starts@)) || (!valid_secs(now)
                && r is None),
{
    let now = utc_now();
    if now < -MAX_ABS_SECS || now > MAX_ABS_SECS {
        assert(!valid_secs(now as int));
        return None;
    }
    let r = find_shift_bounds_at(zone, now, starts);
    assert(valid_secs(now as int) && r == zoned_shift_bounds(*zone, now as int, starts@));
    r
}

/// The shift found for a wall-clock instant encloses it: it starts at or
/// before the instant and ends after it. With starts in non-decreasing order,
/// an instant that falls exactly on a start opens its shift. The shift lasts
/// from its start to the next start, or to the first start of the next day
/// when it begins at the last one.
pub proof fn lemma_shift_bounds_enclose(now: int, starts: Seq<NaiveTime>)
    requires
        starts.len() > 0,
        all_wf(starts),
    ensures
        shift_start_of(now, starts) <= now < shift_end_of(now, starts),
        non_decreasing(starts) && (exists|k: int|
            0 <= k < starts.len() && #[trigger] starts[k].secs == time_of(now))
            ==> shift_start_of(now, starts) == now,
        ({
            let i = last_started(starts, time_of(now));
            shift_end_of(now, starts) - shift_start_of(now, starts) == if 0 <= i < starts.len()
                - 1 {
                starts[i + 1].secs - starts[i].secs
            } else {
                86400 - starts.last().secs + starts[0].secs
            }
        }),
{
    let t = time_of(now);
    let d = day_of(now);
    lemma_day_time(now);
    lemma_last_started(starts, t);
    let i = last_started(starts, t);
    assert(starts[0].wf());
    assert(starts[starts.len() - 1].wf());
    if 0 <= i < starts.len() - 1 {
        assert(starts[i + 1].wf());
    }
    if non_decreasing(starts) && (exists|k: int|
        0 <= k < starts.len() && #[trigger] starts[k].secs == time_of(now)) {
        let k = choose|k: int| 0 <= k < starts.len() && #[trigger] starts[k].secs == time_of(now);
        assert(starts[k].secs <= t);
        assert(i >= k);
        assert(starts[k].secs <= starts[i].secs);
    }
}

} // verus!
