//! Production objective curves: how many parts should have been produced by
//! each instant of a shift or of a week.
use crate::clock::{
    day_of, in_clock_range, local_at, local_of, local_to_utc, utc_now, utc_of_local,
    valid_secs, weekday_index, weekday_of, NaiveDateTime, NaiveTime, Weekday, MAX_ABS_SECS,
};
use crate::config::WeekStart;
use crate::shift::{all_wf, find_shift_bounds_at, zoned_shift_bounds};
use crate::spans::{applied_spans, apply_time_spans, lemma_applied_spans, spans_wf, DailySpan, Span};
use chrono_tz::Tz;
use vstd::prelude::*;

verus! {

/// A non-negative rational number `num / den`.
#[derive(Clone, Copy, Debug, PartialEq, Eq, Structural)]
pub struct Ratio {
    pub num: u32,
    pub den: u32,
}

/// One point of an objective curve: by `timestamp` (seconds since the epoch),
/// `value` parts should have been produced.
#[derive(Clone, Copy, Debug, PartialEq, Eq, Structural)]
pub struct ObjectivePoint {
    pub timestamp: i64,
    pub value: u16,
}

/// A curve of objective points, in order.
pub type ObjectiveData = Vec<ObjectivePoint>;

/// Whether a target cycle time and efficiency give a production rate: the
/// cycle time is positive and both have a positive denominator.
pub open spec fn rate_ok(cycle_time: Ratio, efficiency: Ratio) -> bool {
    cycle_time.num > 0 && cycle_time.den > 0 && efficiency.den > 0
}

/// The parts produced in `elapsed` seconds at `num / den` parts per second,
/// rounded down and capped at the largest `u16`; none in no time.
pub open spec fn parts_in(elapsed: int, num: int, den: int) -> int {
    if elapsed <= 0 {
        0
    } else if (elapsed * num) / den > 65535 {
        65535
    } else {
        (elapsed * num) / den
    }
}

/// `a + b`, capped at the largest `u16`.
pub open spec fn capped_sum(a: int, b: int) -> int {
    if a + b > 65535 {
        65535
    } else {
        a + b
    }
}

/// The instants at which the production of a shift changes pace: each pause
/// starts (producing up to it) and ends (producing nothing up to it).
pub open spec fn pause_marks(pauses: Seq<Span>) -> Seq<(NaiveDateTime, bool)>
    decreases pauses.len(),
{
    if pauses.len() == 0 {
        seq![]
    } else {
        pause_marks(pauses.drop_last()) + seq![(pauses.last().0, true), (pauses.last().1, false)]
    }
}

/// The point that follows `prev` at `mark`: it adds the parts produced since
/// `prev` when the stretch up to `mark` is producing.
pub open spec fn next_point(prev: (NaiveDateTime, u16), mark: (NaiveDateTime, bool), num: int, den: int) -> (NaiveDateTime, u16) {
    (
        mark.0,
        if mark.1 {
            capped_sum(prev.1 as int, parts_in(mark.0.secs - prev.0.secs, num, den)) as u16
        } else {
            prev.1
        },
    )
}

/// The points that follow `origin` at each mark in turn. A mark that does not
/// stand later than the point before it adds no point: no time has passed, so
/// nothing has been produced.
pub open spec fn walk(origin: (NaiveDateTime, u16), marks: Seq<(NaiveDateTime, bool)>, num: int, den: int) -> Seq<(NaiveDateTime, u16)>
    decreases marks.len(),
{
    if marks.len() == 0 {
        seq![]
    } else {
        let w = walk(origin, marks.drop_last(), num, den);
        let prev = if w.len() == 0 {
            origin
        } else {
            w.last()
        };
        if marks.last().0.secs > prev.0.secs {
            w.push(next_point(prev, marks.last(), num, den))
        } else {
            w
        }
    }
}

/// The marks of a shift from `last` to `end`: when engaged, the pauses that
/// fall in it and then its end, producing; otherwise its end alone.
pub open spec fn shift_marks(last: NaiveDateTime, end: NaiveDateTime, engaged: bool, pauses: Seq<DailySpan>) -> Seq<(NaiveDateTime, bool)> {
    if engaged {
        pause_marks(applied_spans(last.secs as int, end.secs as int, pauses)).push((end, true))
    } else {
        seq![(end, false)]
    }
}

/// A curve under construction, on the wall clock of some zone.
pub struct NaivePoints {
    pub inner: Vec<(NaiveDateTime, u16)>,
    /// Parts per second, as `rate_num / rate_den`.
    pub rate_num: u64,
    pub rate_den: u64,
}

pub open spec fn points_in_range(s: Seq<(NaiveDateTime, u16)>) -> bool {
    forall|i: int| 0 <= i < s.len() ==> in_clock_range((#[trigger] s[i]).0.secs as int)
}

pub open spec fn marks_in_range(s: Seq<(NaiveDateTime, bool)>) -> bool {
    forall|i: int| 0 <= i < s.len() ==> in_clock_range((#[trigger] s[i]).0.secs as int)
}

impl NaivePoints {
    pub open spec fn wf(&self) -> bool {
        &&& self.inner@.len() > 0
        &&& self.rate_den > 0
        &&& points_in_range(self.inner@)
    }

    pub open spec fn view(&self) -> Seq<(NaiveDateTime, u16)> {
        self.inner@
    }

    /// A curve that starts at `start` with no part produced, at the rate of
    /// `efficiency / cycle_time` parts per second.
    pub fn new(start: NaiveDateTime, cycle_time: Ratio, efficiency: Ratio) -> (r: NaivePoints)
        requires
            in_clock_range(start.secs as int),
            rate_ok(cycle_time, efficiency),
        ensures
            r.wf(),
            r.view() == seq![(start, 0u16)],
            r.rate_num == efficiency.num as int * cycle_time.den as int,
            r.rate_den == efficiency.den as int * cycle_time.num as int,
    {
        assert(efficiency.den as int * cycle_time.num as int > 0) by (nonlinear_arith)
            requires
                efficiency.den > 0,
                cycle_time.num > 0,
        ;
        assert(efficiency.num as int * cycle_time.den as int <= 0xffff_ffff_ffff_ffff) by (nonlinear_arith)
            requires
                efficiency.num <= 0xffff_ffff,
                cycle_time.den <= 0xffff_ffff,
        ;
        assert(efficiency.den as int * cycle_time.num as int <= 0xffff_ffff_ffff_ffff) by (nonlinear_arith)
            requires
                efficiency.den <= 0xffff_ffff,
                cycle_time.num <= 0xffff_ffff,
        ;
        let mut inner = Vec::new();
        inner.push((start, 0u16));
        NaivePoints {
            inner,
            rate_num: efficiency.num as u64 * cycle_time.den as u64,
            rate_den: efficiency.den as u64 * cycle_time.num as u64,
        }
    }

    /// The parts produced in `elapsed` seconds at this curve's rate.
    fn parts(&self, elapsed: i64) -> (r: u16)
        requires
            self.rate_den > 0,
            -4 * MAX_ABS_SECS <= elapsed <= 4 * MAX_ABS_SECS,
        ensures
            r == parts_in(elapsed as int, self.rate_num as int, self.rate_den as int),
    {
        if elapsed <= 0 {
            return 0;
        }
        assert(elapsed as int * self.rate_num as int <= 0xffff_ffff_ffff_ffff_ffff_ffff_ffff_ffff) by (nonlinear_arith)
            requires
                elapsed <= 4 * MAX_ABS_SECS,
                elapsed > 0,
                self.rate_num <= 0xffff_ffff_ffff_ffff,
        ;
        let p = (elapsed as u128 * self.rate_num as u128) / self.rate_den as u128;
        if p > 65535 {
            65535
        } else {
            p as u16
        }
    }

    /// Adds one point per mark that stands later than the last point, in turn.
    fn push_marks(&mut self, marks: &Vec<(NaiveDateTime, bool)>)
        requires
            old(self).wf(),
            marks_in_range(marks@),
        ensures
            final(self).wf(),
            final(self).rate_num == old(self).rate_num,
            final(self).rate_den == old(self).rate_den,
            final(self).view() == old(self).view() + walk(
                old(self).view().last(),
                marks@,
                old(self).rate_num as int,
                old(self).rate_den as int,
            ),
    {
        let ghost origin = self.inner@.last();
        let ghost base = self.inner@;
        let mut i: usize = 0;
        while i < marks.len()
            invariant
                0 <= i <= marks.len(),
                self.wf(),
                self.rate_num == old(self).rate_num,
                self.rate_den == old(self).rate_den,
                origin == old(self).view().last(),
                base == old(self).view(),
                marks_in_range(marks@),
                self.inner@ == base + walk(origin, marks@.take(i as int), self.rate_num as int, self.rate_den as int),
            decreases marks.len() - i,
        {
            let ghost w = walk(origin, marks@.take(i as int), self.rate_num as int, self.rate_den as int);
            proof {
                let t = marks@.take(i + 1);
                assert(t.drop_last() =~= marks@.take(i as int));
                assert(t.last() == marks@[i as int]);
                if w.len() == 0 {
                    assert(self.inner@.last() == origin);
                } else {
                    assert(self.inner@.last() == w.last());
                }
            }
            let (last_time, last_value) = self.inner[self.inner.len() - 1];
            let (time, producing) = marks[i];
            assert(in_clock_range(last_time.secs as int));
            assert(in_clock_range(time.secs as int));
            if time.secs > last_time.secs {
                let value = if producing {
                    let added = self.parts(time.secs - last_time.secs);
                    last_value.saturating_add(added)
                } else {
                    last_value
                };
                let ghost prev = self.inner@;
                self.inner.push((time, value));
                proof {
                    let t = marks@.take(i + 1);
                    assert(self.inner@ =~= base + walk(origin, t, self.rate_num as int, self.rate_den as int));
                    assert forall|k: int| 0 <= k < self.inner@.len() implies in_clock_range(
                        (#[trigger] self.inner@[k]).0.secs as int,
                    ) by {
                        if k < prev.len() {
                            assert(self.inner@[k] == prev[k]);
                        }
                    }
                }
            }
            i += 1;
        }
        proof {
            assert(marks@.take(marks@.len() as int) =~= marks@);
        }
    }

    /// Extends the curve to `shift_end`: when `engaged`, production runs at
    /// the curve's rate but for the pauses, each of which adds a point at its
    /// start and at its end; otherwise the curve stays flat. A pause start or
    /// end that falls on the curve's last point, or on `shift_end`, adds no
    /// point of its own, so the points stay strictly in order of time.
    pub fn push_shift(&mut self, shift_end: NaiveDateTime, engaged: bool, pauses: &Vec<DailySpan>)
        requires
            old(self).wf(),
            in_clock_range(shift_end.secs as int),
            spans_wf(pauses@),
        ensures
            final(self).wf(),
            final(self).rate_num == old(self).rate_num,
            final(self).rate_den == old(self).rate_den,
            final(self).view() == old(self).view() + walk(
                old(self).view().last(),
                shift_marks(old(self).view().last().0, shift_end, engaged, pauses@),
                old(self).rate_num as int,
                old(self).rate_den as int,
            ),
            times_increasing(old(self).view()) ==> times_increasing(final(self).view()),
            shift_end.secs > old(self).view().last().0.secs ==> final(self).view().last().0
                == shift_end,
    {
        let (last_time, _) = self.inner[self.inner.len() - 1];
        assert(in_clock_range(self.inner@[self.inner@.len() - 1].0.secs as int));
        let mut marks: Vec<(NaiveDateTime, bool)> = Vec::new();
        if engaged {
            let applied = apply_time_spans((last_time, shift_end), pauses);
            proof {
                lemma_applied_spans(last_time.secs as int, shift_end.secs as int, pauses@);
            }
            let mut j: usize = 0;
            while j < applied.len()
                invariant
                    0 <= j <= applied.len(),
                    applied@ == applied_spans(last_time.secs as int, shift_end.secs as int, pauses@),
                    forall|k: int|
                        0 <= k < applied@.len() ==> {
                            let x = #[trigger] applied@[k];
                            last_time.secs <= x.0.secs < x.1.secs <= shift_end.secs
                        },
                    in_clock_range(last_time.secs as int),
                    in_clock_range(shift_end.secs as int),
                    marks@ == pause_marks(applied@.take(j as int)),
                    marks_in_range(marks@),
                decreases applied.len() - j,
            {
                let (pause_start, pause_end) = applied[j];
                proof {
                    let t = applied@.take(j + 1);
                    assert(t.drop_last() =~= applied@.take(j as int));
                    assert(t.last() == applied@[j as int]);
                }
                marks.push((pause_start, true));
                marks.push((pause_end, false));
                proof {
                    let t = applied@.take(j + 1);
                    assert(marks@ =~= pause_marks(t));
                }
                j += 1;
            }
            proof {
                assert(applied@.take(applied@.len() as int) =~= applied@);
            }
            marks.push((shift_end, true));
        } else {
            marks.push((shift_end, false));
        }
        proof {
            assert(marks@ =~= shift_marks(last_time, shift_end, engaged, pauses@));
            let m = marks@;
            let num = self.rate_num as int;
            let den = self.rate_den as int;
            let c = self.view();
            if times_increasing(c) {
                lemma_after_increasing(c, m, num, den);
            }
            lemma_shift_marks_bounded(last_time, shift_end, engaged, pauses@);
            if shift_end.secs > last_time.secs {
                lemma_walk_ends(c.last(), m, num, den, shift_end);
                lemma_walk_steps(c.last(), m, num, den);
            }
        }
        self.push_marks(&marks);
        proof {
            let w = walk(old(self).view().last(), marks@, self.rate_num as int, self.rate_den as int);
            if shift_end.secs > last_time.secs {
                assert(self.view() == old(self).view() + w);
                assert(self.view().last() == w.last());
            }
        }
    }

    /// The curve's points as instants in `zone`; `None` when the wall clock of
    /// `zone` skips or repeats the date-time of one of them.
    pub fn into_objective_data(self, zone: &Tz) -> (r: Option<ObjectiveData>)
        requires
            self.wf(),
        ensures
            match r {
                Some(v) => zoned_points(*zone, self.view()) == Some(v@),
                None => zoned_points(*zone, self.view()) is None,
            },
    {
        let mut out: Vec<ObjectivePoint> = Vec::new();
        let mut i: usize = 0;
        while i < self.inner.len()
            invariant
                0 <= i <= self.inner.len(),
                self.wf(),
                zoned_points(*zone, self.inner@.take(i as int)) == Some(out@),
            decreases self.inner.len() - i,
        {
            let (time, value) = self.inner[i];
            proof {
                let t = self.inner@.take(i + 1);
                assert(t.drop_last() =~= self.inner@.take(i as int));
                assert(t.last() == self.inner@[i as int]);
            }
            assert(in_clock_range(self.inner@[i as int].0.secs as int));
            match local_to_utc(zone, time.secs) {
                Some(timestamp) => {
                    out.push(ObjectivePoint { timestamp, value });
                },
                None => {
                    proof {
                        lemma_zoned_none_extends(*zone, self.inner@, i + 1);
                    }
                    return None;
                },
            }
            i += 1;
        }
        proof {
            assert(self.inner@.take(self.inner@.len() as int) =~= self.inner@);
        }
        Some(out)
    }
}

/// The points `pts` as instants in `zone`, or `None` when the wall clock of
/// `zone` skips or repeats the date-time of one of them.
pub open spec fn zoned_points(zone: Tz, pts: Seq<(NaiveDateTime, u16)>) -> Option<Seq<ObjectivePoint>>
    decreases pts.len(),
{
    if pts.len() == 0 {
        Some(seq![])
    } else {
        match (zoned_points(zone, pts.drop_last()), utc_of_local(zone, pts.last().0.secs as int)) {
            (Some(s), Some(u)) => Some(s.push(ObjectivePoint { timestamp: u as i64, value: pts.last().1 })),
            _ => None,
        }
    }
}

proof fn lemma_zoned_none_extends(zone: Tz, s: Seq<(NaiveDateTime, u16)>, i: int)
    requires
        0 <= i <= s.len(),
        zoned_points(zone, s.take(i)) is None,
    ensures
        zoned_points(zone, s) is None,
    decreases s.len(),
{
    if s.len() == i {
        assert(s.take(i) =~= s);
    } else {
        assert(s.drop_last().take(i) =~= s.take(i));
        lemma_zoned_none_extends(zone, s.drop_last(), i);
    }
}

/// Numerator of the production rate `efficiency / cycle_time`, in parts per
/// second.
pub open spec fn rate_num_of(cycle_time: Ratio, efficiency: Ratio) -> int {
    efficiency.num as int * cycle_time.den as int
}

/// Denominator of the production rate `efficiency / cycle_time`.
pub open spec fn rate_den_of(cycle_time: Ratio, efficiency: Ratio) -> int {
    efficiency.den as int * cycle_time.num as int
}

/// The curve of one engaged shift from `start` to `end`, on the wall clock.
pub open spec fn shift_curve(start: NaiveDateTime, end: NaiveDateTime, pauses: Seq<DailySpan>, cycle_time: Ratio, efficiency: Ratio) -> Seq<(NaiveDateTime, u16)> {
    seq![(start, 0u16)] + walk(
        (start, 0u16),
        shift_marks(start, end, true, pauses),
        rate_num_of(cycle_time, efficiency),
        rate_den_of(cycle_time, efficiency),
    )
}

/// What a shift objective request gives at the instant `now`.
pub struct ShiftObjectiveRequest {
    pub shift_start_times: Vec<NaiveTime>,
    pub pauses: Vec<DailySpan>,
    pub timezone: Tz,
    pub target_cycle_time: Ratio,
    pub target_efficiency: Ratio,
}

impl ShiftObjectiveRequest {
    pub open spec fn wf(&self) -> bool {
        &&& self.shift_start_times.len() > 0
        &&& all_wf(self.shift_start_times@)
        &&& spans_wf(self.pauses@)
        &&& rate_ok(self.target_cycle_time, self.target_efficiency)
    }
}

/// The shift objective at the instant `now`: the curve of the shift that
/// encloses `now` in the request's zone.
pub open spec fn shift_objective_spec(req: ShiftObjectiveRequest, now: int) -> Option<Seq<ObjectivePoint>> {
    match zoned_shift_bounds(req.timezone, now, req.shift_start_times@) {
        Some((s, e)) => zoned_points(
            req.timezone,
            shift_curve(s.local, e.local, req.pauses@, req.target_cycle_time, req.target_efficiency),
        ),
        None => None,
    }
}

/// The curve of the shift that encloses the instant `now` (seconds since the
/// epoch) in the request's zone: from no part at the shift's start, rising at
/// the production rate but for the pauses, up to the shift's end.
pub fn shift_objective_at(request: &ShiftObjectiveRequest, now: i64) -> (r: Option<ObjectiveData>)
    requires
        request.wf(),
        valid_secs(now as int),
    ensures
        as_points(r) == shift_objective_spec(*request, now as int),
        zoned_shift_bounds(request.timezone, now as int, request.shift_start_times@) matches Some(
            (s, e),
        ) ==> {
            let c = shift_curve(
                s.local,
                e.local,
                request.pauses@,
                request.target_cycle_time,
                request.target_efficiency,
            );
            &&& times_increasing(c)
            &&& c[0] == (s.local, 0u16)
            &&& c.last().0 == e.local
        },
{
    let bounds = find_shift_bounds_at(&request.timezone, now, &request.shift_start_times);
    match bounds {
        Some((start, end)) => {
            proof {
                lemma_shift_curve_times(
                    start.local,
                    end.local,
                    request.pauses@,
                    request.target_cycle_time,
                    request.target_efficiency,
                );
            }
            let mut points = NaivePoints::new(
                start.local,
                request.target_cycle_time,
                request.target_efficiency,
            );
            points.push_shift(end.local, true, &request.pauses);
            points.into_objective_data(&request.timezone)
        },
        None => None,
    }
}

/// The curve of the shift that encloses the current instant in the request's
/// zone; `None` when the clock reads outside the supported range or the zone's
/// wall clock skips or repeats one of the curve's date-times.
pub fn shift_objective(request: &ShiftObjectiveRequest) -> (r: Option<ObjectiveData>)
    requires
        request.wf(),
    ensures
        exists|now: int|
            (valid_secs(now) && as_points(r) == shift_objective_spec(*request, now)) || (!valid_secs(
                now,
            ) && r is None),
{
    let now = utc_now();
    if now < -MAX_ABS_SECS || now > MAX_ABS_SECS {
        assert(!valid_secs(now as int));
        return None;
    }
    let r = shift_objective_at(request, now);
    assert(valid_secs(now as int) && as_points(r) == shift_objective_spec(*request, now as int));
    r
}

/// The points of an optional curve.
pub open spec fn as_points(r: Option<ObjectiveData>) -> Option<Seq<ObjectivePoint>> {
    match r {
        Some(v) => Some(v@),
        None => None,
    }
}


/// What a week objective request gives at the instant `now`.
pub struct WeekObjectiveRequest {
    pub shift_start_times: Vec<NaiveTime>,
    pub shift_engaged: Vec<bool>,
    pub pauses: Vec<DailySpan>,
    pub week_start: WeekStart,
    pub timezone: Tz,
    pub target_cycle_time: Ratio,
    pub target_efficiency: Ratio,
}

impl WeekObjectiveRequest {
    pub open spec fn wf(&self) -> bool {
        &&& self.shift_start_times.len() > 0
        &&& all_wf(self.shift_start_times@)
        &&& self.week_start.shift_index < self.shift_start_times.len()
        &&& spans_wf(self.pauses@)
        &&& rate_ok(self.target_cycle_time, self.target_efficiency)
    }
}

/// The first day of the production week that holds day number `today`: the
/// latest day on or before `today` that falls on `start_day`.
pub open spec fn week_start_day(today: int, start_day: Weekday) -> int {
    today - (weekday_of(today) - start_day.index() + 7) % 7
}

/// The start of the shift `idx` positions after the first shift of the day
/// `first_day`, shifts following each other day after day.
pub open spec fn nth_shift_start(first_day: int, starts: Seq<NaiveTime>, idx: int) -> NaiveDateTime {
    NaiveDateTime {
        secs: ((first_day + idx / (starts.len() as int)) * 86400 + starts[idx % (starts.len() as int)].secs) as i64,
    }
}

/// The week's curve over the shifts that `engaged` describes: it starts at the
/// shift `first` of day `first_day`; each later shift start ends a segment that
/// rises when the entry of `engaged` for it is set, and stays flat otherwise.
pub open spec fn week_curve(first_day: int, starts: Seq<NaiveTime>, first: int, engaged: Seq<bool>, pauses: Seq<DailySpan>, num: int, den: int) -> Seq<(NaiveDateTime, u16)>
    decreases engaged.len(),
{
    if engaged.len() == 0 {
        seq![(nth_shift_start(first_day, starts, first), 0u16)]
    } else {
        let c = week_curve(first_day, starts, first, engaged.drop_last(), pauses, num, den);
        c + walk(
            c.last(),
            shift_marks(
                c.last().0,
                nth_shift_start(first_day, starts, first + engaged.len()),
                engaged.last(),
                pauses,
            ),
            num,
            den,
        )
    }
}

/// Largest day number at which the week objective places a shift start.
pub const WEEK_LAST_DAY: i64 = 12_726_754;

/// The week objective at the instant `now`, or `None` when the week runs past
/// the supported range or the zone's wall clock skips or repeats one of the
/// curve's date-times.
pub open spec fn week_objective_spec(req: WeekObjectiveRequest, now: int) -> Option<Seq<ObjectivePoint>> {
    let starts = req.shift_start_times@;
    let today = day_of(local_of(req.timezone, now));
    let first_day = week_start_day(today, req.week_start.day);
    let first = req.week_start.shift_index as int;
    if first_day + (first + req.shift_engaged@.len()) / (starts.len() as int) > WEEK_LAST_DAY {
        None
    } else {
        zoned_points(
            req.timezone,
            week_curve(
                first_day,
                starts,
                first,
                req.shift_engaged@,
                req.pauses@,
                rate_num_of(req.target_cycle_time, req.target_efficiency),
                rate_den_of(req.target_cycle_time, req.target_efficiency),
            ),
        )
    }
}

/// The date-time of the shift `idx` positions after the first shift of day
/// `first_day`.
fn shift_start_at(first_day: i64, starts: &Vec<NaiveTime>, idx: u128) -> (r: NaiveDateTime)
    requires
        starts.len() > 0,
        all_wf(starts@),
        -(MAX_ABS_SECS / 86400) - 9 <= first_day,
        first_day + (idx as int) / (starts.len() as int) <= WEEK_LAST_DAY,
    ensures
        r == nth_shift_start(first_day as int, starts@, idx as int),
        in_clock_range(r.secs as int),
{
    let n = starts.len() as u128;
    let days = (idx / n) as i64;
    let t = starts[(idx % n) as usize];
    assert(starts@[(idx % n) as int].wf());
    NaiveDateTime { secs: (first_day + days) * 86400 + t.secs as i64 }
}

/// The curve of the production week that holds the instant `now` (seconds
/// since the epoch) in the request's zone. It starts at the week's first shift,
/// on the latest day on or before today that falls on the week's start day, and
/// follows the shifts in turn, one per entry of `shift_engaged`: an engaged
/// shift rises at the production rate but for the pauses, another stays flat.
pub fn week_objective_at(request: &WeekObjectiveRequest, now: i64) -> (r: Option<ObjectiveData>)
    requires
        request.wf(),
        valid_secs(now as int),
    ensures
        as_points(r) == week_objective_spec(*request, now as int),
        times_increasing(
            week_curve(
                week_start_day(day_of(local_of(request.timezone, now as int)), request.week_start.day),
                request.shift_start_times@,
                request.week_start.shift_index as int,
                request.shift_engaged@,
                request.pauses@,
                rate_num_of(request.target_cycle_time, request.target_efficiency),
                rate_den_of(request.target_cycle_time, request.target_efficiency),
            ),
        ),
{
    proof {
        lemma_week_curve_times(
            week_start_day(day_of(local_of(request.timezone, now as int)), request.week_start.day),
            request.shift_start_times@,
            request.week_start.shift_index as int,
            request.shift_engaged@,
            request.pauses@,
            rate_num_of(request.target_cycle_time, request.target_efficiency),
            rate_den_of(request.target_cycle_time, request.target_efficiency),
        );
    }
    let starts = &request.shift_start_times;
    let engaged = &request.shift_engaged;
    let today = local_at(&request.timezone, now).date();
    let weekday = weekday_index(today);
    let start_weekday = request.week_start.day.num_days_from_monday();
    let back = (weekday + 7 - start_weekday) % 7;
    let first_day = today - back as i64;
    let first = request.week_start.shift_index as u128;
    let n = starts.len() as u128;
    let count = engaged.len() as u128;
    if first_day > WEEK_LAST_DAY || (first + count) / n > (WEEK_LAST_DAY - first_day) as u128 {
        return None;
    }
    let ghost num = rate_num_of(request.target_cycle_time, request.target_efficiency);
    let ghost den = rate_den_of(request.target_cycle_time, request.target_efficiency);
    proof {
        assert((first as int + 0) / (n as int) <= (first as int + count as int) / (n as int)) by (nonlinear_arith)
            requires n > 0, count >= 0, first >= 0;
    }
    let origin = shift_start_at(first_day, starts, first);
    let mut points = NaivePoints::new(origin, request.target_cycle_time, request.target_efficiency);
    let mut k: usize = 0;
    while k < engaged.len()
        invariant
            0 <= k <= engaged.len(),
            request.wf(),
            starts == &request.shift_start_times,
            engaged == &request.shift_engaged,
            n == starts.len(),
            count == engaged.len(),
            first == request.week_start.shift_index,
            -(MAX_ABS_SECS / 86400) - 9 <= first_day <= WEEK_LAST_DAY,
            first_day + (first + count) / (n as int) <= WEEK_LAST_DAY,
            points.wf(),
            points.rate_num == num,
            points.rate_den == den,
            points.view() == week_curve(first_day as int, starts@, first as int, engaged@.take(k as int), request.pauses@, num, den),
        decreases engaged.len() - k,
    {
        let idx = first + k as u128 + 1;
        proof {
            assert((idx as int) / (n as int) <= (first as int + count as int) / (n as int)) by (nonlinear_arith)
                requires n > 0, idx <= first + count;
        }
        let end = shift_start_at(first_day, starts, idx);
        proof {
            let t = engaged@.take(k + 1);
            assert(t.drop_last() =~= engaged@.take(k as int));
            assert(t.last() == engaged@[k as int]);
        }
        points.push_shift(end, engaged[k], &request.pauses);
        k += 1;
    }
    proof {
        assert(engaged@.take(engaged@.len() as int) =~= engaged@);
    }
    points.into_objective_data(&request.timezone)
}

/// The curve of the production week that holds the current instant in the
/// request's zone; `None` when the clock reads outside the supported range,
/// the week runs past it, or the zone's wall clock skips or repeats one of the
/// curve's date-times.
pub fn week_objective(request: &WeekObjectiveRequest) -> (r: Option<ObjectiveData>)
    requires
        request.wf(),
    ensures
        exists|now: int|
            (valid_secs(now) && as_points(r) == week_objective_spec(*request, now)) || (!valid_secs(
                now,
            ) && r is None),
{
    let now = utc_now();
    if now < -MAX_ABS_SECS || now > MAX_ABS_SECS {
        assert(!valid_secs(now as int));
        return None;
    }
    let r = week_objective_at(request, now);
    assert(valid_secs(now as int) && as_points(r) == week_objective_spec(*request, now as int));
    r
}


/// Whether the values of `s` never decrease.
pub open spec fn values_non_decreasing(s: Seq<(NaiveDateTime, u16)>) -> bool {
    forall|i: int, j: int| 0 <= i <= j < s.len() ==> s[i].1 <= s[j].1
}

/// Whether the values of the objective points `s` never decrease.
pub open spec fn objective_non_decreasing(s: Seq<ObjectivePoint>) -> bool {
    forall|i: int, j: int| 0 <= i <= j < s.len() ==> s[i].value <= s[j].value
}

/// The point before the `k`th point of `w`, a walk from `origin`.
pub open spec fn point_before(origin: (NaiveDateTime, u16), w: Seq<(NaiveDateTime, u16)>, k: int) -> (NaiveDateTime, u16) {
    if k == 0 {
        origin
    } else {
        w[k - 1]
    }
}

/// Each point of a walk stands strictly later than the one before it (the
/// origin for the first), and follows it at one of the marks: on a producing
/// stretch it adds the parts made since the point before, `floor(elapsed * num
/// / den)` capped at the largest `u16`; on a stretch that is not producing it
/// adds nothing.
pub proof fn lemma_walk_steps(origin: (NaiveDateTime, u16), marks: Seq<(NaiveDateTime, bool)>, num: int, den: int)
    ensures
        walk(origin, marks, num, den).len() <= marks.len(),
        forall|k: int|
            0 <= k < walk(origin, marks, num, den).len() ==> (#[trigger] walk(
                origin,
                marks,
                num,
                den,
            )[k]).0.secs > point_before(origin, walk(origin, marks, num, den), k).0.secs && exists|
                j: int,
            |
                0 <= j < marks.len() && walk(origin, marks, num, den)[k] == next_point(
                    point_before(origin, walk(origin, marks, num, den), k),
                    marks[j],
                    num,
                    den,
                ),
    decreases marks.len(),
{
    if marks.len() > 0 {
        let d = marks.drop_last();
        lemma_walk_steps(origin, d, num, den);
        let w = walk(origin, d, num, den);
        let r = walk(origin, marks, num, den);
        assert forall|k: int| 0 <= k < r.len() implies (#[trigger] r[k]).0.secs > point_before(
            origin,
            r,
            k,
        ).0.secs && exists|j: int|
            0 <= j < marks.len() && r[k] == next_point(point_before(origin, r, k), marks[j], num, den) by {
            let prev = point_before(origin, r, k);
            if k < w.len() {
                assert(r[k] == w[k]);
                if k > 0 {
                    assert(r[k - 1] == w[k - 1]);
                }
                assert(point_before(origin, w, k) == prev);
                let j = choose|j: int| 0 <= j < d.len() && w[k] == next_point(point_before(origin, w, k), d[j], num, den);
                assert(marks[j] == d[j]);
            } else {
                if k > 0 {
                    assert(r[k - 1] == w[k - 1]);
                }
                assert(r[k] == next_point(prev, marks[marks.len() - 1], num, den));
            }
        }
    }
}

/// Every point of a walk stands at one of the marks' date-times.
proof fn lemma_walk_bounded(origin: (NaiveDateTime, u16), marks: Seq<(NaiveDateTime, bool)>, num: int, den: int, t: int)
    requires
        forall|j: int| 0 <= j < marks.len() ==> (#[trigger] marks[j]).0.secs <= t,
    ensures
        forall|k: int|
            0 <= k < walk(origin, marks, num, den).len() ==> (#[trigger] walk(
                origin,
                marks,
                num,
                den,
            )[k]).0.secs <= t,
    decreases marks.len(),
{
    if marks.len() > 0 {
        let d = marks.drop_last();
        assert forall|j: int| 0 <= j < d.len() implies (#[trigger] d[j]).0.secs <= t by {
            assert(d[j] == marks[j]);
        }
        lemma_walk_bounded(origin, d, num, den, t);
        let w = walk(origin, d, num, den);
        let r = walk(origin, marks, num, den);
        assert(marks[marks.len() - 1] == marks.last());
        assert forall|k: int| 0 <= k < r.len() implies (#[trigger] r[k]).0.secs <= t by {
            if k < w.len() {
                assert(r[k] == w[k]);
            }
        }
    }
}

/// A walk from an origin before `t`, whose marks all stand at or before `t`
/// and whose last mark stands at `t`, ends with a point at `t`.
proof fn lemma_walk_ends(origin: (NaiveDateTime, u16), marks: Seq<(NaiveDateTime, bool)>, num: int, den: int, t: NaiveDateTime)
    requires
        marks.len() > 0,
        marks.last().0 == t,
        origin.0.secs < t.secs,
        forall|j: int| 0 <= j < marks.len() ==> (#[trigger] marks[j]).0.secs <= t.secs,
    ensures
        walk(origin, marks, num, den).len() > 0,
        walk(origin, marks, num, den).last().0 == t,
{
    let d = marks.drop_last();
    assert forall|j: int| 0 <= j < d.len() implies (#[trigger] d[j]).0.secs <= t.secs by {
        assert(d[j] == marks[j]);
    }
    lemma_walk_bounded(origin, d, num, den, t.secs as int);
    let w = walk(origin, d, num, den);
    if w.len() > 0 {
        assert(w[w.len() - 1] == w.last());
        if w.last().0.secs >= t.secs {
            assert(w.last().0.secs == t.secs);
            assert(w.last().0 == t);
        }
    }
}

/// A walk from the last point of a curve whose points stand strictly later
/// one after the other extends it in the same way.
proof fn lemma_after_increasing(c: Seq<(NaiveDateTime, u16)>, marks: Seq<(NaiveDateTime, bool)>, num: int, den: int)
    requires
        c.len() > 0,
        times_increasing(c),
    ensures
        times_increasing(c + walk(c.last(), marks, num, den)),
{
    let w = walk(c.last(), marks, num, den);
    lemma_walk_steps(c.last(), marks, num, den);
    let r = c + w;
    assert forall|k: int| 0 <= k < r.len() - 1 implies (#[trigger] r[k]).0.secs < r[k + 1].0.secs by {
        if k + 1 < c.len() {
            assert(r[k] == c[k] && r[k + 1] == c[k + 1]);
        } else if k + 1 == c.len() {
            assert(r[k] == c[c.len() - 1]);
            assert(r[k + 1] == w[0]);
        } else {
            assert(r[k] == w[k - c.len()]);
            assert(r[k + 1] == w[k + 1 - c.len()]);
        }
    }
}

/// The marks of a shift from `last` to `end` stand between the two, and the
/// last of them at `end`.
proof fn lemma_shift_marks_bounded(last: NaiveDateTime, end: NaiveDateTime, engaged: bool, pauses: Seq<DailySpan>)
    requires
        in_clock_range(last.secs as int),
        in_clock_range(end.secs as int),
        spans_wf(pauses),
    ensures
        shift_marks(last, end, engaged, pauses).len() > 0,
        shift_marks(last, end, engaged, pauses).last().0 == end,
        forall|j: int|
            0 <= j < shift_marks(last, end, engaged, pauses).len() ==> (#[trigger] shift_marks(
                last,
                end,
                engaged,
                pauses,
            )[j]).0.secs <= end.secs,
{
    let m = shift_marks(last, end, engaged, pauses);
    if engaged {
        let a = applied_spans(last.secs as int, end.secs as int, pauses);
        lemma_applied_spans(last.secs as int, end.secs as int, pauses);
        lemma_pause_marks(a);
        let pm = pause_marks(a);
        assert forall|j: int| 0 <= j < m.len() implies (#[trigger] m[j]).0.secs <= end.secs by {
            if j < pm.len() {
                vstd::arithmetic::div_mod::lemma_fundamental_div_mod(j, 2);
                let i = j / 2;
                assert(a[i] == a[i]);
                assert(m[j] == pm[j]);
            }
        }
    } else {
        assert(m[0] == (end, false));
    }
}

/// Each point of a shift's curve stands strictly later on the wall clock than
/// the one before it, and, when the shift ends after it starts, the curve ends
/// with a point at the shift's end.
pub proof fn lemma_shift_curve_times(start: NaiveDateTime, end: NaiveDateTime, pauses: Seq<DailySpan>, cycle_time: Ratio, efficiency: Ratio)
    requires
        in_clock_range(start.secs as int),
        in_clock_range(end.secs as int),
        spans_wf(pauses),
    ensures
        times_increasing(shift_curve(start, end, pauses, cycle_time, efficiency)),
        shift_curve(start, end, pauses, cycle_time, efficiency)[0] == (start, 0u16),
        start.secs < end.secs ==> shift_curve(start, end, pauses, cycle_time, efficiency).last().0
            == end,
{
    let c = seq![(start, 0u16)];
    let m = shift_marks(start, end, true, pauses);
    let num = rate_num_of(cycle_time, efficiency);
    let den = rate_den_of(cycle_time, efficiency);
    assert(c.last() == (start, 0u16));
    lemma_after_increasing(c, m, num, den);
    let r = shift_curve(start, end, pauses, cycle_time, efficiency);
    assert(r == c + walk(c.last(), m, num, den));
    assert(r[0] == c[0]);
    if start.secs < end.secs {
        lemma_shift_marks_bounded(start, end, true, pauses);
        lemma_walk_ends((start, 0u16), m, num, den, end);
        let w = walk((start, 0u16), m, num, den);
        assert(r.last() == w.last());
    }
}

/// Each point of a week's curve stands strictly later on the wall clock than
/// the one before it.
pub proof fn lemma_week_curve_times(first_day: int, starts: Seq<NaiveTime>, first: int, engaged: Seq<bool>, pauses: Seq<DailySpan>, num: int, den: int)
    ensures
        times_increasing(week_curve(first_day, starts, first, engaged, pauses, num, den)),
        week_curve(first_day, starts, first, engaged, pauses, num, den).len() > 0,
    decreases engaged.len(),
{
    if engaged.len() > 0 {
        lemma_week_curve_times(first_day, starts, first, engaged.drop_last(), pauses, num, den);
        let c = week_curve(first_day, starts, first, engaged.drop_last(), pauses, num, den);
        lemma_after_increasing(
            c,
            shift_marks(
                c.last().0,
                nth_shift_start(first_day, starts, first + engaged.len()),
                engaged.last(),
                pauses,
            ),
            num,
            den,
        );
    }
}

proof fn lemma_walk_rises(origin: (NaiveDateTime, u16), marks: Seq<(NaiveDateTime, bool)>, num: int, den: int)
    requires
        num >= 0,
        den > 0,
    ensures
        values_non_decreasing(walk(origin, marks, num, den)),
        forall|k: int|
            0 <= k < walk(origin, marks, num, den).len() ==> origin.1 <= (#[trigger] walk(
                origin,
                marks,
                num,
                den,
            )[k]).1,
    decreases marks.len(),
{
    if marks.len() > 0 {
        let d = marks.drop_last();
        lemma_walk_rises(origin, d, num, den);
        let w = walk(origin, d, num, den);
        let r = walk(origin, marks, num, den);
        let prev = if w.len() == 0 {
            origin
        } else {
            w.last()
        };
        let m = marks.last();
        if m.0.secs > prev.0.secs {
            if m.1 {
                let e = m.0.secs - prev.0.secs;
                vstd::arithmetic::div_mod::lemma_div_pos_is_pos(e * num, den);
                assert(e * num >= 0) by (nonlinear_arith)
                    requires
                        e > 0,
                        num >= 0,
                ;
            }
            assert(r.last().1 >= prev.1);
            if w.len() > 0 {
                assert(w[w.len() - 1] == w.last());
            }
            assert forall|i: int, j: int| 0 <= i <= j < r.len() implies r[i].1 <= r[j].1 by {
                if j < w.len() {
                    assert(r[i] == w[i] && r[j] == w[j]);
                } else if i < j {
                    assert(r[i] == w[i]);
                    assert(w[i].1 <= prev.1);
                }
            }
            assert forall|k: int| 0 <= k < r.len() implies origin.1 <= (#[trigger] r[k]).1 by {
                if k < w.len() {
                    assert(r[k] == w[k]);
                }
            }
        }
    }
}

proof fn lemma_after_rises(c: Seq<(NaiveDateTime, u16)>, origin_marks: Seq<(NaiveDateTime, bool)>, num: int, den: int)
    requires
        c.len() > 0,
        values_non_decreasing(c),
        num >= 0,
        den > 0,
    ensures
        values_non_decreasing(c + walk(c.last(), origin_marks, num, den)),
        (c + walk(c.last(), origin_marks, num, den)).len() > 0,
{
    let w = walk(c.last(), origin_marks, num, den);
    lemma_walk_rises(c.last(), origin_marks, num, den);
    let r = c + w;
    assert forall|i: int, j: int| 0 <= i <= j < r.len() implies r[i].1 <= r[j].1 by {
        if j < c.len() {
            assert(r[i] == c[i] && r[j] == c[j]);
        } else if i < c.len() {
            assert(r[i] == c[i]);
            assert(r[j] == w[j - c.len()]);
            assert(c[i].1 <= c[c.len() - 1].1);
        } else {
            assert(r[i] == w[i - c.len()] && r[j] == w[j - c.len()]);
        }
    }
}

proof fn lemma_week_curve_rises(first_day: int, starts: Seq<NaiveTime>, first: int, engaged: Seq<bool>, pauses: Seq<DailySpan>, num: int, den: int)
    requires
        num >= 0,
        den > 0,
    ensures
        values_non_decreasing(week_curve(first_day, starts, first, engaged, pauses, num, den)),
        week_curve(first_day, starts, first, engaged, pauses, num, den).len() > 0,
    decreases engaged.len(),
{
    if engaged.len() > 0 {
        lemma_week_curve_rises(first_day, starts, first, engaged.drop_last(), pauses, num, den);
        let c = week_curve(first_day, starts, first, engaged.drop_last(), pauses, num, den);
        lemma_after_rises(
            c,
            shift_marks(
                c.last().0,
                nth_shift_start(first_day, starts, first + engaged.len()),
                engaged.last(),
                pauses,
            ),
            num,
            den,
        );
    }
}

proof fn lemma_zoned_values(zone: Tz, pts: Seq<(NaiveDateTime, u16)>)
    ensures
        zoned_points(zone, pts) matches Some(v) ==> v.len() == pts.len() && forall|k: int|
            0 <= k < v.len() ==> (#[trigger] v[k]).value == pts[k].1,
    decreases pts.len(),
{
    if pts.len() > 0 {
        lemma_zoned_values(zone, pts.drop_last());
        if let Some(v) = zoned_points(zone, pts) {
            let p = zoned_points(zone, pts.drop_last()).unwrap();
            assert forall|k: int| 0 <= k < v.len() implies (#[trigger] v[k]).value == pts[k].1 by {
                if k < p.len() {
                    assert(v[k] == p[k]);
                    assert(pts.drop_last()[k] == pts[k]);
                }
            }
        }
    }
}

proof fn lemma_zoned_rises(zone: Tz, pts: Seq<(NaiveDateTime, u16)>)
    requires
        values_non_decreasing(pts),
    ensures
        zoned_points(zone, pts) matches Some(v) ==> objective_non_decreasing(v),
{
    lemma_zoned_values(zone, pts);
}

/// The values of a shift objective never decrease along the curve.
pub proof fn lemma_shift_objective_rises(req: ShiftObjectiveRequest, now: int)
    requires
        req.wf(),
    ensures
        shift_objective_spec(req, now) matches Some(v) ==> objective_non_decreasing(v),
{
    if let Some((s, e)) = zoned_shift_bounds(req.timezone, now, req.shift_start_times@) {
        let c = seq![(s.local, 0u16)];
        let num = rate_num_of(req.target_cycle_time, req.target_efficiency);
        let den = rate_den_of(req.target_cycle_time, req.target_efficiency);
        assert(den > 0) by (nonlinear_arith)
            requires
                den == req.target_efficiency.den as int * req.target_cycle_time.num as int,
                req.target_efficiency.den > 0,
                req.target_cycle_time.num > 0,
        ;
        assert(c.last() == (s.local, 0u16));
        lemma_after_rises(c, shift_marks(s.local, e.local, true, req.pauses@), num, den);
        lemma_zoned_rises(
            req.timezone,
            shift_curve(s.local, e.local, req.pauses@, req.target_cycle_time, req.target_efficiency),
        );
    }
}

/// The values of a week objective never decrease along the curve.
pub proof fn lemma_week_objective_rises(req: WeekObjectiveRequest, now: int)
    requires
        req.wf(),
    ensures
        week_objective_spec(req, now) matches Some(v) ==> objective_non_decreasing(v),
{
    let starts = req.shift_start_times@;
    let today = day_of(local_of(req.timezone, now));
    let first_day = week_start_day(today, req.week_start.day);
    let first = req.week_start.shift_index as int;
    let num = rate_num_of(req.target_cycle_time, req.target_efficiency);
    let den = rate_den_of(req.target_cycle_time, req.target_efficiency);
    assert(den > 0) by (nonlinear_arith)
        requires
            den == req.target_efficiency.den as int * req.target_cycle_time.num as int,
            req.target_efficiency.den > 0,
            req.target_cycle_time.num > 0,
    ;
    lemma_week_curve_rises(first_day, starts, first, req.shift_engaged@, req.pauses@, num, den);
    lemma_zoned_rises(
        req.timezone,
        week_curve(first_day, starts, first, req.shift_engaged@, req.pauses@, num, den),
    );
}

/// Whether each point of `s` stands strictly later on the wall clock than
/// the point before it.
pub open spec fn times_increasing(s: Seq<(NaiveDateTime, u16)>) -> bool {
    forall|k: int| 0 <= k < s.len() - 1 ==> (#[trigger] s[k]).0.secs < s[k + 1].0.secs
}

proof fn lemma_pause_marks(s: Seq<Span>)
    ensures
        pause_marks(s).len() == 2 * s.len(),
        forall|i: int|
            0 <= i < s.len() ==> pause_marks(s)[2 * i].0 == (#[trigger] s[i]).0 && pause_marks(
                s,
            )[2 * i].1 && pause_marks(s)[2 * i + 1] == (s[i].1, false),
    decreases s.len(),
{
    if s.len() > 0 {
        let d = s.drop_last();
        lemma_pause_marks(d);
        let p = pause_marks(s);
        let q = pause_marks(d);
        let tail = seq![(s.last().0, true), (s.last().1, false)];
        assert(p == q + tail);
        assert forall|i: int| 0 <= i < s.len() implies p[2 * i].0 == (#[trigger] s[i]).0 && p[2
            * i].1 && p[2 * i + 1] == (s[i].1, false) by {
            if i < d.len() {
                assert(d[i] == s[i]);
                assert(p[2 * i] == q[2 * i]);
                assert(p[2 * i + 1] == q[2 * i + 1]);
            } else {
                assert(p[2 * i] == tail[0]);
                assert(p[2 * i + 1] == tail[1]);
            }
        }
    }
}

} // verus!
