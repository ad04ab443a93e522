//! The performance ratio: parts produced against the parts that the target
//! cycle time asks for in the time worked, pauses left out.
use crate::clock::{local_at, local_of, valid_secs, NaiveDateTime, MAX_ABS_SECS};
use crate::spans::{
    applied_spans, apply_time_spans, clip_all, day_spans, lemma_applied_spans,
    materialized, sort_by_start, spans_wf, total_length, DailySpan, Span,
};
use chrono_tz::Tz;
use vstd::prelude::*;

verus! {

/// A production record: over the `elapsed` minutes that end at `end` (seconds
/// since the epoch), `good_parts` good parts were made.
#[derive(Clone, Copy, Debug, PartialEq, Eq, Structural)]
pub struct PerformanceRow {
    pub elapsed: i64,
    pub end: i64,
    pub good_parts: u16,
}

/// Largest number of minutes a record may span.
pub const MAX_ELAPSED_MINUTES: i64 = 10_000_000_000;

/// Whether a record lies in the supported range.
pub open spec fn row_ok(row: PerformanceRow) -> bool {
    valid_secs(row.end as int) && row.elapsed <= MAX_ELAPSED_MINUTES
}

/// The parts made and the seconds worked (pauses left out) over the records
/// with a positive duration.
#[derive(Clone, Copy, Debug, PartialEq, Eq, Structural)]
pub struct PerformanceTally {
    pub done_parts: u128,
    pub effective_seconds: i128,
}

/// The seconds worked in the `minutes` minutes that end at the wall-clock
/// instant `end`: their length minus the length of the pauses in them.
pub open spec fn effective_secs(end: int, minutes: int, pauses: Seq<DailySpan>) -> int {
    minutes * 60 - total_length(applied_spans(end - minutes * 60, end, pauses))
}

/// Seconds worked over the records with a positive duration, each ending at
/// its wall-clock time in `zone`.
pub open spec fn effective_total(zone: Tz, rows: Seq<PerformanceRow>, pauses: Seq<DailySpan>) -> int
    decreases rows.len(),
{
    if rows.len() == 0 {
        0
    } else {
        let row = rows.last();
        effective_total(zone, rows.drop_last(), pauses) + if row.elapsed > 0 {
            effective_secs(local_of(zone, row.end as int), row.elapsed as int, pauses)
        } else {
            0
        }
    }
}

/// Good parts over the records with a positive duration.
pub open spec fn done_total(rows: Seq<PerformanceRow>) -> int
    decreases rows.len(),
{
    if rows.len() == 0 {
        0
    } else {
        done_total(rows.drop_last()) + if rows.last().elapsed > 0 {
            rows.last().good_parts as int
        } else {
            0
        }
    }
}

pub open spec fn fits_i128(x: int) -> bool {
    -0x7fff_ffff_ffff_ffff_ffff_ffff_ffff_ffff - 1 <= x <= 0x7fff_ffff_ffff_ffff_ffff_ffff_ffff_ffff
}

/// Whether the seconds worked over every prefix of `rows` fit in an `i128`.
pub open spec fn totals_fit(zone: Tz, rows: Seq<PerformanceRow>, pauses: Seq<DailySpan>) -> bool
    decreases rows.len(),
{
    rows.len() == 0 || (totals_fit(zone, rows.drop_last(), pauses) && fits_i128(
        effective_total(zone, rows, pauses),
    ))
}

proof fn lemma_length_bound(s: Seq<(NaiveDateTime, NaiveDateTime)>, a: int, b: int)
    requires
        forall|k: int| 0 <= k < s.len() ==> {
            let x = #[trigger] s[k];
            a <= x.0.secs < x.1.secs <= b
        },
        a <= b,
    ensures
        0 <= total_length(s) <= s.len() * (b - a),
    decreases s.len(),
{
    if s.len() > 0 {
        assert(s[s.len() - 1] == s.last());
        lemma_length_bound(s.drop_last(), a, b);
        assert(s.len() * (b - a) == (s.len() - 1) * (b - a) + (b - a)) by (nonlinear_arith);
    }
}

/// Seconds worked in the `minutes` minutes that end at the wall-clock
/// date-time `end`: their length minus that of the pauses that fall in them.
pub fn effective_seconds(end: NaiveDateTime, minutes: i64, pauses: &Vec<DailySpan>) -> (r: i128)
    requires
        -MAX_ABS_SECS - 86400 < end.secs < MAX_ABS_SECS + 86400,
        0 < minutes <= MAX_ELAPSED_MINUTES,
        spans_wf(pauses@),
    ensures
        r == effective_secs(end.secs as int, minutes as int, pauses@),
{
    let duration = minutes * 60;
    let start = NaiveDateTime { secs: end.secs - duration };
    let spans = apply_time_spans((start, end), pauses);
    proof {
        lemma_applied_spans(start.secs as int, end.secs as int, pauses@);
    }
    let mut paused: i128 = 0;
    let mut i: usize = 0;
    while i < spans.len()
        invariant
            0 <= i <= spans.len(),
            spans@ == applied_spans(start.secs as int, end.secs as int, pauses@),
            forall|k: int| 0 <= k < spans@.len() ==> {
                let x = #[trigger] spans@[k];
                start.secs <= x.0.secs < x.1.secs <= end.secs
            },
            start.secs < end.secs,
            end.secs - start.secs == duration,
            0 < duration <= 60 * MAX_ELAPSED_MINUTES,
            paused == total_length(spans@.take(i as int)),
            0 <= paused <= i * duration,
        decreases spans.len() - i,
    {
        let (s, e) = spans[i];
        proof {
            let t = spans@.take(i + 1);
            assert(t.drop_last() =~= spans@.take(i as int));
            assert(t.last() == spans@[i as int]);
            assert(i * duration + duration == (i + 1) * duration) by (nonlinear_arith);
            assert((i + 1) * duration <= 0x1_0000_0000_0000_0000 * (60 * MAX_ELAPSED_MINUTES)) by (nonlinear_arith)
                requires
                    i + 1 <= 0x1_0000_0000_0000_0000,
                    0 < duration <= 60 * MAX_ELAPSED_MINUTES,
            ;
        }
        paused = paused + (e.secs - s.secs) as i128;
        i += 1;
    }
    proof {
        assert(spans@.take(spans@.len() as int) =~= spans@);
    }
    duration as i128 - paused
}

/// The parts made and the seconds worked over the records with a positive
/// duration, each record ending at its wall-clock time in `zone`; `None`
/// when the seconds worked over some prefix of the records overflow an
/// `i128`.
pub fn performance_tally(rows: &Vec<PerformanceRow>, zone: &Tz, pauses: &Vec<DailySpan>) -> (r: Option<PerformanceTally>)
    requires
        forall|k: int| 0 <= k < rows@.len() ==> row_ok(#[trigger] rows@[k]),
        spans_wf(pauses@),
    ensures
        match r {
            Some(t) => totals_fit(*zone, rows@, pauses@) && t.done_parts == done_total(rows@)
                && t.effective_seconds == effective_total(*zone, rows@, pauses@),
            None => !totals_fit(*zone, rows@, pauses@),
        },
{
    let mut done: u128 = 0;
    let mut effective: i128 = 0;
    let mut i: usize = 0;
    while i < rows.len()
        invariant
            0 <= i <= rows.len(),
            forall|k: int| 0 <= k < rows@.len() ==> row_ok(#[trigger] rows@[k]),
            spans_wf(pauses@),
            done == done_total(rows@.take(i as int)),
            done <= i * 65535,
            effective == effective_total(*zone, rows@.take(i as int), pauses@),
            totals_fit(*zone, rows@.take(i as int), pauses@),
        decreases rows.len() - i,
    {
        let row = rows[i];
        proof {
            let t = rows@.take(i + 1);
            assert(t.drop_last() =~= rows@.take(i as int));
            assert(t.last() == rows@[i as int]);
            assert(row_ok(rows@[i as int]));
            assert(i * 65535 + 65535 == (i + 1) * 65535) by (nonlinear_arith);
        }
        if row.elapsed > 0 {
            let end = local_at(zone, row.end);
            let secs = effective_seconds(end, row.elapsed, pauses);
            match effective.checked_add(secs) {
                Some(total) => {
                    effective = total;
                },
                None => {
                    proof {
                        lemma_unfit_extends(*zone, rows@, pauses@, i + 1);
                    }
                    return None;
                },
            }
            done = done + row.good_parts as u128;
        }
        i += 1;
    }
    proof {
        assert(rows@.take(rows@.len() as int) =~= rows@);
    }
    Some(PerformanceTally { done_parts: done, effective_seconds: effective })
}

proof fn lemma_unfit_extends(zone: Tz, rows: Seq<PerformanceRow>, pauses: Seq<DailySpan>, i: int)
    requires
        0 <= i <= rows.len(),
        !totals_fit(zone, rows.take(i), pauses),
    ensures
        !totals_fit(zone, rows, pauses),
    decreases rows.len(),
{
    if rows.len() == i {
        assert(rows.take(i) =~= rows);
    } else {
        assert(rows.drop_last().take(i) =~= rows.take(i));
        lemma_unfit_extends(zone, rows.drop_last(), pauses, i);
    }
}

/// Seconds in the records with a positive duration.
pub open spec fn elapsed_total(rows: Seq<PerformanceRow>) -> int
    decreases rows.len(),
{
    if rows.len() == 0 {
        0
    } else {
        elapsed_total(rows.drop_last()) + if rows.last().elapsed > 0 {
            rows.last().elapsed as int * 60
        } else {
            0
        }
    }
}

proof fn lemma_nothing_materialized(first_day: int, count: nat)
    ensures
        materialized(first_day, count, Seq::<DailySpan>::empty()) == Seq::<Span>::empty(),
    decreases count,
{
    if count > 0 {
        lemma_nothing_materialized(first_day, (count - 1) as nat);
        let e = day_spans(first_day + count - 1, count == 1, Seq::<DailySpan>::empty());
        assert(e == Seq::<Span>::empty());
        assert(Seq::<Span>::empty() + e =~= Seq::<Span>::empty());
    }
}

/// Without pauses, the seconds worked over the records are the seconds
/// they span, over the records with a positive duration; so the performance
/// ratio is `100 * done_total / (elapsed_total / cycle_time)`.
pub proof fn lemma_performance_without_pauses(zone: Tz, rows: Seq<PerformanceRow>)
    ensures
        effective_total(zone, rows, Seq::<DailySpan>::empty()) == elapsed_total(rows),
    decreases rows.len(),
{
    if rows.len() > 0 {
        lemma_performance_without_pauses(zone, rows.drop_last());
        let row = rows.last();
        if row.elapsed > 0 {
            let end = local_of(zone, row.end as int);
            let a = end - row.elapsed * 60;
            let m = materialized(
                crate::clock::day_of(a),
                crate::spans::day_count(a, end),
                Seq::<DailySpan>::empty(),
            );
            lemma_nothing_materialized(crate::clock::day_of(a), crate::spans::day_count(a, end));
            assert(sort_by_start(m) == m);
            assert(clip_all(m, a, end) == Seq::<Span>::empty());
        }
    }
}

} // verus!
