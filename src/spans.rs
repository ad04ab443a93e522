//! Projection of recurring daily time spans (pauses) onto a range of
//! date-times.
use crate::clock::{at_day, day_of, in_clock_range, NaiveDateTime, NaiveTime, MAX_ABS_SECS};
use vstd::prelude::*;

verus! {

/// A span of date-times, start then end.
pub type Span = (NaiveDateTime, NaiveDateTime);

/// A span of times of day that recurs every day; it wraps midnight when its
/// start is after its end.
pub type DailySpan = (NaiveTime, NaiveTime);

/// Whether every daily span is made of valid times of day.
pub open spec fn spans_wf(spans: Seq<DailySpan>) -> bool {
    forall|i: int| 0 <= i < spans.len() ==> (#[trigger] spans[i]).0.wf() && spans[i].1.wf()
}

pub open spec fn dt(s: int) -> NaiveDateTime {
    NaiveDateTime { secs: s as i64 }
}

/// The spans that one daily span gives on day `day`: a span that wraps
/// midnight also gives, on the first day, the part that began the day before.
pub open spec fn day_entries(day: int, first: bool, span: DailySpan) -> Seq<Span> {
    let (s, e) = (span.0.secs as int, span.1.secs as int);
    if s > e {
        if first {
            seq![(dt(at_day(day - 1, s)), dt(at_day(day, e))), (dt(at_day(day, s)), dt(at_day(day + 1, e)))]
        } else {
            seq![(dt(at_day(day, s)), dt(at_day(day + 1, e)))]
        }
    } else {
        seq![(dt(at_day(day, s)), dt(at_day(day, e)))]
    }
}

/// The spans that all daily spans give on day `day`, in the order of `spans`.
pub open spec fn day_spans(day: int, first: bool, spans: Seq<DailySpan>) -> Seq<Span>
    decreases spans.len(),
{
    if spans.len() == 0 {
        seq![]
    } else {
        day_spans(day, first, spans.drop_last()) + day_entries(day, first, spans.last())
    }
}

/// The spans that all daily spans give on the `count` days from day `first_day`
/// on, day by day.
pub open spec fn materialized(first_day: int, count: nat, spans: Seq<DailySpan>) -> Seq<Span>
    decreases count,
{
    if count == 0 {
        seq![]
    } else {
        materialized(first_day, (count - 1) as nat, spans) + day_spans(
            first_day + count - 1,
            count == 1,
            spans,
        )
    }
}

/// `s` with `x` placed after the last span whose start is not after that of
/// `x`, when `s` is sorted by start.
pub open spec fn insert_by_start(s: Seq<Span>, x: Span) -> Seq<Span>
    decreases s.len(),
{
    if s.len() == 0 || s.last().0.secs <= x.0.secs {
        s.push(x)
    } else {
        insert_by_start(s.drop_last(), x).push(s.last())
    }
}

/// `s` sorted by start; spans with equal starts keep their order.
pub open spec fn sort_by_start(s: Seq<Span>) -> Seq<Span>
    decreases s.len(),
{
    if s.len() == 0 {
        s
    } else {
        insert_by_start(sort_by_start(s.drop_last()), s.last())
    }
}

pub open spec fn max(a: int, b: int) -> int {
    if a >= b {
        a
    } else {
        b
    }
}

pub open spec fn min(a: int, b: int) -> int {
    if a <= b {
        a
    } else {
        b
    }
}

/// The span `x` truncated to the envelope `[a, b)`.
pub open spec fn clipped(x: Span, a: int, b: int) -> Span {
    (dt(max(x.0.secs as int, a)), dt(min(x.1.secs as int, b)))
}

/// Whether `x` shares a stretch of positive length with the envelope `[a, b)`.
pub open spec fn overlaps(x: Span, a: int, b: int) -> bool {
    max(x.0.secs as int, a) < min(x.1.secs as int, b)
}

/// The spans of `s` that overlap the envelope `[a, b)`, truncated to it.
pub open spec fn clip_all(s: Seq<Span>, a: int, b: int) -> Seq<Span>
    decreases s.len(),
{
    if s.len() == 0 {
        seq![]
    } else if overlaps(s.last(), a, b) {
        clip_all(s.drop_last(), a, b).push(clipped(s.last(), a, b))
    } else {
        clip_all(s.drop_last(), a, b)
    }
}

/// Number of calendar days from the day of `a` to the day of `b`, both
/// included.
pub open spec fn day_count(a: int, b: int) -> nat {
    if day_of(b) >= day_of(a) {
        (day_of(b) - day_of(a) + 1) as nat
    } else {
        0
    }
}

/// What `apply_time_spans` returns: the daily spans materialised on every day
/// of the envelope, sorted by start, then truncated to the envelope.
pub open spec fn applied_spans(a: int, b: int, spans: Seq<DailySpan>) -> Seq<Span> {
    clip_all(sort_by_start(materialized(day_of(a), day_count(a, b), spans)), a, b)
}

proof fn lemma_insert_at(s: Seq<Span>, x: Span, j: int)
    requires
        0 <= j <= s.len(),
        forall|k: int| j <= k < s.len() ==> s[k].0.secs > x.0.secs,
        j > 0 ==> s[j - 1].0.secs <= x.0.secs,
    ensures
        insert_by_start(s, x) =~= s.insert(j, x),
    decreases s.len(),
{
    if j < s.len() {
        lemma_insert_at(s.drop_last(), x, j);
        assert(s.drop_last().insert(j, x).push(s.last()) =~= s.insert(j, x));
    }
}

/// Places `x` in `v`, sorted by start, after every span whose start is not
/// after that of `x`.
fn insert_sorted(v: &mut Vec<Span>, x: Span)
    ensures
        final(v)@ == insert_by_start(old(v)@, x),
{
    let mut j: usize = v.len();
    while j > 0 && v[j - 1].0.secs > x.0.secs
        invariant
            0 <= j <= v.len(),
            forall|k: int| j <= k < v.len() ==> v@[k].0.secs > x.0.secs,
        decreases j,
    {
        j -= 1;
    }
    proof {
        lemma_insert_at(v@, x, j as int);
    }
    v.insert(j, x);
}

/// The spans of `day_entries`, pushed onto `out`.
fn push_day_entries(out: &mut Vec<Span>, day: i64, first: bool, span: DailySpan)
    requires
        span.0.wf(),
        span.1.wf(),
        -(2 * MAX_ABS_SECS) / 86400 - 1 <= day <= (2 * MAX_ABS_SECS) / 86400,
    ensures
        final(out)@ == old(out)@ + day_entries(day as int, first, span),
{
    let (s, e) = span;
    if s.secs > e.secs {
        if first {
            let a = NaiveDateTime::from_date_time(day - 1, s);
            let b = NaiveDateTime::from_date_time(day, e);
            out.push((a, b));
        }
        let a = NaiveDateTime::from_date_time(day, s);
        let b = NaiveDateTime::from_date_time(day + 1, e);
        out.push((a, b));
    } else {
        let a = NaiveDateTime::from_date_time(day, s);
        let b = NaiveDateTime::from_date_time(day, e);
        out.push((a, b));
    }
    proof {
        let d = day_entries(day as int, first, span);
        assert(final(out)@ =~= old(out)@ + d);
    }
}

/// Projects each daily span onto every calendar date of the envelope
/// `[envelope.0, envelope.1)`, then keeps, in chronological order, the parts
/// that fall inside the envelope. A span that wraps midnight runs from one
/// day to the next; on the first day, the part that began the day before is
/// taken too.
pub fn apply_time_spans(envelope: Span, spans: &Vec<DailySpan>) -> (r: Vec<Span>)
    requires
        in_clock_range(envelope.0.secs as int),
        in_clock_range(envelope.1.secs as int),
        spans_wf(spans@),
    ensures
        r@ == applied_spans(envelope.0.secs as int, envelope.1.secs as int, spans@),
{
    let (start, end) = envelope;
    let first_day = start.date();
    let last_day = end.date();
    let ghost count = day_count(start.secs as int, end.secs as int);
    let mut all: Vec<Span> = Vec::new();
    let mut day = first_day;
    while day <= last_day
        invariant
            first_day == day_of(start.secs as int),
            last_day == day_of(end.secs as int),
            first_day <= day <= last_day + 1 || (day == first_day && last_day < first_day),
            -(2 * MAX_ABS_SECS) / 86400 - 1 <= first_day,
            last_day <= (2 * MAX_ABS_SECS) / 86400,
            spans_wf(spans@),
            all@ == materialized(first_day as int, (day - first_day) as nat, spans@),
        decreases last_day + 1 - day,
    {
        let mut i: usize = 0;
        while i < spans.len()
            invariant
                first_day <= day <= last_day,
                -(2 * MAX_ABS_SECS) / 86400 - 1 <= first_day,
                last_day <= (2 * MAX_ABS_SECS) / 86400,
                0 <= i <= spans.len(),
                spans_wf(spans@),
                all@ == materialized(first_day as int, (day - first_day) as nat, spans@)
                    + day_spans(day as int, day == first_day, spans@.take(i as int)),
            decreases spans.len() - i,
        {
            assert(spans@[i as int].0.wf() && spans@[i as int].1.wf());
            push_day_entries(&mut all, day, day == first_day, spans[i]);
            proof {
                let t = spans@.take(i + 1);
                assert(t.drop_last() =~= spans@.take(i as int));
                assert(t.last() == spans@[i as int]);
                let m0 = materialized(first_day as int, (day - first_day) as nat, spans@);
                let d0 = day_spans(day as int, day == first_day, spans@.take(i as int));
                let e0 = day_entries(day as int, day == first_day, spans@[i as int]);
                assert(m0 + d0 + e0 =~= m0 + (d0 + e0));
            }
            i += 1;
        }
        proof {
            assert(spans@.take(spans@.len() as int) =~= spans@);
        }
        day += 1;
    }
    assert(count == (day - first_day) as nat);
    let mut sorted: Vec<Span> = Vec::new();
    let mut k: usize = 0;
    while k < all.len()
        invariant
            0 <= k <= all.len(),
            sorted@ == sort_by_start(all@.take(k as int)),
        decreases all.len() - k,
    {
        proof {
            let t = all@.take(k + 1);
            assert(t.drop_last() =~= all@.take(k as int));
            assert(t.last() == all@[k as int]);
        }
        insert_sorted(&mut sorted, all[k]);
        k += 1;
    }
    assert(all@.take(all@.len() as int) =~= all@);
    let mut out: Vec<Span> = Vec::new();
    let mut m: usize = 0;
    while m < sorted.len()
        invariant
            0 <= m <= sorted.len(),
            out@ == clip_all(sorted@.take(m as int), start.secs as int, end.secs as int),
        decreases sorted.len() - m,
    {
        let (s, e) = sorted[m];
        proof {
            let t = sorted@.take(m + 1);
            assert(t.drop_last() =~= sorted@.take(m as int));
            assert(t.last() == sorted@[m as int]);
        }
        let lo = if s.secs >= start.secs {
            s
        } else {
            start
        };
        let hi = if e.secs <= end.secs {
            e
        } else {
            end
        };
        if lo.secs < hi.secs {
            out.push((lo, hi));
        }
        m += 1;
    }
    assert(sorted@.take(sorted@.len() as int) =~= sorted@);
    out
}

/// Whether the spans of `s` are in non-decreasing order of start.
pub open spec fn sorted_by_start(s: Seq<Span>) -> bool {
    forall|i: int, j: int| 0 <= i <= j < s.len() ==> s[i].0.secs <= s[j].0.secs
}

/// Length in seconds of the part of `x` inside the envelope `[a, b)`.
pub open spec fn overlap(x: Span, a: int, b: int) -> int {
    if overlaps(x, a, b) {
        min(x.1.secs as int, b) - max(x.0.secs as int, a)
    } else {
        0
    }
}

/// Total length in seconds of the parts of the spans of `s` inside `[a, b)`.
pub open spec fn total_overlap(s: Seq<Span>, a: int, b: int) -> int
    decreases s.len(),
{
    if s.len() == 0 {
        0
    } else {
        total_overlap(s.drop_last(), a, b) + overlap(s.last(), a, b)
    }
}

/// Total length in seconds of the spans of `s`.
pub open spec fn total_length(s: Seq<Span>) -> int
    decreases s.len(),
{
    if s.len() == 0 {
        0
    } else {
        total_length(s.drop_last()) + (s.last().1.secs - s.last().0.secs)
    }
}

proof fn lemma_insert_sorted(s: Seq<Span>, x: Span, a: int, b: int)
    requires
        sorted_by_start(s),
    ensures
        sorted_by_start(insert_by_start(s, x)),
        insert_by_start(s, x).len() == s.len() + 1,
        total_overlap(insert_by_start(s, x), a, b) == total_overlap(s, a, b) + overlap(x, a, b),
        forall|k: int|
            0 <= k < insert_by_start(s, x).len() ==> #[trigger] insert_by_start(s, x)[k] == x
                || s.contains(insert_by_start(s, x)[k]),
    decreases s.len(),
{
    let r = insert_by_start(s, x);
    if s.len() == 0 || s.last().0.secs <= x.0.secs {
        assert(r.drop_last() =~= s);
        assert forall|k: int| 0 <= k < r.len() implies r[k] == x || s.contains(r[k]) by {
            if k < s.len() {
                assert(r[k] == s[k]);
            }
        }
    } else {
        let d = s.drop_last();
        assert(sorted_by_start(d));
        lemma_insert_sorted(d, x, a, b);
        let q = insert_by_start(d, x);
        assert(r.drop_last() =~= q);
        assert forall|k: int| 0 <= k < q.len() implies q[k].0.secs <= s.last().0.secs by {
            if q[k] != x {
                let w = choose|w: int| 0 <= w < d.len() && d[w] == q[k];
                assert(d[w] == s[w]);
            }
        }
        assert forall|i: int, j: int| 0 <= i <= j < r.len() implies r[i].0.secs
            <= r[j].0.secs by {
            if j == r.len() - 1 {
                if i < j {
                    assert(r[i] == q[i]);
                }
            } else {
                assert(r[i] == q[i] && r[j] == q[j]);
            }
        }
        assert forall|k: int| 0 <= k < r.len() implies r[k] == x || s.contains(r[k]) by {
            if k == r.len() - 1 {
                assert(s[s.len() - 1] == r[k]);
            } else {
                assert(r[k] == q[k]);
                if q[k] != x {
                    let w = choose|w: int| 0 <= w < d.len() && d[w] == q[k];
                    assert(s[w] == d[w]);
                }
            }
        }
    }
}

proof fn lemma_sort(s: Seq<Span>, a: int, b: int)
    ensures
        sorted_by_start(sort_by_start(s)),
        sort_by_start(s).len() == s.len(),
        total_overlap(sort_by_start(s), a, b) == total_overlap(s, a, b),
    decreases s.len(),
{
    if s.len() > 0 {
        lemma_sort(s.drop_last(), a, b);
        lemma_insert_sorted(sort_by_start(s.drop_last()), s.last(), a, b);
    }
}

proof fn lemma_clip_all(s: Seq<Span>, a: int, b: int)
    requires
        forall|k: int| 0 <= k < s.len() ==> #[trigger] s[k].0.secs == s[k].0.secs,
    ensures
        forall|k: int|
            0 <= k < clip_all(s, a, b).len() ==> {
                let y = #[trigger] clip_all(s, a, b)[k];
                exists|w: int| 0 <= w < s.len() && y == clipped(s[w], a, b) && overlaps(s[w], a, b)
            },
        total_length(clip_all(s, a, b)) == total_overlap(s, a, b),
        sorted_by_start(s) ==> sorted_by_start(clip_all(s, a, b)),
    decreases s.len(),
{
    if s.len() > 0 {
        let d = s.drop_last();
        lemma_clip_all(d, a, b);
        let c = clip_all(d, a, b);
        let r = clip_all(s, a, b);
        assert forall|k: int| 0 <= k < r.len() implies {
            let y = #[trigger] r[k];
            exists|w: int| 0 <= w < s.len() && y == clipped(s[w], a, b) && overlaps(s[w], a, b)
        } by {
            if k < c.len() {
                assert(r[k] == c[k]);
                let w = choose|w: int|
                    0 <= w < d.len() && c[k] == clipped(d[w], a, b) && overlaps(d[w], a, b);
                assert(s[w] == d[w]);
            } else {
                assert(s[s.len() - 1] == s.last());
            }
        }
        if overlaps(s.last(), a, b) {
            assert(r.drop_last() =~= c);
        }
        if sorted_by_start(s) {
            assert(sorted_by_start(d));
            assert forall|i: int, j: int| 0 <= i <= j < r.len() implies r[i].0.secs
                <= r[j].0.secs by {
                if j == r.len() - 1 && overlaps(s.last(), a, b) {
                    if i < j {
                        assert(r[i] == c[i]);
                        let w = choose|w: int|
                            0 <= w < d.len() && c[i] == clipped(d[w], a, b) && overlaps(d[w], a, b);
                        assert(d[w] == s[w]);
                    }
                } else {
                    assert(r[i] == c[i] && r[j] == c[j]);
                }
            }
        }
    }
}

/// Every span that `apply_time_spans` returns lies inside the envelope and
/// has a positive length; the spans come in order of start; and their total
/// length is the total length of the parts of the materialised daily spans
/// that fall inside the envelope.
pub proof fn lemma_applied_spans(a: int, b: int, spans: Seq<DailySpan>)
    requires
        in_clock_range(a),
        in_clock_range(b),
        spans_wf(spans),
    ensures
        forall|k: int|
            0 <= k < applied_spans(a, b, spans).len() ==> {
                let x = #[trigger] applied_spans(a, b, spans)[k];
                a <= x.0.secs < x.1.secs <= b
            },
        sorted_by_start(applied_spans(a, b, spans)),
        total_length(applied_spans(a, b, spans)) == total_overlap(
            materialized(day_of(a), day_count(a, b), spans),
            a,
            b,
        ),
{
    let m = materialized(day_of(a), day_count(a, b), spans);
    let s = sort_by_start(m);
    lemma_sort(m, a, b);
    lemma_clip_all(s, a, b);
    let r = applied_spans(a, b, spans);
    assert forall|k: int| 0 <= k < r.len() implies {
        let x = #[trigger] r[k];
        a <= x.0.secs < x.1.secs <= b
    } by {
        let w = choose|w: int| 0 <= w < s.len() && r[k] == clipped(s[w], a, b) && overlaps(s[w], a, b);
    }
}

/// Whether a daily span has a start distinct from its end.
pub open spec fn daily_non_empty(d: DailySpan) -> bool {
    d.0.secs != d.1.secs
}

/// Whether a span has a positive length.
pub open spec fn positive(x: Span) -> bool {
    x.0.secs < x.1.secs
}

proof fn lemma_day_entries_filter(day: int, first: bool, d: DailySpan)
    requires
        d.0.wf(),
        d.1.wf(),
        -1_000_000_000 <= day <= 1_000_000_000,
    ensures
        day_entries(day, first, d).filter(|x: Span| positive(x)) == if daily_non_empty(d) {
            day_entries(day, first, d)
        } else {
            Seq::<Span>::empty()
        },
{
    reveal(Seq::filter);
    let e = day_entries(day, first, d);
    let p = |x: Span| positive(x);
    let (sd, ed) = (d.0.secs as int, d.1.secs as int);
    assert(0 <= sd < 86400 && 0 <= ed < 86400);
    assert(-1_000_000_000 * 86400 - 2 * 86400 <= at_day(day - 1, 0)) by (nonlinear_arith)
        requires -1_000_000_000 <= day;
    assert(at_day(day + 1, 0) <= 1_000_000_000 * 86400 + 86400) by (nonlinear_arith)
        requires day <= 1_000_000_000;
    assert(at_day(day - 1, sd) == at_day(day - 1, 0) + sd);
    assert(at_day(day, sd) == at_day(day - 1, 0) + 86400 + sd);
    assert(at_day(day, ed) == at_day(day - 1, 0) + 86400 + ed);
    assert(at_day(day + 1, ed) == at_day(day + 1, 0) + ed);
    assert(at_day(day + 1, 0) == at_day(day - 1, 0) + 2 * 86400);
    let e0 = e.drop_last();
    assert(e.filter(p) == if p(e.last()) {
        e0.filter(p).push(e.last())
    } else {
        e0.filter(p)
    });
    if e.len() == 2 {
        let e1 = e0.drop_last();
        assert(e1 =~= Seq::<Span>::empty());
        assert(e0.filter(p) == if p(e0.last()) {
            e1.filter(p).push(e0.last())
        } else {
            e1.filter(p)
        });
        assert(e1.filter(p) == e1);
        assert(e0.last() == e[0]);
        assert(Seq::<Span>::empty().push(e[0]).push(e[1]) =~= e);
    } else {
        assert(e0 =~= Seq::<Span>::empty());
        assert(e0.filter(p) == e0);
        assert(Seq::<Span>::empty().push(e[0]) =~= e);
    }
}

proof fn lemma_day_spans_filter(day: int, first: bool, spans: Seq<DailySpan>)
    requires
        spans_wf(spans),
        -1_000_000_000 <= day <= 1_000_000_000,
    ensures
        day_spans(day, first, spans.filter(|d: DailySpan| daily_non_empty(d))) == day_spans(
            day,
            first,
            spans,
        ).filter(|x: Span| positive(x)),
    decreases spans.len(),
{
    reveal(Seq::filter);
    let q = |d: DailySpan| daily_non_empty(d);
    let p = |x: Span| positive(x);
    if spans.len() > 0 {
        let d = spans.drop_last();
        let l = spans.last();
        assert(spans_wf(d)) by {
            assert forall|i: int| 0 <= i < d.len() implies (#[trigger] d[i]).0.wf() && d[i].1.wf() by {
                assert(d[i] == spans[i]);
            }
        }
        assert(spans[spans.len() - 1] == l);
        lemma_day_spans_filter(day, first, d);
        lemma_day_entries_filter(day, first, l);
        Seq::filter_distributes_over_add(day_spans(day, first, d), day_entries(day, first, l), p);
        if q(l) {
            assert(d.filter(q).push(l).drop_last() =~= d.filter(q));
        }
        assert(day_spans(day, first, d.filter(q)) + Seq::<Span>::empty() =~= day_spans(
            day,
            first,
            d.filter(q),
        ));
    }
}

proof fn lemma_materialized_filter(first_day: int, count: nat, spans: Seq<DailySpan>)
    requires
        spans_wf(spans),
        -1_000_000_000 <= first_day,
        first_day + count <= 1_000_000_000,
    ensures
        materialized(first_day, count, spans.filter(|d: DailySpan| daily_non_empty(d)))
            == materialized(first_day, count, spans).filter(|x: Span| positive(x)),
    decreases count,
{
    reveal(Seq::filter);
    let p = |x: Span| positive(x);
    if count > 0 {
        lemma_materialized_filter(first_day, (count - 1) as nat, spans);
        lemma_day_spans_filter(first_day + count - 1, count == 1, spans);
        Seq::filter_distributes_over_add(
            materialized(first_day, (count - 1) as nat, spans),
            day_spans(first_day + count - 1, count == 1, spans),
            p,
        );
    }
}

proof fn lemma_insert_filter_out(t: Seq<Span>, x: Span, p: spec_fn(Span) -> bool)
    requires
        !p(x),
    ensures
        insert_by_start(t, x).filter(p) == t.filter(p),
    decreases t.len(),
{
    reveal(Seq::filter);
    if t.len() == 0 || t.last().0.secs <= x.0.secs {
        assert(t.push(x).drop_last() =~= t);
    } else {
        lemma_insert_filter_out(t.drop_last(), x, p);
        let i = insert_by_start(t.drop_last(), x);
        assert(i.push(t.last()).drop_last() =~= i);
    }
}

proof fn lemma_insert_filter_in(t: Seq<Span>, x: Span, p: spec_fn(Span) -> bool)
    requires
        p(x),
        sorted_by_start(t),
    ensures
        insert_by_start(t, x).filter(p) == insert_by_start(t.filter(p), x),
    decreases t.len(),
{
    reveal(Seq::filter);
    let f = t.filter(p);
    if t.len() == 0 || t.last().0.secs <= x.0.secs {
        assert(t.push(x).drop_last() =~= t);
        if f.len() > 0 {
            t.lemma_filter_contains_rev(p, f.last());
            let j = choose|j: int| 0 <= j < t.len() && t[j] == f.last();
            assert(t[j].0.secs <= t[t.len() - 1].0.secs);
            assert(f[f.len() - 1] == f.last());
        }
    } else {
        let d = t.drop_last();
        assert(sorted_by_start(d));
        lemma_insert_filter_in(d, x, p);
        let i = insert_by_start(d, x);
        assert(i.push(t.last()).drop_last() =~= i);
        if p(t.last()) {
            assert(d.filter(p).push(t.last()).drop_last() =~= d.filter(p));
        }
    }
}

proof fn lemma_sort_filter(s: Seq<Span>, p: spec_fn(Span) -> bool)
    ensures
        sort_by_start(s.filter(p)) == sort_by_start(s).filter(p),
    decreases s.len(),
{
    reveal(Seq::filter);
    if s.len() > 0 {
        let d = s.drop_last();
        lemma_sort_filter(d, p);
        lemma_sort(d, 0, 0);
        if p(s.last()) {
            assert(d.filter(p).push(s.last()).drop_last() =~= d.filter(p));
            lemma_insert_filter_in(sort_by_start(d), s.last(), p);
        } else {
            lemma_insert_filter_out(sort_by_start(d), s.last(), p);
        }
    }
}

proof fn lemma_clip_filter(s: Seq<Span>, a: int, b: int)
    ensures
        clip_all(s.filter(|x: Span| positive(x)), a, b) == clip_all(s, a, b),
    decreases s.len(),
{
    reveal(Seq::filter);
    let p = |x: Span| positive(x);
    if s.len() > 0 {
        lemma_clip_filter(s.drop_last(), a, b);
        if p(s.last()) {
            assert(s.drop_last().filter(p).push(s.last()).drop_last() =~= s.drop_last().filter(p));
        }
    }
}

/// Daily spans whose start equals their end give nothing: leaving them out of
/// any list of daily spans changes nothing that `apply_time_spans` returns.
pub proof fn lemma_empty_spans_change_nothing(a: int, b: int, spans: Seq<DailySpan>)
    requires
        in_clock_range(a),
        in_clock_range(b),
        spans_wf(spans),
    ensures
        applied_spans(a, b, spans.filter(|d: DailySpan| daily_non_empty(d))) == applied_spans(
            a,
            b,
            spans,
        ),
{
    let p = |x: Span| positive(x);
    let fd = day_of(a);
    let c = day_count(a, b);
    vstd::arithmetic::div_mod::lemma_fundamental_div_mod(a, 86400);
    vstd::arithmetic::div_mod::lemma_fundamental_div_mod(b, 86400);
    lemma_materialized_filter(fd, c, spans);
    let m = materialized(fd, c, spans);
    lemma_sort_filter(m, p);
    lemma_clip_filter(sort_by_start(m), a, b);
}

} // verus!
