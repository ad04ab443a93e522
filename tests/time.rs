use chrono_tz::Etc::{GMTMinus2, GMTMinus4, GMTPlus1, GMTPlus2, GMTPlus3};
use chrono_tz::UTC;
use production_compute::clock::{NaiveDateTime, NaiveTime};
use production_compute::shift::{find_shift_bounds, find_shift_bounds_at, shift_bounds_local};
use production_compute::spans::apply_time_spans;

fn instant(text: &str) -> i64 {
    text.parse::<chrono::DateTime<chrono::Utc>>().unwrap().timestamp()
}

fn naive(text: &str) -> NaiveDateTime {
    let secs = text
        .parse::<chrono::NaiveDateTime>()
        .unwrap()
        .and_utc()
        .timestamp();
    NaiveDateTime { secs }
}

fn time(text: &str) -> NaiveTime {
    let t = text.parse::<chrono::NaiveTime>().unwrap();
    NaiveTime::from_hms(
        chrono::Timelike::hour(&t),
        chrono::Timelike::minute(&t),
        chrono::Timelike::second(&t),
    )
}

fn shift_times() -> Vec<NaiveTime> {
    vec![
        NaiveTime::from_hms(3, 15, 0),
        NaiveTime::from_hms(11, 30, 0),
        NaiveTime::from_hms(19, 0, 0),
    ]
}

#[test]
fn one_shift_before_start() {
    let shifts = vec![NaiveTime::from_hms(11, 0, 0)];
    let result =
        find_shift_bounds_at(&GMTMinus2, instant("1984-12-09T01:15:00Z"), &shifts).unwrap();
    assert_eq!(result.0.timestamp, instant("1984-12-08T09:00:00Z"));
    assert_eq!(result.1.timestamp, instant("1984-12-09T09:00:00Z"));
}

#[test]
fn one_shift_after_start() {
    let shifts = vec![NaiveTime::from_hms(11, 0, 0)];
    let result =
        find_shift_bounds_at(&GMTPlus2, instant("1984-12-09T13:15:00Z"), &shifts).unwrap();
    assert_eq!(result.0.timestamp, instant("1984-12-09T13:00:00Z"));
    assert_eq!(result.1.timestamp, instant("1984-12-10T13:00:00Z"));
}

#[test]
fn on_first_shift_start() {
    let result =
        find_shift_bounds_at(&GMTMinus2, instant("1984-12-09T01:15:00Z"), &shift_times())
            .unwrap();
    assert_eq!(result.0.timestamp, instant("1984-12-09T01:15:00Z"));
    assert_eq!(result.1.timestamp, instant("1984-12-09T09:30:00Z"));
}

#[test]
fn on_second_shift_start() {
    let result =
        find_shift_bounds_at(&GMTMinus4, instant("1984-12-09T07:30:00Z"), &shift_times())
            .unwrap();
    assert_eq!(result.0.timestamp, instant("1984-12-09T07:30:00Z"));
    assert_eq!(result.1.timestamp, instant("1984-12-09T15:00:00Z"));
}

#[test]
fn on_third_shift_start() {
    let result =
        find_shift_bounds_at(&GMTPlus1, instant("1984-12-09T20:00:00Z"), &shift_times()).unwrap();
    assert_eq!(result.0.timestamp, instant("1984-12-09T20:00:00Z"));
    assert_eq!(result.1.timestamp, instant("1984-12-10T04:15:00Z"));
}

#[test]
fn in_first_shift() {
    let result =
        find_shift_bounds_at(&GMTMinus2, instant("1984-12-09T03:30:00Z"), &shift_times())
            .unwrap();
    assert_eq!(result.0.timestamp, instant("1984-12-09T01:15:00Z"));
    assert_eq!(result.1.timestamp, instant("1984-12-09T09:30:00Z"));
}

#[test]
fn in_second_shift() {
    let result =
        find_shift_bounds_at(&GMTPlus3, instant("1984-12-09T14:30:00Z"), &shift_times()).unwrap();
    assert_eq!(result.0.timestamp, instant("1984-12-09T14:30:00Z"));
    assert_eq!(result.1.timestamp, instant("1984-12-09T22:00:00Z"));
}

#[test]
fn in_third_shift_before_midnight() {
    let result =
        find_shift_bounds_at(&UTC, instant("1984-12-09T21:00:00Z"), &shift_times()).unwrap();
    assert_eq!(result.0.timestamp, instant("1984-12-09T19:00:00Z"));
    assert_eq!(result.1.timestamp, instant("1984-12-10T03:15:00Z"));
}

#[test]
fn in_third_shift_after_midnight() {
    let result =
        find_shift_bounds_at(&GMTPlus2, instant("1984-12-10T03:00:00Z"), &shift_times()).unwrap();
    assert_eq!(result.0.timestamp, instant("1984-12-09T21:00:00Z"));
    assert_eq!(result.1.timestamp, instant("1984-12-10T05:15:00Z"));
}

#[test]
fn shift_bounds_keep_the_wall_clock() {
    let result =
        find_shift_bounds_at(&GMTMinus2, instant("1984-12-09T03:30:00Z"), &shift_times())
            .unwrap();
    assert_eq!(result.0.local, naive("1984-12-09T03:15:00"));
    assert_eq!(result.1.local, naive("1984-12-09T11:30:00"));
}

#[test]
fn shift_bounds_before_first_start_reach_back_a_day() {
    let (start, end) = shift_bounds_local(naive("1984-12-09T02:00:00"), &shift_times());
    assert_eq!(start, naive("1984-12-08T19:00:00"));
    assert_eq!(end, naive("1984-12-09T03:15:00"));
}

#[test]
fn shift_bounds_before_the_epoch() {
    let (start, end) = shift_bounds_local(naive("1969-12-31T23:00:00"), &shift_times());
    assert_eq!(start, naive("1969-12-31T19:00:00"));
    assert_eq!(end, naive("1970-01-01T03:15:00"));
}

#[test]
fn shift_bounds_now_encloses_the_clock() {
    let result = find_shift_bounds(&UTC, &shift_times()).unwrap();
    let now = chrono::Utc::now().timestamp();
    assert!(result.0.timestamp <= now);
    assert!(now <= result.1.timestamp + 1);
    assert!(result.1.timestamp - result.0.timestamp <= 24 * 3600);
}

fn excluded_spans() -> Vec<(NaiveTime, NaiveTime)> {
    vec![
        (time("23:00:00"), time("01:00:00")),
        (time("04:00:00"), time("05:00:00")),
        (time("12:00:00"), time("12:20:00")),
        (time("19:00:00"), time("20:00:00")),
    ]
}

fn span(start: &str, end: &str) -> (NaiveDateTime, NaiveDateTime) {
    (naive(start), naive(end))
}

#[test]
fn invalid_envelope() {
    let result = apply_time_spans(
        span("1984-12-09T03:00:00", "1984-12-09T02:00:00"),
        &excluded_spans(),
    );
    assert_eq!(result, vec![]);
}

#[test]
fn empty_spans_slice() {
    let result = apply_time_spans(span("1984-12-09T05:00:00", "1984-12-09T05:00:00"), &vec![]);
    assert_eq!(result, vec![]);
}

#[test]
fn empty_span() {
    let excluded = vec![(time("08:00:00"), time("08:00:00"))];
    let result = apply_time_spans(span("1984-12-09T05:00:00", "1984-12-09T12:00:00"), &excluded);
    assert_eq!(result, vec![]);
}

#[test]
fn no_span_applied() {
    let result = apply_time_spans(
        span("1984-12-09T05:00:00", "1984-12-09T12:00:00"),
        &excluded_spans(),
    );
    assert_eq!(result, vec![]);
}

#[test]
fn all_spans_applied_one_time() {
    let result = apply_time_spans(
        span("1984-12-09T03:00:00", "1984-12-10T02:00:00"),
        &excluded_spans(),
    );
    let expected = vec![
        span("1984-12-09T04:00:00", "1984-12-09T05:00:00"),
        span("1984-12-09T12:00:00", "1984-12-09T12:20:00"),
        span("1984-12-09T19:00:00", "1984-12-09T20:00:00"),
        span("1984-12-09T23:00:00", "1984-12-10T01:00:00"),
    ];
    assert_eq!(result, expected);
}

#[test]
fn all_spans_applied_three_time() {
    let result = apply_time_spans(
        span("1984-12-09T03:00:00", "1984-12-12T02:00:00"),
        &excluded_spans(),
    );
    let expected = vec![
        span("1984-12-09T04:00:00", "1984-12-09T05:00:00"),
        span("1984-12-09T12:00:00", "1984-12-09T12:20:00"),
        span("1984-12-09T19:00:00", "1984-12-09T20:00:00"),
        span("1984-12-09T23:00:00", "1984-12-10T01:00:00"),
        span("1984-12-10T04:00:00", "1984-12-10T05:00:00"),
        span("1984-12-10T12:00:00", "1984-12-10T12:20:00"),
        span("1984-12-10T19:00:00", "1984-12-10T20:00:00"),
        span("1984-12-10T23:00:00", "1984-12-11T01:00:00"),
        span("1984-12-11T04:00:00", "1984-12-11T05:00:00"),
        span("1984-12-11T12:00:00", "1984-12-11T12:20:00"),
        span("1984-12-11T19:00:00", "1984-12-11T20:00:00"),
        span("1984-12-11T23:00:00", "1984-12-12T01:00:00"),
    ];
    assert_eq!(result, expected);
}

#[test]
fn envelope_starts_in_span() {
    let result = apply_time_spans(
        span("1984-12-09T04:40:00", "1984-12-09T13:00:00"),
        &excluded_spans(),
    );
    let expected = vec![
        span("1984-12-09T04:40:00", "1984-12-09T05:00:00"),
        span("1984-12-09T12:00:00", "1984-12-09T12:20:00"),
    ];
    assert_eq!(result, expected);
}

#[test]
fn envelope_ends_in_span() {
    let result = apply_time_spans(
        span("1984-12-09T18:00:00", "1984-12-09T23:30:00"),
        &excluded_spans(),
    );
    let expected = vec![
        span("1984-12-09T19:00:00", "1984-12-09T20:00:00"),
        span("1984-12-09T23:00:00", "1984-12-09T23:30:00"),
    ];
    assert_eq!(result, expected);
}

#[test]
fn envelope_inside_one_span_is_all_paused() {
    let result = apply_time_spans(
        span("1984-12-09T04:10:00", "1984-12-09T04:50:00"),
        &excluded_spans(),
    );
    assert_eq!(result, vec![span("1984-12-09T04:10:00", "1984-12-09T04:50:00")]);
}

#[test]
fn envelope_starting_after_midnight_takes_the_span_from_the_day_before() {
    let result = apply_time_spans(
        span("1984-12-09T00:30:00", "1984-12-09T03:00:00"),
        &excluded_spans(),
    );
    assert_eq!(result, vec![span("1984-12-09T00:30:00", "1984-12-09T01:00:00")]);
}

#[test]
fn spans_come_sorted_whatever_their_order() {
    let spans = vec![
        (time("19:00:00"), time("20:00:00")),
        (time("04:00:00"), time("05:00:00")),
    ];
    let result = apply_time_spans(span("1984-12-09T00:00:00", "1984-12-10T00:00:00"), &spans);
    assert_eq!(
        result,
        vec![
            span("1984-12-09T04:00:00", "1984-12-09T05:00:00"),
            span("1984-12-09T19:00:00", "1984-12-09T20:00:00"),
        ]
    );
}

#[test]
fn spans_near_the_end_of_the_supported_range() {
    let max = production_compute::clock::MAX_ABS_SECS;
    let end = NaiveDateTime { secs: max };
    let start = NaiveDateTime { secs: max - 86400 };
    // The envelope runs from 00:36:16 to 00:36:16 the next day, so it also
    // catches the end of the span that wrapped midnight the day before.
    let result = apply_time_spans((start, end), &excluded_spans());
    assert_eq!(result.len(), 5);
    assert_eq!(result[0], (start, NaiveDateTime { secs: start.secs - 2176 + 3600 }));
    for pair in result.windows(2) {
        assert!(pair[0].0.secs <= pair[1].0.secs);
    }
    for (s, e) in result {
        assert!(start.secs <= s.secs && s.secs < e.secs && e.secs <= end.secs);
    }
}

#[test]
fn shift_bounds_at_the_end_of_the_supported_range() {
    let max = production_compute::clock::MAX_ABS_SECS;
    let result = find_shift_bounds_at(&UTC, max, &shift_times()).unwrap();
    assert!(result.0.timestamp <= max && max < result.1.timestamp);
}

#[test]
fn zero_length_spans_change_nothing_among_others() {
    let mut with_empty = excluded_spans();
    with_empty.insert(1, (time("04:30:00"), time("04:30:00")));
    with_empty.push((time("00:00:00"), time("00:00:00")));
    let envelope = span("1984-12-09T03:00:00", "1984-12-11T02:00:00");
    assert_eq!(
        apply_time_spans(envelope, &with_empty),
        apply_time_spans(envelope, &excluded_spans())
    );
}
