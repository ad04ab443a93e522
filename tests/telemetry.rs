use chrono_tz::Etc::GMTMinus2;
use chrono_tz::UTC;
use production_compute::clock::{NaiveDateTime, NaiveTime};
use production_compute::performance::{effective_seconds, performance_tally, PerformanceRow};
use production_compute::query::{performance_query, query_body, timeline_query};
use production_compute::timeline::{timeline_slots_of, TimelineRow, TimelineSlot};

fn instant(text: &str) -> i64 {
    text.parse::<chrono::DateTime<chrono::FixedOffset>>()
        .unwrap()
        .timestamp()
}

fn row(time: i64, color: Option<u8>) -> TimelineRow {
    TimelineRow { time, color }
}

fn slot(start: i64, color: Option<u8>) -> TimelineSlot {
    TimelineSlot { start, color }
}

#[test]
fn timeline_empty_gives_nothing() {
    assert_eq!(timeline_slots_of(&vec![]), vec![]);
}

#[test]
fn timeline_single_row_gives_one_slot() {
    assert_eq!(timeline_slots_of(&vec![row(7, Some(3))]), vec![slot(7, Some(3))]);
}

#[test]
fn timeline_keeps_last_sample() {
    let rows = vec![row(0, Some(1)), row(1, Some(1)), row(2, Some(1)), row(3, Some(0))];
    assert_eq!(timeline_slots_of(&rows), vec![slot(0, Some(1)), slot(3, Some(0))]);
    let rows = vec![row(0, Some(1)), row(1, Some(1)), row(2, Some(1))];
    assert_eq!(timeline_slots_of(&rows), vec![slot(0, Some(1)), slot(2, Some(1))]);
}

#[test]
fn timeline_success() {
    let rows = vec![
        row(instant("1984-12-09T04:30:00Z"), Some(1)),
        row(instant("1984-12-09T04:35:00Z"), Some(1)),
        row(instant("1984-12-09T04:40:00Z"), Some(1)),
        row(instant("1984-12-09T05:00:00Z"), None),
        row(instant("1984-12-09T05:15:00Z"), None),
        row(instant("1984-12-09T05:30:00Z"), Some(0)),
        row(instant("1984-12-09T05:35:00Z"), Some(0)),
        row(instant("1984-12-09T05:40:00Z"), Some(0)),
        row(instant("1984-12-09T05:45:00Z"), Some(0)),
    ];
    assert_eq!(
        timeline_slots_of(&rows),
        vec![
            slot(instant("1984-12-09T04:30:00Z"), Some(1)),
            slot(instant("1984-12-09T05:00:00Z"), None),
            slot(instant("1984-12-09T05:30:00Z"), Some(0)),
            slot(instant("1984-12-09T05:45:00Z"), Some(0)),
        ]
    );
}

fn pauses() -> Vec<(NaiveTime, NaiveTime)> {
    vec![
        (NaiveTime::from_hms(8, 0, 0), NaiveTime::from_hms(8, 30, 0)),
        (NaiveTime::from_hms(15, 0, 0), NaiveTime::from_hms(15, 30, 0)),
    ]
}

fn perf(elapsed: i64, end: &str, good_parts: u16) -> PerformanceRow {
    PerformanceRow {
        elapsed,
        end: instant(end),
        good_parts,
    }
}

#[test]
fn performance_success() {
    let rows = vec![
        perf(-1, "1984-12-09T00:00:00+02:00", 500),
        perf(60, "1984-12-09T01:00:00+02:00", 100),
        perf(30, "1984-12-09T08:00:00+02:00", 60),
        perf(120, "1984-12-09T10:00:00+02:00", 200),
        perf(240, "1984-12-09T15:30:00+02:00", 300),
    ];
    let tally = performance_tally(&rows, &GMTMinus2, &pauses()).unwrap();
    assert_eq!(tally.done_parts, 660);
    assert_eq!(tally.effective_seconds, 23400);
    let target_cycle_time: f32 = 21.3;
    let expected_parts = tally.effective_seconds as f32 / target_cycle_time;
    let ratio = tally.done_parts as f32 / expected_parts * 100.0;
    assert!(60.0 < ratio && ratio < 60.1);
}

#[test]
fn performance_success_empty() {
    let tally = performance_tally(&vec![], &GMTMinus2, &pauses()).unwrap();
    assert_eq!(tally.done_parts, 0);
    assert_eq!(tally.effective_seconds, 0);
    let ratio = tally.done_parts as f32 / (tally.effective_seconds as f32 / 21.3) * 100.0;
    assert!(ratio.is_nan());
}

#[test]
fn performance_without_pauses_counts_whole_durations() {
    let rows = vec![
        perf(0, "1984-12-09T00:00:00Z", 9),
        perf(10, "1984-12-09T08:10:00Z", 4),
        perf(5, "1984-12-09T15:05:00Z", 2),
    ];
    let tally = performance_tally(&rows, &UTC, &vec![]).unwrap();
    assert_eq!(tally.done_parts, 6);
    assert_eq!(tally.effective_seconds, 900);
}

#[test]
fn effective_seconds_leave_out_pauses() {
    let end = NaiveDateTime {
        secs: "1984-12-09T10:00:00"
            .parse::<chrono::NaiveDateTime>()
            .unwrap()
            .and_utc()
            .timestamp(),
    };
    assert_eq!(effective_seconds(end, 120, &pauses()), 5400);
}

#[test]
fn query_body_fills_bucket_and_measurement() {
    let body = query_body(
        "some Flux query with __bucketplaceholder__ and __measurementplaceholder__",
        "somebucket",
        "somemeasurement",
    );
    assert_eq!(body, "some Flux query with somebucket and somemeasurement");
}

#[test]
fn timeline_query_fills_id_and_cycle_time() {
    let query = timeline_query(
        "r.id == \"__idplaceholder__\" stoppedTime = __targetcycletimeplaceholder__ *",
        "someid",
        "1.2",
    );
    assert_eq!(query, "r.id == \"someid\" stoppedTime = 1.2 *");
}

#[test]
fn performance_query_fills_id_and_start() {
    let query = performance_query(
        "r.id == \"__idplaceholder__\" range(start: __startplaceholder__)",
        "otherid",
        &GMTMinus2,
        instant("1984-12-09T00:00:00+02:00"),
    );
    assert_eq!(query, "r.id == \"otherid\" range(start: 1984-12-09T00:00:00+02:00)");
}
