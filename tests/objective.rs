use chrono_tz::UTC;
use production_compute::clock::{NaiveDateTime, NaiveTime, Weekday};
use production_compute::config::WeekStart;
use production_compute::objective::{
    shift_objective, shift_objective_at, week_objective_at, NaivePoints, ObjectivePoint, Ratio,
    ShiftObjectiveRequest, WeekObjectiveRequest,
};

fn instant(text: &str) -> i64 {
    text.parse::<chrono::DateTime<chrono::Utc>>().unwrap().timestamp()
}

fn naive(text: &str) -> NaiveDateTime {
    let secs = text
        .parse::<chrono::NaiveDateTime>()
        .unwrap()
        .and_utc()
        .timestamp();
    NaiveDateTime { secs }
}

fn start_times_fixture() -> Vec<NaiveTime> {
    vec![
        NaiveTime::from_hms(5, 30, 0),
        NaiveTime::from_hms(13, 30, 0),
        NaiveTime::from_hms(21, 30, 0),
    ]
}

fn pause(h1: u32, m1: u32, h2: u32, m2: u32) -> (NaiveTime, NaiveTime) {
    (NaiveTime::from_hms(h1, m1, 0), NaiveTime::from_hms(h2, m2, 0))
}

fn pauses_fixture() -> Vec<(NaiveTime, NaiveTime)> {
    vec![
        pause(8, 0, 8, 20),
        pause(11, 0, 11, 30),
        pause(16, 0, 16, 20),
        pause(19, 0, 19, 30),
        pause(0, 0, 0, 20),
        pause(3, 0, 3, 30),
    ]
}

fn point(timestamp: i64, value: u16) -> ObjectivePoint {
    ObjectivePoint { timestamp, value }
}

#[test]
fn now_in_first_shift() {
    let request = ShiftObjectiveRequest {
        shift_start_times: start_times_fixture(),
        pauses: pauses_fixture(),
        timezone: UTC,
        target_cycle_time: Ratio { num: 70, den: 1 },
        target_efficiency: Ratio { num: 4, den: 5 },
    };
    let points = shift_objective_at(&request, instant("1984-12-09T07:00:00Z")).unwrap();
    assert_eq!(
        points,
        [
            point(471418200, 0),
            point(471427200, 102),
            point(471428400, 102),
            point(471438000, 211),
            point(471439800, 211),
            point(471447000, 293),
        ]
    );
}

#[test]
fn no_pause() {
    let request = ShiftObjectiveRequest {
        shift_start_times: start_times_fixture(),
        pauses: Vec::new(),
        timezone: UTC,
        target_cycle_time: Ratio { num: 1, den: 1 },
        target_efficiency: Ratio { num: 1, den: 1 },
    };
    let points = shift_objective_at(&request, instant("1984-12-09T13:29:59Z")).unwrap();
    assert_eq!(points, [point(471418200, 0), point(471447000, 28800)]);
}

#[test]
fn shift_objective_values_cap_at_u16() {
    let request = ShiftObjectiveRequest {
        shift_start_times: vec![NaiveTime::from_hms(0, 0, 0)],
        pauses: Vec::new(),
        timezone: UTC,
        target_cycle_time: Ratio { num: 1, den: 1 },
        target_efficiency: Ratio { num: 1, den: 1 },
    };
    let points = shift_objective_at(&request, instant("1984-12-09T13:00:00Z")).unwrap();
    assert_eq!(points, [point(471398400, 0), point(471484800, 65535)]);
}

#[test]
fn shift_objective_now_is_rising() {
    let request = ShiftObjectiveRequest {
        shift_start_times: start_times_fixture(),
        pauses: pauses_fixture(),
        timezone: UTC,
        target_cycle_time: Ratio { num: 70, den: 1 },
        target_efficiency: Ratio { num: 4, den: 5 },
    };
    let points = shift_objective(&request).unwrap();
    assert!(points.len() >= 2);
    assert_eq!(points[0].value, 0);
    for pair in points.windows(2) {
        assert!(pair[0].timestamp <= pair[1].timestamp);
        assert!(pair[0].value <= pair[1].value);
    }
}

fn week_request(shift_engaged: Vec<bool>) -> WeekObjectiveRequest {
    WeekObjectiveRequest {
        shift_start_times: start_times_fixture(),
        shift_engaged,
        pauses: pauses_fixture(),
        week_start: WeekStart {
            day: Weekday::Tue,
            shift_index: 1,
        },
        timezone: UTC,
        target_cycle_time: Ratio { num: 60, den: 1 },
        target_efficiency: Ratio { num: 1, den: 1 },
    }
}

#[test]
fn first_engagement_configuration() {
    let request = week_request(vec![true, false, true]);
    let points = week_objective_at(&request, instant("2023-09-19T14:00:00Z")).unwrap();
    assert_eq!(
        points,
        [
            point(1695130200, 0),
            point(1695139200, 150),
            point(1695140400, 150),
            point(1695150000, 310),
            point(1695151800, 310),
            point(1695159000, 430),
            point(1695187800, 430),
            point(1695196800, 580),
            point(1695198000, 580),
            point(1695207600, 740),
            point(1695209400, 740),
            point(1695216600, 860),
        ]
    );
}

#[test]
fn second_engagement_configuration() {
    let request = week_request(vec![false, true, false]);
    let points = week_objective_at(&request, instant("2023-09-19T14:00:00Z")).unwrap();
    assert_eq!(
        points,
        [
            point(1695130200, 0),
            point(1695159000, 0),
            point(1695168000, 150),
            point(1695169200, 150),
            point(1695178800, 310),
            point(1695180600, 310),
            point(1695187800, 430),
            point(1695216600, 430),
        ]
    );
}

#[test]
fn week_starting_later_in_the_week_reaches_back() {
    // 2023-09-19 is a Tuesday; a week starting on Friday began on 2023-09-15.
    let mut request = week_request(vec![]);
    request.week_start = WeekStart {
        day: Weekday::Fri,
        shift_index: 0,
    };
    let points = week_objective_at(&request, instant("2023-09-19T14:00:00Z")).unwrap();
    assert_eq!(points, [point(instant("2023-09-15T05:30:00Z"), 0)]);
}

#[test]
fn naive_points_flat_when_not_engaged() {
    let mut points = NaivePoints::new(
        naive("1984-12-09T05:30:00"),
        Ratio { num: 1, den: 1 },
        Ratio { num: 1, den: 1 },
    );
    points.push_shift(naive("1984-12-09T13:30:00"), false, &pauses_fixture());
    assert_eq!(
        points.inner,
        vec![
            (naive("1984-12-09T05:30:00"), 0),
            (naive("1984-12-09T13:30:00"), 0),
        ]
    );
}

#[test]
fn naive_points_punch_out_pauses() {
    let mut points = NaivePoints::new(
        naive("1984-12-09T07:00:00"),
        Ratio { num: 60, den: 1 },
        Ratio { num: 1, den: 2 },
    );
    points.push_shift(naive("1984-12-09T09:00:00"), true, &pauses_fixture());
    assert_eq!(
        points.inner,
        vec![
            (naive("1984-12-09T07:00:00"), 0),
            (naive("1984-12-09T08:00:00"), 30),
            (naive("1984-12-09T08:20:00"), 30),
            (naive("1984-12-09T09:00:00"), 50),
        ]
    );
    let data = points.into_objective_data(&UTC).unwrap();
    assert_eq!(data[3], point(instant("1984-12-09T09:00:00Z"), 50));
}

#[test]
fn week_past_the_supported_range_gives_none() {
    let now = production_compute::clock::MAX_ABS_SECS;
    assert!(week_objective_at(&week_request(vec![false; 3]), now).is_some());
    assert!(week_objective_at(&week_request(vec![false; 3000]), now).is_none());
}

#[test]
fn week_objective_without_shifts_after_the_first_is_its_origin() {
    let points = week_objective_at(&week_request(vec![]), instant("2023-09-19T14:00:00Z")).unwrap();
    assert_eq!(points, [point(1695130200, 0)]);
}

#[test]
fn pauses_on_shift_bounds_repeat_no_timestamp() {
    // The first pause starts where the shift starts and the second ends where
    // it ends.
    let request = ShiftObjectiveRequest {
        shift_start_times: vec![NaiveTime::from_hms(5, 30, 0), NaiveTime::from_hms(13, 30, 0)],
        pauses: vec![pause(5, 30, 6, 0), pause(13, 0, 13, 30)],
        timezone: UTC,
        target_cycle_time: Ratio { num: 60, den: 1 },
        target_efficiency: Ratio { num: 1, den: 1 },
    };
    let points = shift_objective_at(&request, instant("1984-12-09T07:00:00Z")).unwrap();
    assert_eq!(
        points,
        [
            point(instant("1984-12-09T05:30:00Z"), 0),
            point(instant("1984-12-09T06:00:00Z"), 0),
            point(instant("1984-12-09T13:00:00Z"), 420),
            point(instant("1984-12-09T13:30:00Z"), 420),
        ]
    );
}

#[test]
fn overlapping_pauses_keep_points_in_order() {
    let mut points = NaivePoints::new(
        naive("1984-12-09T08:00:00"),
        Ratio { num: 60, den: 1 },
        Ratio { num: 1, den: 1 },
    );
    let pauses = vec![pause(8, 30, 9, 30), pause(9, 0, 9, 15)];
    points.push_shift(naive("1984-12-09T10:00:00"), true, &pauses);
    assert_eq!(
        points.inner,
        vec![
            (naive("1984-12-09T08:00:00"), 0),
            (naive("1984-12-09T08:30:00"), 30),
            (naive("1984-12-09T09:30:00"), 30),
            (naive("1984-12-09T10:00:00"), 60),
        ]
    );
}
