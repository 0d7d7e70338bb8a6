use sensor_api::aggregation::{hourly_plan, split_into_hours, FlowInterval, HourlySegment};
use sensor_api::time::Timestamp;

const H10: i64 = 1_714_557_600; // 2024-05-01T10:00:00Z

fn ts(secs: i64, nanos: u32) -> Timestamp {
    Timestamp::from_unix(secs, nanos).unwrap()
}

fn interval(start: i64, stop: i64) -> FlowInterval {
    FlowInterval { start: ts(start, 0), stop: ts(stop, 0) }
}

#[test]
fn reading_over_three_hours_is_split_at_boundaries() {
    // 10:30 to 12:15
    let pieces = split_into_hours(interval(H10 + 1800, H10 + 2 * 3600 + 900));
    assert_eq!(
        pieces,
        vec![
            HourlySegment { bucket: H10, seconds: 1800 },
            HourlySegment { bucket: H10 + 3600, seconds: 3600 },
            HourlySegment { bucket: H10 + 7200, seconds: 900 },
        ]
    );
}

#[test]
fn reading_within_one_hour_is_one_piece() {
    let pieces = split_into_hours(interval(H10 + 60, H10 + 120));
    assert_eq!(pieces, vec![HourlySegment { bucket: H10, seconds: 60 }]);
}

#[test]
fn reading_that_ends_on_a_boundary_stops_there() {
    let pieces = split_into_hours(interval(H10, H10 + 3600));
    assert_eq!(pieces, vec![HourlySegment { bucket: H10, seconds: 3600 }]);
}

#[test]
fn empty_or_reversed_reading_has_no_pieces() {
    assert!(split_into_hours(interval(H10, H10)).is_empty());
    assert!(split_into_hours(interval(H10 + 10, H10)).is_empty());
}

#[test]
fn sub_second_starts_lose_at_most_a_second() {
    let e = FlowInterval { start: ts(H10 + 3599, 500_000_000), stop: ts(H10 + 3601, 200_000_000) };
    let pieces = split_into_hours(e);
    assert_eq!(
        pieces,
        vec![HourlySegment { bucket: H10, seconds: 0 }, HourlySegment { bucket: H10 + 3600, seconds: 1 }]
    );
    // the whole reading counts one whole second
    let total: i64 = pieces.iter().map(|p| p.seconds).sum();
    assert!(total <= 1);
}

#[test]
fn pieces_of_whole_second_readings_add_up() {
    for (start, stop) in [(H10 + 17, H10 + 9 * 3600 + 5), (H10 - 3 * 3600 + 1, H10 + 1), (-7200 + 5, 3)] {
        let pieces = split_into_hours(interval(start, stop));
        let total: i64 = pieces.iter().map(|p| p.seconds).sum();
        assert_eq!(total, stop - start);
        for w in pieces.windows(2) {
            assert_eq!(w[1].bucket, w[0].bucket + 3600);
        }
        assert!(pieces.iter().all(|p| p.bucket % 3600 == 0 && 0 <= p.seconds && p.seconds <= 3600));
    }
}

#[test]
fn plan_merges_hours_and_sorts_them() {
    let entries = vec![
        interval(H10 + 2 * 3600 + 600, H10 + 3 * 3600 + 600), // 12:10 to 13:10
        interval(H10 + 5, H10 + 5),                           // no span
        interval(H10 + 1800, H10 + 2 * 3600 + 1200),          // 10:30 to 12:20
    ];
    let plan = hourly_plan(&entries);
    assert_eq!(plan.buckets, vec![H10, H10 + 3600, H10 + 7200, H10 + 10800]);
    let got: Vec<(usize, usize, i64, i64)> = plan
        .contributions
        .iter()
        .map(|c| (c.entry, c.bucket_index, c.seconds, c.total_seconds))
        .collect();
    assert_eq!(
        got,
        vec![
            (0, 2, 3000, 3600),
            (0, 3, 600, 3600),
            (2, 0, 1800, 6600),
            (2, 1, 3600, 6600),
            (2, 2, 1200, 6600),
        ]
    );
}

#[test]
fn plan_of_no_readings_is_empty() {
    let plan = hourly_plan(&Vec::new());
    assert!(plan.buckets.is_empty());
    assert!(plan.contributions.is_empty());
}

#[test]
fn plan_spreads_each_whole_second_reading_completely() {
    let entries = vec![
        interval(H10 + 17, H10 + 5 * 3600 + 3),
        interval(H10 + 3599, H10 + 3601),
        FlowInterval { start: ts(H10 + 10, 0), stop: ts(H10 + 7210, 900_000_000) },
    ];
    let plan = hourly_plan(&entries);
    for (i, _) in entries.iter().enumerate() {
        let mine: Vec<_> = plan.contributions.iter().filter(|c| c.entry == i).collect();
        let covered: i64 = mine.iter().map(|c| c.seconds).sum();
        assert!(!mine.is_empty());
        assert_eq!(covered, mine[0].total_seconds);
        let share: f64 = mine.iter().map(|c| c.seconds as f64 / c.total_seconds as f64).sum();
        assert!((share - 1.0).abs() < 1e-12);
    }
}
