use chrono::{DateTime, TimeZone, Utc};
use sensor_api::time::{
    truncate_to_hour, whole_seconds_between, Timestamp, LAST_HOUR_START_SECS, MAX_UTC_SECS,
    MIN_UTC_SECS,
};

fn ts(secs: i64, nanos: u32) -> Timestamp {
    Timestamp::from_unix(secs, nanos).expect("valid instant")
}

#[test]
fn from_unix_accepts_the_range_of_chrono() {
    assert!(Timestamp::from_unix(MIN_UTC_SECS, 0).is_some());
    assert!(Timestamp::from_unix(MAX_UTC_SECS, 999_999_999).is_some());
    assert!(Timestamp::from_unix(MIN_UTC_SECS - 1, 0).is_none());
    assert!(Timestamp::from_unix(MAX_UTC_SECS + 1, 0).is_none());
    assert!(Timestamp::from_unix(0, 1_000_000_000).is_none());
    assert_eq!(Timestamp::from_unix(1_700_000_000, 5), Some(Timestamp { secs: 1_700_000_000, nanos: 5 }));
}

#[test]
fn range_constants_match_chrono() {
    assert_eq!(DateTime::<Utc>::MIN_UTC.timestamp(), MIN_UTC_SECS);
    assert_eq!(DateTime::<Utc>::MAX_UTC.timestamp(), MAX_UTC_SECS);
    assert_eq!(LAST_HOUR_START_SECS % 3600, 0);
    assert!(LAST_HOUR_START_SECS <= MAX_UTC_SECS && MAX_UTC_SECS < LAST_HOUR_START_SECS + 3600);
}

#[test]
fn truncate_to_hour_clears_minutes_and_below() {
    // 2024-05-01T10:42:17.5Z
    let t = ts(1_714_560_137, 500_000_000);
    let h = truncate_to_hour(t);
    assert_eq!(h, Timestamp { secs: 1_714_557_600, nanos: 0 });
    let expected = Utc.timestamp_opt(1_714_560_137, 0).unwrap();
    assert_eq!(Utc.timestamp_opt(h.secs, 0).unwrap(), expected - chrono::Duration::seconds(42 * 60 + 17));
}

#[test]
fn truncate_to_hour_before_the_epoch() {
    assert_eq!(truncate_to_hour(ts(-1, 0)), Timestamp { secs: -3600, nanos: 0 });
    assert_eq!(truncate_to_hour(ts(-3600, 7)), Timestamp { secs: -3600, nanos: 0 });
    assert_eq!(truncate_to_hour(ts(3599, 999_999_999)), Timestamp { secs: 0, nanos: 0 });
}

#[test]
fn whole_seconds_between_counts_like_chrono() {
    let a = ts(100, 700_000_000);
    let b = ts(103, 200_000_000);
    let chrono_a = DateTime::from_timestamp(100, 700_000_000).unwrap();
    let chrono_b = DateTime::from_timestamp(103, 200_000_000).unwrap();
    assert_eq!(whole_seconds_between(a, b), (chrono_b - chrono_a).num_seconds());
    assert_eq!(whole_seconds_between(a, b), 2);
    assert_eq!(whole_seconds_between(a, a), 0);
}

#[test]
fn is_before_orders_instants() {
    assert!(ts(5, 1).is_before(&ts(5, 2)));
    assert!(ts(4, 999).is_before(&ts(5, 0)));
    assert!(!ts(5, 0).is_before(&ts(5, 0)));
}
