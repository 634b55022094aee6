use bazaar::time::{Duration, Time};
use chrono::{TimeZone, Timelike, Utc};

#[test]
fn durations_in_milliseconds() {
    assert_eq!(Duration::seconds(3).unwrap().millis, 3000);
    assert_eq!(Duration::minutes(1).unwrap().millis, 60_000);
    assert_eq!(Duration::hours(1).unwrap().millis, 3_600_000);
    assert_eq!(Duration::days(1).unwrap().millis, 86_400_000);
    assert_eq!(Duration::days(i64::MAX), None);
    assert_eq!(Duration::milliseconds(1500).num_seconds(), 1);
    assert_eq!(Duration::milliseconds(-1500).num_seconds(), -1);
    assert_eq!(Duration::milliseconds(i64::MIN).checked_neg(), None);
    assert_eq!(Duration::minutes(1).unwrap().checked_mul(2), Duration::minutes(2));
    assert_eq!(Duration::milliseconds(i64::MAX).checked_add(Duration::milliseconds(1)), None);
}

#[test]
fn instants_round_down_to_seconds_and_minutes() {
    assert_eq!(Time::from_millis(1500).timestamp(), 1);
    assert_eq!(Time::from_millis(-1500).timestamp(), -2);
    assert_eq!(Time::from_millis(-1000).timestamp(), -1);
    assert_eq!(Time::from_millis(0).minute(), 0);
    assert_eq!(Time::from_millis(59_999).minute(), 0);
    assert_eq!(Time::from_millis(60_000).minute(), 1);
    assert_eq!(Time::from_millis(-1).minute(), 59);
    assert_eq!(Time::from_millis(-3_600_000).minute(), 0);
    assert_eq!(Time::from_timestamp(2), Some(Time::from_millis(2000)));
    assert_eq!(Time::from_timestamp(i64::MAX), None);
}

#[test]
fn instants_agree_with_the_calendar() {
    for millis in [0i64, 1_609_459_200_000, 1_650_000_123_456, -86_400_001, 1_627_776_000_000] {
        let calendar = Utc.timestamp_millis_opt(millis).unwrap();
        let time = Time::from_millis(millis);
        assert_eq!(time.timestamp(), calendar.timestamp());
        assert_eq!(time.minute(), calendar.minute());
    }
}

#[test]
fn instant_arithmetic() {
    let t = Time::from_millis(1000);
    let d = Duration::milliseconds(250);
    assert_eq!(t.checked_add(d), Some(Time::from_millis(1250)));
    assert_eq!(t.checked_sub(d), Some(Time::from_millis(750)));
    assert_eq!(Time::from_millis(i64::MAX).checked_add(d), None);
    assert_eq!(Time::from_millis(i64::MIN).checked_sub(d), None);
    assert_eq!(t.signed_duration_since(Time::from_millis(4000)), Some(Duration::milliseconds(-3000)));
    assert_eq!(Time::from_millis(i64::MAX).signed_duration_since(Time::from_millis(-1)), None);
}

#[test]
fn instants_from_the_calendar() {
    assert_eq!(Time::from_ymd_hms(1970, 1, 1, 0, 0, 0), Some(Time::from_millis(0)));
    assert_eq!(Time::from_ymd_hms(2021, 1, 1, 0, 0, 0), Some(Time::from_millis(1_609_459_200_000)));
    assert_eq!(Time::from_ymd_hms(2021, 8, 1, 12, 30, 15), Some(Time::from_millis(1_627_821_015_000)));
    assert_eq!(Time::from_ymd_hms(2021, 2, 29, 0, 0, 0), None);
    assert_eq!(Time::from_ymd_hms(2021, 1, 1, 24, 0, 0), None);
    assert_eq!(Time::from_ymd_hms(1969, 12, 31, 23, 59, 59), Some(Time::from_millis(-1000)));
}
