use overnvr::time::{JsonDuration, Timestamp, LATEST_SECS, MAX_NANOS, MS};

#[test]
fn lengths_of_time_count_nanoseconds() {
    assert_eq!(JsonDuration::from_secs(2).as_nanos(), 2_000_000_000);
    assert_eq!(JsonDuration::from_millis(3).as_nanos(), 3_000_000);
    assert_eq!(JsonDuration::from_nanos(7).as_nanos(), 7);
    assert_eq!(JsonDuration::new(MAX_NANOS).as_nanos(), MAX_NANOS);
    assert_eq!(JsonDuration::default().as_nanos(), 0);
    assert_eq!(MS::from_number(1500).as_nanos(), 1_500_000_000);
}

#[test]
fn milliseconds_are_whole() {
    assert_eq!(JsonDuration::from_nanos(1_999_999).as_millis(), 1);
    assert_eq!(JsonDuration::from_secs(u64::MAX).as_millis(), 18_446_744_073_709_551_615_000);
}

#[test]
fn lengths_of_time_are_added_and_compared() {
    let two = JsonDuration::from_secs(2);
    let five = JsonDuration::from_secs(5);
    assert_eq!(two + five, JsonDuration::from_secs(7));
    assert_eq!(five - two, JsonDuration::from_secs(3));
    assert_eq!(five - five, JsonDuration::default());
    assert!(two < five);
    assert!(two <= two);
    assert!(!(five < two));
}

#[test]
fn points_in_time() {
    let a = Timestamp { secs: 10, nanos: 5 };
    let b = Timestamp { secs: 10, nanos: 6 };
    let c = Timestamp { secs: 11, nanos: 0 };
    assert!(b.after(&a));
    assert!(c.after(&b));
    assert!(!a.after(&a));
    assert!(!a.after(&c));
    assert_eq!(a.plus_secs(3), Timestamp { secs: 13, nanos: 5 });
    let late = Timestamp { secs: LATEST_SECS - 3, nanos: 0 };
    assert_eq!(late.plus_secs(3).secs, LATEST_SECS);
}
