use snerdmq::timestamp::{Timestamp, MAX_SECS, MIN_SECS};

#[test]
fn range_is_that_of_a_date_time() {
    type Utc = chrono::DateTime<chrono::Utc>;
    assert_eq!(MIN_SECS, Utc::MIN_UTC.timestamp());
    assert_eq!(MAX_SECS, Utc::MAX_UTC.timestamp());
    for secs in [
        i64::MIN, MIN_SECS - 1, MIN_SECS, MIN_SECS + 59, -61, -60, -1, 0, 58, 59, 60, 119,
        1_483_228_799, MAX_SECS - 1, MAX_SECS, MAX_SECS + 1, i64::MAX,
    ] {
        for nanos in [0, 999_999_999, 1_000_000_000, 1_999_999_999, 2_000_000_000, u32::MAX] {
            let known = chrono::DateTime::<chrono::Utc>::from_timestamp(secs, nanos);
            let built = Timestamp::new(secs, nanos);
            assert_eq!(built.is_some(), known.is_some(), "{} {}", secs, nanos);
            if let (Some(b), Some(k)) = (built, known) {
                assert_eq!(b.secs(), k.timestamp());
                assert_eq!(b.nanos(), k.timestamp_subsec_nanos());
            }
        }
    }
}

#[test]
fn order_is_that_of_date_times() {
    let points = [(-1, 5), (0, 0), (0, 7), (59, 1_500_000_000), (60, 0), (60, 1)];
    for a in points {
        for b in points {
            let ta = Timestamp::new(a.0, a.1).unwrap();
            let tb = Timestamp::new(b.0, b.1).unwrap();
            let ca = chrono::DateTime::<chrono::Utc>::from_timestamp(a.0, a.1).unwrap();
            let cb = chrono::DateTime::<chrono::Utc>::from_timestamp(b.0, b.1).unwrap();
            assert_eq!(ta.at_or_before(&tb), ca <= cb);
        }
    }
}

#[test]
fn sums_stay_within_the_calendar() {
    let now = Timestamp::new(1_700_000_000, 3).unwrap();
    assert!(now.can_add(60));
    assert!(now.can_add(MAX_SECS - 1_700_000_000));
    assert!(!now.can_add(MAX_SECS - 1_700_000_000 + 1));
    assert!(!now.can_add(i64::MAX));
    assert!(now.can_add(MIN_SECS - 1_700_000_000));
    assert!(!now.can_add(i64::MIN));
    assert!(!Timestamp::new(59, 1_000_000_000).unwrap().can_add(0));
}
