use snerdmq::rate_limiter::{RateLimiter, RateTable, RateWindow};
use snerdmq::timestamp::Timestamp;

fn at(secs: i64) -> Timestamp {
    Timestamp::new(secs, 0).unwrap()
}

fn limiter() -> RateLimiter {
    RateLimiter::new(&Vec::new())
}

#[test]
fn group_is_granted_its_limit_in_a_window() {
    let limiter = limiter();
    let mut table = RateTable::new();
    let answers: Vec<bool> =
        (0..5).map(|i| limiter.check_and_increment_at(&mut table, "openai", 3, at(100 + i))).collect();
    assert_eq!(answers, vec![true, true, true, false, false]);
    assert_eq!(table.get("openai"), Some(&RateWindow { grants: vec![at(100), at(101), at(102)] }));
    // Each start counts for a minute.
    assert!(!limiter.check_and_increment_at(&mut table, "openai", 3, at(159)));
    assert!(limiter.check_and_increment_at(&mut table, "openai", 3, at(160)));
    assert!(!limiter.check_and_increment_at(&mut table, "openai", 3, at(160)));
    assert!(limiter.check_and_increment_at(&mut table, "openai", 3, at(161)));
    assert_eq!(table.get("openai"), Some(&RateWindow { grants: vec![at(102), at(160), at(161)] }));
}

#[test]
fn start_counts_for_sixty_whole_seconds() {
    let limiter = limiter();
    let mut table = RateTable::new();
    let start = Timestamp::new(100, 500_000_000).unwrap();
    assert!(limiter.check_and_increment_at(&mut table, "g", 1, start));
    let just_before = Timestamp::new(160, 499_999_999).unwrap();
    assert!(!limiter.check_and_increment_at(&mut table, "g", 1, just_before));
    let exactly = Timestamp::new(160, 500_000_000).unwrap();
    assert!(limiter.check_and_increment_at(&mut table, "g", 1, exactly));
    // A clock that went back takes no start off the count.
    assert!(!limiter.check_and_increment_at(&mut table, "g", 1, at(0)));
}

#[test]
fn leap_seconds_count_in_elapsed_time() {
    let limiter = limiter();
    for (start, now) in [
        ((1_483_228_799, 1_500_000_000), (1_483_228_859, 500_000_000)),
        ((1_483_228_799, 1_500_000_000), (1_483_228_860, 500_000_000)),
        ((1_483_228_739, 1_000_000_000), (1_483_228_799, 0)),
        ((1_483_228_739, 1_000_000_000), (1_483_228_798, 999_999_999)),
        ((1_483_228_740, 0), (1_483_228_799, 1_000_000_000)),
        ((1_483_228_739, 0), (1_483_228_799, 1_999_999_999)),
    ] {
        let chrono_at = |p: (i64, u32)| chrono::DateTime::<chrono::Utc>::from_timestamp(p.0, p.1).unwrap();
        let expired = (chrono_at(now) - chrono_at(start)).num_seconds() >= 60;
        let mut table = RateTable::new();
        table.insert("g", RateWindow { grants: vec![Timestamp::new(start.0, start.1).unwrap()] });
        let granted = limiter.check_and_increment_at(
            &mut table, "g", 1, Timestamp::new(now.0, now.1).unwrap(),
        );
        assert_eq!(granted, expired, "{:?} {:?}", start, now);
    }
}

#[test]
fn groups_do_not_share_windows() {
    let limiter = limiter();
    let mut table = RateTable::new();
    assert!(limiter.check_and_increment_at(&mut table, "a", 1, at(0)));
    assert!(limiter.check_and_increment_at(&mut table, "b", 1, at(1)));
    assert!(!limiter.check_and_increment_at(&mut table, "a", 1, at(2)));
    assert_eq!(table.entries().len(), 2);
    assert!(table.get("c").is_none());
}

#[test]
fn no_start_without_a_positive_limit() {
    let limiter = limiter();
    let mut table = RateTable::new();
    assert!(!limiter.check_and_increment_at(&mut table, "g", 0, at(5)));
    assert!(!limiter.check_and_increment_at(&mut table, "g", -3, at(5)));
    assert_eq!(table.get("g"), Some(&RateWindow { grants: vec![] }));
}

#[test]
fn no_minute_grants_more_than_the_limit() {
    let limiter = limiter();
    let mut table = RateTable::new();
    let answers: Vec<bool> = [0, 59, 60, 61, 118, 119, 119]
        .iter()
        .map(|s| limiter.check_and_increment_at(&mut table, "g", 2, at(*s)))
        .collect();
    assert_eq!(answers, vec![true, true, true, false, false, true, false]);

    let mut starts: Vec<i64> = Vec::new();
    for s in 0..600i64 {
        if limiter.check_and_increment_at(&mut table, "h", 5, at(s * 7 / 5)) {
            starts.push(s * 7 / 5);
        }
    }
    assert!(starts.len() >= 40);
    for first in &starts {
        assert!(starts.iter().filter(|s| first <= s && **s < first + 60).count() <= 5);
    }
}

#[test]
fn requests_read_the_clock() {
    let limiter = limiter();
    let mut table = RateTable::new();
    let before = chrono::Utc::now().timestamp();
    assert!(limiter.check_and_increment(&mut table, "g", 1));
    assert!(!limiter.check_and_increment(&mut table, "g", 1));
    let start = table.get("g").unwrap().grants[0].secs();
    assert!(before <= start && start <= chrono::Utc::now().timestamp());
    // Starts of long ago do not count.
    table.insert("g", RateWindow { grants: vec![at(0); 9] });
    assert!(limiter.check_and_increment(&mut table, "g", 1));
}
