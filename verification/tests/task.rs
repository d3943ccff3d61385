use std::cmp::Ordering;

use snerdmq::double::Double;
use snerdmq::task::{payload_hash, PriorityTask, RetryableTask};
use snerdmq::timestamp::{Timestamp, MAX_SECS};

fn at(secs: i64) -> Timestamp {
    Timestamp::new(secs, 0).unwrap()
}

fn double(value: f64) -> Double {
    Double { bits: value.to_bits() }
}

fn plain(id: &str, hours: f64, score: Option<f64>, now: Timestamp) -> RetryableTask {
    RetryableTask::new_at(
        id.to_string(), "type".to_string(), "data".to_string(), 3, double(hours), None, None, None,
        score.map(double), None, None, None, None, now,
    )
}

#[test]
fn new_task_has_its_fields() {
    let now = Timestamp::new(1_700_000_000, 42).unwrap();
    let task = RetryableTask::new_at(
        "req_9921".to_string(), "generate_llm_response".to_string(), "{}".to_string(), 5,
        double(0.5), Some("anthropic".to_string()), Some(50), Some(true), Some(double(0.95)),
        Some(at(1_800_000_000)), Some("0 0 * * * *".to_string()),
        Some("http://localhost/hook".to_string()), Some(30), now,
    );
    assert_eq!(task.task_id, "req_9921");
    assert_eq!(task.task_type, "generate_llm_response");
    assert_eq!(task.task_data, "{}");
    assert_eq!(task.retry_count, 0);
    assert_eq!(task.max_retries, 5);
    assert_eq!(task.retry_after_hours, double(0.5));
    assert_eq!(task.retry_after_time, now);
    assert_eq!(task.execute_at, at(1_800_000_000));
    assert_eq!(task.rate_limit_group.as_deref(), Some("anthropic"));
    assert_eq!(task.max_per_minute, Some(50));
    assert_eq!(task.auto_dedupe, Some(true));
    assert_eq!(task.urgency_score, Some(double(0.95)));
    assert_eq!(task.cron_expression.as_deref(), Some("0 0 * * * *"));
    assert_eq!(task.webhook_url.as_deref(), Some("http://localhost/hook"));
    assert_eq!(task.max_execution_seconds, Some(30));
    assert_eq!(task.payload_hash, Some(payload_hash("generate_llm_response", "{}")));
    assert!(task.last_error_obj.is_none() && task.last_job_error.is_none());
    assert!(task.deleted_at.is_none());
    assert_eq!((task.created_at, task.updated_at), (now, now));
}

#[test]
fn hash_is_carried_only_when_asked_for() {
    let with = |dedupe| {
        RetryableTask::new_at(
            "a".to_string(), "t".to_string(), "d".to_string(), 0, double(0.0), None, None, dedupe,
            None, None, None, None, None, at(0),
        )
        .payload_hash
    };
    assert_eq!(with(None), None);
    assert_eq!(with(Some(false)), None);
    assert_eq!(with(Some(true)), Some(payload_hash("t", "d")));
}

#[test]
fn payload_hashes_are_xxhash_in_hexadecimal() {
    assert_eq!(xxhash_rust::xxh64::xxh64(b"abc", 0), 0x44bc2cf5ad770999);
    let hash = |text: &str| format!("{:x}", xxhash_rust::xxh64::xxh64(text.as_bytes(), 0));
    assert_eq!(payload_hash("", ""), hash("0:"));
    assert_eq!(payload_hash("ab", "c"), hash("2:abc"));
    assert_eq!(payload_hash("a", "bc"), hash("1:abc"));
    assert_eq!(payload_hash("\u{e9}\u{e9}", "1:x"), hash("2:\u{e9}\u{e9}1:x"));
    assert_ne!(payload_hash("ab", "c"), payload_hash("a", "bc"));
    for i in 0..300 {
        let data = format!("pay\u{e9}load {}", i);
        let digest = xxhash_rust::xxh64::xxh64(format!("1:t{}", data).as_bytes(), 0);
        assert_eq!(payload_hash("t", &data), format!("{:x}", digest));
    }
}

#[test]
fn new_task_is_created_now() {
    let before = chrono::Utc::now();
    let task = RetryableTask::new(
        "a".to_string(), "t".to_string(), "d".to_string(), 0, double(0.0), None, None, None, None,
        None, None, None, None,
    );
    let after = chrono::Utc::now();
    let created =
        chrono::DateTime::<chrono::Utc>::from_timestamp(task.created_at.secs(), task.created_at.nanos())
            .unwrap();
    assert!(before <= created && created <= after);
    assert_eq!(task.execute_at, task.created_at);
    assert_eq!(task.retry_after_time, task.created_at);
}

#[test]
fn failure_sets_the_next_attempt() {
    let mut task = plain("a", 0.5, None, at(0));
    let now = Timestamp::new(1_700_000_000, 7).unwrap();
    assert!(task.update_retry_config_at(Some("boom".to_string()), now));
    assert_eq!(task.retry_count, 1);
    assert_eq!(task.retry_after_time, Timestamp::new(1_700_001_800, 7).unwrap());
    assert_eq!(task.last_error_obj.as_deref(), Some("boom"));
    let error = task.last_job_error.as_ref().unwrap();
    assert_eq!(error.error_string, "boom");
    assert!(error.retry_worthy);
    assert_eq!(task.updated_at, now);
    assert_eq!(task.created_at, at(0));
    assert!(!task.is_due(&at(1_700_001_800)));
    assert!(task.is_due(&at(1_700_001_801)));

    assert!(task.update_retry_config_at(None, at(1_700_002_000)));
    assert_eq!(task.retry_count, 2);
    assert!(task.last_error_obj.is_none() && task.last_job_error.is_none());
}

#[test]
fn failure_reads_the_clock() {
    let mut task = plain("a", 1.0, None, at(0));
    let before = chrono::Utc::now().timestamp();
    assert!(task.update_retry_config(Some("x".to_string())));
    let after = chrono::Utc::now().timestamp();
    assert!(before + 3600 <= task.retry_after_time.secs());
    assert!(task.retry_after_time.secs() <= after + 3600);

    let mut endless = plain("b", 1e300, None, at(0));
    assert!(!endless.update_retry_config(Some("x".to_string())));
    assert_eq!(endless.retry_count, 0);
    assert!(endless.last_error_obj.is_none());
}

#[test]
fn latest_possible_attempt() {
    let mut task = plain("a", 0.0, None, at(0));
    assert!(task.update_retry_config_at(None, at(MAX_SECS)));
    assert_eq!(task.retry_after_time, at(MAX_SECS));
    let mut late = plain("b", 1.0, None, at(0));
    assert!(late.update_retry_config_at(None, at(MAX_SECS - 3_600)));
    assert!(!late.update_retry_config_at(Some("x".to_string()), at(MAX_SECS - 3_599)));
    assert_eq!(late.retry_count, 1);
    assert!(late.last_error_obj.is_none());
}

#[test]
fn deletion_is_marked() {
    let mut task = plain("a", 0.0, None, at(0));
    task.mark_deleted_at(at(9));
    assert_eq!(task.deleted_at, Some(at(9)));
    assert_eq!(task.updated_at, at(9));

    let mut other = plain("b", 0.0, None, at(0));
    let before = chrono::Utc::now().timestamp();
    other.mark_deleted();
    assert!(other.deleted_at.unwrap().secs() >= before);
    assert_eq!(other.deleted_at.unwrap(), other.updated_at);
}

#[test]
fn tasks_are_ordered_by_score_and_equal_by_id() {
    let with = |id: &str, score| PriorityTask(plain(id, 0.0, score, at(0)));
    let high = with("a", Some(0.99));
    let low = with("b", Some(-1.0));
    let unset = with("a", None);
    let nan = with("c", Some(f64::NAN));
    assert_eq!(high.cmp(&low), Ordering::Greater);
    assert_eq!(low.cmp(&unset), Ordering::Less);
    assert_eq!(unset.cmp(&with("z", Some(0.0))), Ordering::Equal);
    assert_eq!(nan.cmp(&high), Ordering::Equal);
    assert_eq!(high.partial_cmp(&low), Some(Ordering::Greater));
    assert!(low < high);
    assert!(high.outranks(&low) && !low.outranks(&high) && !nan.outranks(&low));
    assert!(high == unset);
    assert!(high != low);
}
