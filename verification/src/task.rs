//! The task record and its life: creation, failure, deletion, and the order of urgency.

use std::cmp::Ordering;

use vstd::prelude::*;

use crate::double::Double;
use crate::text::{decimal, lower_hex};
use crate::timestamp::{add_seconds, utc_now, Timestamp};

verus! {

use crate::text::{decimal_numerals_differ, numeral};
use crate::timestamp::Instant;

/// The 64-bit xxHash of `input` under `seed`.
pub uninterp spec fn xxh64_digest(input: Seq<u8>, seed: u64) -> u64;

/// `xxhash_rust::xxh64::xxh64`.
///
/// Trusted: the digest is determined by the bytes and the seed.
pub assume_specification[ xxhash_rust::xxh64::xxh64 ](input: &[u8], seed: u64) -> (digest: u64)
    ensures
        digest == xxh64_digest(input@, seed),
;

/// The text inside an optional string.
pub open spec fn text_of(text: Option<String>) -> Option<Seq<char>> {
    match text {
        Some(t) => Some(t@),
        None => None,
    }
}

/// The point held by an optional timestamp.
pub open spec fn time_of(time: Option<Timestamp>) -> Option<Instant> {
    match time {
        Some(t) => Some(t@),
        None => None,
    }
}

/// Copies an optional string.
pub fn copy_text(text: &Option<String>) -> (copy: Option<String>)
    ensures
        text_of(copy) == text_of(*text),
{
    match text {
        Some(t) => Some(t.clone()),
        None => None,
    }
}

/// What the last failure of a task reported.
#[derive(Debug)]
pub struct JobErrorReturn {
    pub error_string: String,
    pub retry_worthy: bool,
}

/// The value of a [`JobErrorReturn`].
pub struct JobErrorView {
    pub error_string: Seq<char>,
    pub retry_worthy: bool,
}

impl View for JobErrorReturn {
    type V = JobErrorView;

    open spec fn view(&self) -> JobErrorView {
        JobErrorView { error_string: self.error_string@, retry_worthy: self.retry_worthy }
    }
}

impl Clone for JobErrorReturn {
    fn clone(&self) -> (copy: Self)
        ensures
            copy@ == self@,
    {
        JobErrorReturn { error_string: self.error_string.clone(), retry_worthy: self.retry_worthy }
    }
}

/// A task as the queue keeps and persists it.
#[derive(Debug)]
pub struct RetryableTask {
    pub task_id: String,
    pub retry_count: i32,
    pub max_retries: i32,
    pub retry_after_hours: Double,
    pub retry_after_time: Timestamp,
    pub task_data: String,
    pub task_type: String,
    pub last_error_obj: Option<String>,
    pub last_job_error: Option<JobErrorReturn>,
    pub rate_limit_group: Option<String>,
    pub max_per_minute: Option<i32>,
    pub auto_dedupe: Option<bool>,
    pub urgency_score: Option<Double>,
    pub payload_hash: Option<String>,
    pub execute_at: Timestamp,
    pub cron_expression: Option<String>,
    pub webhook_url: Option<String>,
    pub max_execution_seconds: Option<u64>,
    pub deleted_at: Option<Timestamp>,
    pub created_at: Timestamp,
    pub updated_at: Timestamp,
}

/// The value of a [`RetryableTask`].
pub struct TaskView {
    pub task_id: Seq<char>,
    pub retry_count: int,
    pub max_retries: int,
    pub retry_after_hours: Double,
    pub retry_after_time: Instant,
    pub task_data: Seq<char>,
    pub task_type: Seq<char>,
    pub last_error_obj: Option<Seq<char>>,
    pub last_job_error: Option<JobErrorView>,
    pub rate_limit_group: Option<Seq<char>>,
    pub max_per_minute: Option<i32>,
    pub auto_dedupe: Option<bool>,
    pub urgency_score: Option<Double>,
    pub payload_hash: Option<Seq<char>>,
    pub execute_at: Instant,
    pub cron_expression: Option<Seq<char>>,
    pub webhook_url: Option<Seq<char>>,
    pub max_execution_seconds: Option<u64>,
    pub deleted_at: Option<Instant>,
    pub created_at: Instant,
    pub updated_at: Instant,
}

impl View for RetryableTask {
    type V = TaskView;

    open spec fn view(&self) -> TaskView {
        TaskView {
            task_id: self.task_id@,
            retry_count: self.retry_count as int,
            max_retries: self.max_retries as int,
            retry_after_hours: self.retry_after_hours,
            retry_after_time: self.retry_after_time@,
            task_data: self.task_data@,
            task_type: self.task_type@,
            last_error_obj: text_of(self.last_error_obj),
            last_job_error: match self.last_job_error {
                Some(e) => Some(e@),
                None => None,
            },
            rate_limit_group: text_of(self.rate_limit_group),
            max_per_minute: self.max_per_minute,
            auto_dedupe: self.auto_dedupe,
            urgency_score: self.urgency_score,
            payload_hash: text_of(self.payload_hash),
            execute_at: self.execute_at@,
            cron_expression: text_of(self.cron_expression),
            webhook_url: text_of(self.webhook_url),
            max_execution_seconds: self.max_execution_seconds,
            deleted_at: time_of(self.deleted_at),
            created_at: self.created_at@,
            updated_at: self.updated_at@,
        }
    }
}

/// The values of a sequence of tasks.
pub open spec fn views(tasks: Seq<RetryableTask>) -> Seq<TaskView> {
    tasks.map_values(|t: RetryableTask| t@)
}

/// The text that is hashed for a payload: the length of the type, a colon, the type and the data.
pub open spec fn payload_text(task_type: Seq<char>, task_data: Seq<char>) -> Seq<char> {
    numeral(task_type.len(), 10) + seq![':'] + task_type + task_data
}

/// The hash that identifies a payload: the xxHash of its text, in hexadecimal.
///
/// Payloads that differ have different texts. Their digests of 64 bits may still be the same, as
/// of any two texts.
pub open spec fn payload_hash_of(task_type: Seq<char>, task_data: Seq<char>) -> Seq<char> {
    numeral(
        xxh64_digest(vstd::utf8::encode_utf8(payload_text(task_type, task_data)), 0) as nat,
        16,
    )
}

/// Payloads that differ, in type or in data, have different texts: wherever the one ends and the
/// other begins, they are not confused.
pub proof fn payload_texts_differ(
    task_type: Seq<char>,
    task_data: Seq<char>,
    other_type: Seq<char>,
    other_data: Seq<char>,
)
    requires
        payload_text(task_type, task_data) == payload_text(other_type, other_data),
    ensures
        task_type == other_type,
        task_data == other_data,
{
    let a = numeral(task_type.len(), 10);
    let b = numeral(other_type.len(), 10);
    let text = payload_text(task_type, task_data);
    let other = payload_text(other_type, other_data);
    decimal_numerals_differ(task_type.len(), other_type.len());
    decimal_numerals_differ(other_type.len(), task_type.len());
    assert(text[a.len() as int] == ':');
    assert(other[b.len() as int] == ':');
    if a.len() < b.len() {
        assert(other[a.len() as int] == b[a.len() as int]);
    } else if b.len() < a.len() {
        assert(text[b.len() as int] == a[b.len() as int]);
    }
    assert(a =~= b) by {
        assert forall|i: int| 0 <= i < a.len() implies a[i] == b[i] by {
            assert(text[i] == a[i]);
            assert(other[i] == b[i]);
        }
    }
    let start = a.len() + 1;
    let end = start + task_type.len();
    assert(task_type =~= text.subrange(start as int, end as int));
    assert(other_type =~= other.subrange(start as int, end as int));
    assert(task_data =~= text.subrange(end as int, text.len() as int));
    assert(other_data =~= other.subrange(end as int, other.len() as int));
}

impl TaskView {
    /// The score that orders the task: its own, or zero.
    pub open spec fn score(self) -> Double {
        match self.urgency_score {
            Some(score) => score,
            None => Double { bits: 0 },
        }
    }

    /// Whether the record stands for a deletion.
    pub open spec fn is_deleted(self) -> bool {
        self.deleted_at is Some
    }

    /// Whether the task may run at `now`.
    pub open spec fn is_due(self, now: Instant) -> bool {
        self.execute_at.at_or_before(now) && self.retry_after_time.at_or_before(now)
    }

    /// The record that deletes the task at `now`.
    pub open spec fn deleted(self, now: Instant) -> TaskView {
        TaskView { deleted_at: Some(now), updated_at: now, ..self }
    }

    /// The task after a failure at `now` that is to be tried again.
    pub open spec fn failed(self, error: Option<Seq<char>>, now: Instant) -> TaskView {
        TaskView {
            retry_count: self.retry_count + 1,
            retry_after_time: now.plus(self.retry_after_hours.hours_as_seconds()),
            last_error_obj: error,
            last_job_error: match error {
                Some(message) => Some(JobErrorView { error_string: message, retry_worthy: true }),
                None => None,
            },
            updated_at: now,
            ..self
        }
    }
}

/// The payload hash in hexadecimal.
pub fn payload_hash(task_type: &str, task_data: &str) -> (hash: String)
    ensures
        hash@ == payload_hash_of(task_type@, task_data@),
{
    let mut combined = decimal(task_type.unicode_len() as u64);
    combined.append(":");
    combined.append(task_type);
    combined.append(task_data);
    proof {
        reveal_strlit(":");
        assert(":"@ =~= seq![':']);
    }
    lower_hex(xxhash_rust::xxh64::xxh64(combined.as_str().as_bytes(), 0))
}

impl Clone for RetryableTask {
    fn clone(&self) -> (copy: Self)
        ensures
            copy@ == self@,
    {
        RetryableTask {
            task_id: self.task_id.clone(),
            retry_count: self.retry_count,
            max_retries: self.max_retries,
            retry_after_hours: self.retry_after_hours,
            retry_after_time: self.retry_after_time,
            task_data: self.task_data.clone(),
            task_type: self.task_type.clone(),
            last_error_obj: copy_text(&self.last_error_obj),
            last_job_error: match &self.last_job_error {
                Some(e) => Some(e.clone()),
                None => None,
            },
            rate_limit_group: copy_text(&self.rate_limit_group),
            max_per_minute: self.max_per_minute,
            auto_dedupe: self.auto_dedupe,
            urgency_score: self.urgency_score,
            payload_hash: copy_text(&self.payload_hash),
            execute_at: self.execute_at,
            cron_expression: copy_text(&self.cron_expression),
            webhook_url: copy_text(&self.webhook_url),
            max_execution_seconds: self.max_execution_seconds,
            deleted_at: self.deleted_at,
            created_at: self.created_at,
            updated_at: self.updated_at,
        }
    }
}

impl RetryableTask {
    /// A new task, created now.
    pub fn new(
        task_id: String,
        task_type: String,
        task_data: String,
        max_retries: i32,
        retry_after_hours: Double,
        rate_limit_group: Option<String>,
        max_per_minute: Option<i32>,
        auto_dedupe: Option<bool>,
        urgency_score: Option<Double>,
        execute_at: Option<Timestamp>,
        cron: Option<String>,
        webhook_url: Option<String>,
        max_execution_seconds: Option<u64>,
    ) -> (task: RetryableTask)
        ensures
            task@.created_at.is_clock_reading(),
            task@ == (TaskView {
                task_id: task_id@,
                retry_count: 0,
                max_retries: max_retries as int,
                retry_after_hours,
                retry_after_time: task@.created_at,
                task_data: task_data@,
                task_type: task_type@,
                last_error_obj: None,
                last_job_error: None,
                rate_limit_group: text_of(rate_limit_group),
                max_per_minute,
                auto_dedupe,
                urgency_score,
                payload_hash: if auto_dedupe == Some(true) {
                    Some(payload_hash_of(task_type@, task_data@))
                } else {
                    None
                },
                execute_at: match execute_at {
                    Some(t) => t@,
                    None => task@.created_at,
                },
                cron_expression: text_of(cron),
                webhook_url: text_of(webhook_url),
                max_execution_seconds,
                deleted_at: None,
                created_at: task@.created_at,
                updated_at: task@.created_at,
            }),
    {
        let now = utc_now();
        RetryableTask::new_at(
            task_id,
            task_type,
            task_data,
            max_retries,
            retry_after_hours,
            rate_limit_group,
            max_per_minute,
            auto_dedupe,
            urgency_score,
            execute_at,
            cron,
            webhook_url,
            max_execution_seconds,
            now,
        )
    }

    /// A new task, created at `now`. It may run at `execute_at`, or at once where none is given.
    ///
    /// With `auto_dedupe` set it carries the hash of its payload.
    pub fn new_at(
        task_id: String,
        task_type: String,
        task_data: String,
        max_retries: i32,
        retry_after_hours: Double,
        rate_limit_group: Option<String>,
        max_per_minute: Option<i32>,
        auto_dedupe: Option<bool>,
        urgency_score: Option<Double>,
        execute_at: Option<Timestamp>,
        cron: Option<String>,
        webhook_url: Option<String>,
        max_execution_seconds: Option<u64>,
        now: Timestamp,
    ) -> (task: RetryableTask)
        ensures
            task@ == (TaskView {
                task_id: task_id@,
                retry_count: 0,
                max_retries: max_retries as int,
                retry_after_hours,
                retry_after_time: now@,
                task_data: task_data@,
                task_type: task_type@,
                last_error_obj: None,
                last_job_error: None,
                rate_limit_group: text_of(rate_limit_group),
                max_per_minute,
                auto_dedupe,
                urgency_score,
                payload_hash: if auto_dedupe == Some(true) {
                    Some(payload_hash_of(task_type@, task_data@))
                } else {
                    None
                },
                execute_at: match execute_at {
                    Some(t) => t@,
                    None => now@,
                },
                cron_expression: text_of(cron),
                webhook_url: text_of(webhook_url),
                max_execution_seconds,
                deleted_at: None,
                created_at: now@,
                updated_at: now@,
            }),
    {
        let dedupe = match auto_dedupe {
            Some(wanted) => wanted,
            None => false,
        };
        let payload_hash = if dedupe {
            Some(payload_hash(task_type.as_str(), task_data.as_str()))
        } else {
            None
        };
        let first_run = match execute_at {
            Some(time) => time,
            None => now,
        };
        RetryableTask {
            task_id,
            retry_count: 0,
            max_retries,
            retry_after_hours,
            retry_after_time: now,
            task_data,
            task_type,
            last_error_obj: None,
            last_job_error: None,
            rate_limit_group,
            max_per_minute,
            auto_dedupe,
            urgency_score,
            payload_hash,
            execute_at: first_run,
            cron_expression: cron,
            webhook_url,
            max_execution_seconds,
            deleted_at: None,
            created_at: now,
            updated_at: now,
        }
    }

    /// Turns the record into its own deletion, made now.
    pub fn mark_deleted(&mut self)
        ensures
            final(self)@.updated_at.is_clock_reading(),
            final(self)@ == old(self)@.deleted(final(self)@.updated_at),
    {
        let now = utc_now();
        self.mark_deleted_at(now);
    }

    /// Turns the record into its own deletion, made at `now`.
    pub fn mark_deleted_at(&mut self, now: Timestamp)
        ensures
            final(self)@ == old(self)@.deleted(now@),
    {
        self.deleted_at = Some(now);
        self.updated_at = now;
    }

    /// Records a failure now and sets the time of the next attempt.
    ///
    /// Where that time lies beyond the calendar nothing changes and the result is `false`.
    pub fn update_retry_config(&mut self, error_msg: Option<String>) -> (updated: bool)
        requires
            old(self).retry_count < i32::MAX,
        ensures
            exists|now: Instant|
                {
                    &&& now.is_clock_reading()
                    &&& updated == #[trigger] now.can_add(
                        old(self)@.retry_after_hours.hours_as_seconds(),
                    )
                    &&& final(self)@ == if updated {
                        old(self)@.failed(text_of(error_msg), now)
                    } else {
                        old(self)@
                    }
                },
    {
        let now = utc_now();
        let updated = self.update_retry_config_at(error_msg, now);
        assert(updated == now@.can_add(old(self)@.retry_after_hours.hours_as_seconds()));
        updated
    }

    /// Records a failure at `now` and sets the time of the next attempt.
    ///
    /// Where that time lies beyond the calendar nothing changes and the result is `false`.
    pub fn update_retry_config_at(&mut self, error_msg: Option<String>, now: Timestamp) -> (updated:
        bool)
        requires
            old(self).retry_count < i32::MAX,
        ensures
            updated == now@.can_add(old(self)@.retry_after_hours.hours_as_seconds()),
            final(self)@ == if updated {
                old(self)@.failed(text_of(error_msg), now@)
            } else {
                old(self)@
            },
    {
        let delay: i64 = self.retry_after_hours.seconds();
        if !now.can_add(delay) {
            return false;
        }
        self.retry_count = self.retry_count + 1;
        self.retry_after_time = add_seconds(now, delay);
        self.last_error_obj = copy_text(&error_msg);
        self.last_job_error = match error_msg {
            Some(message) => Some(JobErrorReturn { error_string: message, retry_worthy: true }),
            None => None,
        };
        self.updated_at = now;
        true
    }

    /// Whether the task may run at `now`.
    pub fn is_due(&self, now: &Timestamp) -> (due: bool)
        ensures
            due == self@.is_due(now@),
    {
        self.execute_at.at_or_before(now) && self.retry_after_time.at_or_before(now)
    }
}

/// A task in the order of urgency: tasks are equal by id and ordered by score.
pub struct PriorityTask(pub RetryableTask);

impl View for PriorityTask {
    type V = TaskView;

    open spec fn view(&self) -> TaskView {
        self.0@
    }
}

impl Clone for PriorityTask {
    fn clone(&self) -> (copy: Self)
        ensures
            copy@ == self@,
    {
        PriorityTask(self.0.clone())
    }
}

impl PartialEq for PriorityTask {
    fn eq(&self, other: &Self) -> (r: bool) {
        self.0.task_id == other.0.task_id
    }
}

impl vstd::std_specs::cmp::PartialEqSpecImpl for PriorityTask {
    open spec fn obeys_eq_spec() -> bool {
        true
    }

    open spec fn eq_spec(&self, other: &Self) -> bool {
        self@.task_id == other@.task_id
    }
}

impl Eq for PriorityTask {

}

impl PartialOrd for PriorityTask {
    fn partial_cmp(&self, other: &Self) -> (r: Option<Ordering>) {
        Some(self.cmp(other))
    }
}

impl vstd::std_specs::cmp::PartialOrdSpecImpl for PriorityTask {
    open spec fn obeys_partial_cmp_spec() -> bool {
        true
    }

    open spec fn partial_cmp_spec(&self, other: &Self) -> Option<Ordering> {
        Some(self@.score().ordering(other@.score()))
    }
}

impl PriorityTask {
    /// Compares by score; a task without one scores zero.
    pub fn cmp(&self, other: &Self) -> (ordering: Ordering)
        ensures
            ordering == self@.score().ordering(other@.score()),
    {
        let mine = match self.0.urgency_score {
            Some(score) => score,
            None => Double::zero(),
        };
        let theirs = match other.0.urgency_score {
            Some(score) => score,
            None => Double::zero(),
        };
        mine.compare(&theirs)
    }

    /// Whether the score is greater than that of `other`.
    pub fn outranks(&self, other: &Self) -> (r: bool)
        ensures
            r == other@.score().less(self@.score()),
    {
        match self.cmp(other) {
            Ordering::Greater => true,
            Ordering::Less => false,
            Ordering::Equal => false,
        }
    }
}

} // verus!
