//! What holds of tasks, times and scores, said of the fields themselves.

use std::cmp::Ordering;

use vstd::prelude::*;

use crate::task::RetryableTask;

verus! {

use crate::double::{times_3600, Double};
use crate::task::{
    payload_hash_of, payload_text, payload_texts_differ, text_of, time_of, views, TaskView,
    xxh64_digest,
};
use crate::text::{digit, numeral};
use crate::timestamp::{elapsed_seconds, Instant};
use vstd::arithmetic::power2::pow2;

/// The value of a task is what its fields hold, each of them.
pub proof fn task_value_is_its_fields(task: RetryableTask)
    ensures
        task@.task_id == task.task_id@,
        task@.retry_count == task.retry_count,
        task@.max_retries == task.max_retries,
        task@.retry_after_hours == task.retry_after_hours,
        task@.retry_after_time == task.retry_after_time@,
        task@.task_data == task.task_data@,
        task@.task_type == task.task_type@,
        task.last_error_obj is None <==> task@.last_error_obj is None,
        task.last_error_obj matches Some(text) ==> task@.last_error_obj == Some(text@),
        task.last_job_error is None <==> task@.last_job_error is None,
        task.last_job_error matches Some(error) ==> {
            &&& task@.last_job_error matches Some(value)
            &&& value.error_string == error.error_string@
            &&& value.retry_worthy == error.retry_worthy
        },
        task.rate_limit_group is None <==> task@.rate_limit_group is None,
        task.rate_limit_group matches Some(text) ==> task@.rate_limit_group == Some(text@),
        task@.max_per_minute == task.max_per_minute,
        task@.auto_dedupe == task.auto_dedupe,
        task@.urgency_score == task.urgency_score,
        task.payload_hash is None <==> task@.payload_hash is None,
        task.payload_hash matches Some(text) ==> task@.payload_hash == Some(text@),
        task@.execute_at == task.execute_at@,
        task.cron_expression is None <==> task@.cron_expression is None,
        task.cron_expression matches Some(text) ==> task@.cron_expression == Some(text@),
        task.webhook_url is None <==> task@.webhook_url is None,
        task.webhook_url matches Some(text) ==> task@.webhook_url == Some(text@),
        task@.max_execution_seconds == task.max_execution_seconds,
        task.deleted_at is None <==> task@.deleted_at is None,
        task.deleted_at matches Some(time) ==> task@.deleted_at == Some(time@),
        task@.created_at == task.created_at@,
        task@.updated_at == task.updated_at@,
{
}

/// The value of an optional text or time is what it holds, and the values of tasks are those of
/// each in its place.
pub proof fn optional_values_are_kept(
    text: Option<String>,
    time: Option<crate::timestamp::Timestamp>,
    tasks: Seq<RetryableTask>,
)
    ensures
        text is None <==> text_of(text) is None,
        text matches Some(t) ==> text_of(text) == Some(t@),
        time is None <==> time_of(time) is None,
        time matches Some(t) ==> time_of(time) == Some(t@),
        views(tasks).len() == tasks.len(),
        forall|i: int| 0 <= i < tasks.len() ==> views(tasks)[i] == (#[trigger] tasks[i])@,
{
}

/// The score that orders a task is its urgency score, whatever its other fields hold, and zero
/// where it has none. So tasks of one urgency score are ordered alike.
pub proof fn score_is_the_urgency_score(task: TaskView, other: TaskView)
    ensures
        forall|score: Double| task.urgency_score == Some(score) ==> #[trigger] task.score() == score,
        task.urgency_score is None ==> task.score().bits == 0,
        task.urgency_score == other.urgency_score ==> task.score() == other.score(),
{
}

/// Scores compare as the numbers that their bits stand for: greater bits are a greater number among
/// those without a sign, and a smaller one among those with a sign; these lie below the others, but
/// that the two zeros are equal. What is not a number compares with nothing.
pub proof fn scores_compare_as_numbers(a: Double, b: Double)
    ensures
        a.is_nan() <==> 0x7ff0_0000_0000_0000 < a.bits < 0x8000_0000_0000_0000 || a.bits
            > 0xfff0_0000_0000_0000,
        a.is_nan() || b.is_nan() ==> !a.less(b) && !b.less(a),
        !a.is_nan() && !b.is_nan() && a.bits < 0x8000_0000_0000_0000 && b.bits
            < 0x8000_0000_0000_0000 ==> (a.less(b) <==> a.bits < b.bits),
        !a.is_nan() && !b.is_nan() && a.bits >= 0x8000_0000_0000_0000 && b.bits
            >= 0x8000_0000_0000_0000 ==> (a.less(b) <==> a.bits > b.bits),
        !a.is_nan() && !b.is_nan() && a.bits >= 0x8000_0000_0000_0000 && b.bits
            < 0x8000_0000_0000_0000 ==> (a.less(b) <==> a.bits != 0x8000_0000_0000_0000 || b.bits
            != 0),
        !a.is_nan() && !b.is_nan() && a.bits < 0x8000_0000_0000_0000 && b.bits
            >= 0x8000_0000_0000_0000 ==> !a.less(b),
        !a.is_nan() && !b.is_nan() ==> (a.rank() == b.rank() <==> !a.less(b) && !b.less(a)),
        a.ordering(b) == Ordering::Less <==> a.less(b),
        a.ordering(b) == Ordering::Greater <==> b.less(a),
        a.ordering(b) == Ordering::Equal <==> !a.less(b) && !b.less(a),
{
}

/// The product with 3600 is the nearest number of 53 bits, and the even one of two that are equally
/// near.
pub proof fn product_is_rounded_to_nearest(significand: int)
    requires
        0x10_0000_0000_0000 <= significand < 0x20_0000_0000_0000,
    ensures
        ({
            let exact = 3600 * significand;
            let unit: int = if exact < 0x1_0000_0000_0000_0000 {
                0x800
            } else {
                0x1000
            };
            let product = times_3600(significand);
            &&& product % unit == 0
            &&& -unit <= 2 * (product - exact) <= unit
            &&& 2 * (product - exact) == unit || 2 * (product - exact) == -unit ==> (product / unit)
                % 2 == 0
        }),
{
    let exact = 3600 * significand;
    if exact < 0x1_0000_0000_0000_0000 {
        lemma_rounded(exact, 0x800);
    } else {
        lemma_rounded(exact, 0x1000);
    }
}

/// Rounding to a multiple of `unit`.
proof fn lemma_rounded(exact: int, unit: int)
    requires
        exact >= 0,
        unit == 0x800 || unit == 0x1000,
    ensures
        ({
            let quotient = exact / unit;
            let remainder = exact % unit;
            let product = if 2 * remainder > unit || (2 * remainder == unit && quotient % 2 == 1) {
                (quotient + 1) * unit
            } else {
                quotient * unit
            };
            &&& product % unit == 0
            &&& -unit <= 2 * (product - exact) <= unit
            &&& 2 * (product - exact) == unit || 2 * (product - exact) == -unit ==> (product / unit)
                % 2 == 0
        }),
{
    let quotient = exact / unit;
    vstd::arithmetic::div_mod::lemma_fundamental_div_mod(exact, unit);
    vstd::arithmetic::div_mod::lemma_mod_multiples_basic(quotient, unit);
    vstd::arithmetic::div_mod::lemma_mod_multiples_basic(quotient + 1, unit);
    vstd::arithmetic::div_mod::lemma_div_by_multiple(quotient, unit);
    vstd::arithmetic::div_mod::lemma_div_by_multiple(quotient + 1, unit);
    assert(quotient * unit == unit * quotient) by (nonlinear_arith);
    assert((quotient + 1) * unit == quotient * unit + unit) by (nonlinear_arith);
}

/// Hours are turned into seconds by value: the rounded product, cut to whole seconds, with the sign
/// of the hours and within the range of a 64-bit integer. What is not a number gives none.
pub proof fn hours_are_seconds_by_value(hours: Double)
    ensures
        hours.is_nan() ==> hours.hours_as_seconds() == 0,
        !hours.is_nan() && hours.bits < 0x8000_0000_0000_0000 ==> {
            let exponent = hours.bits as int / 0x10_0000_0000_0000;
            let significand = hours.bits as int % 0x10_0000_0000_0000 + 0x10_0000_0000_0000;
            let whole = times_3600(significand) / (pow2((1075 - exponent) as nat) as int);
            hours.hours_as_seconds() == if exponent == 0 {
                0
            } else if exponent >= 1075 || whole > 0x7fff_ffff_ffff_ffff {
                0x7fff_ffff_ffff_ffff
            } else {
                whole
            }
        },
        !hours.is_nan() && hours.bits >= 0x8000_0000_0000_0000 ==> {
            let size = (Double {
                bits: (hours.bits - 0x8000_0000_0000_0000) as u64,
            }).hours_as_seconds();
            &&& size != 0x7fff_ffff_ffff_ffff ==> hours.hours_as_seconds() == -size
            &&& size == 0x7fff_ffff_ffff_ffff ==> hours.hours_as_seconds() == -size
                || hours.hours_as_seconds() == -size - 1
        },
{
}

/// One point is at or before another exactly if it is no later on the line of nanoseconds, a leap
/// second lying within the second that it is written in.
pub proof fn points_lie_on_a_line(a: Instant, b: Instant)
    requires
        a.representable(),
        b.representable(),
    ensures
        a.at_or_before(b) <==> a.secs * 2_000_000_000 + a.nanos <= b.secs * 2_000_000_000 + b.nanos,
        a.before(b) <==> a.secs * 2_000_000_000 + a.nanos < b.secs * 2_000_000_000 + b.nanos,
{
}

/// Adding seconds moves a point by just so many, and can be done exactly if it leads to a point
/// of the calendar and does not start within a leap second.
pub proof fn seconds_are_added(point: Instant, seconds: int)
    ensures
        point.plus(seconds).secs == point.secs + seconds,
        point.plus(seconds).nanos == point.nanos,
        point.can_add(seconds) <==> point.nanos < 1_000_000_000 && -8_334_601_228_800 <= point.secs
            + seconds <= 8_210_266_876_799,
        point.representable() <==> -8_334_601_228_800 <= point.secs <= 8_210_266_876_799 && 0
            <= point.nanos < 2_000_000_000 && (point.nanos >= 1_000_000_000 ==> point.secs % 60
            == 59),
        point.is_clock_reading() <==> point.representable() && point.nanos < 1_000_000_000
            && point.secs >= 0,
{
}

/// Outside leap seconds, so many whole seconds have passed as fit between the two points.
pub proof fn elapsed_seconds_fit_between(later: Instant, earlier: Instant, n: int)
    requires
        0 <= later.nanos < 1_000_000_000,
        0 <= earlier.nanos < 1_000_000_000,
        n > 0,
    ensures
        elapsed_seconds(later, earlier) >= n <==> (later.secs - earlier.secs) * 1_000_000_000 + (
        later.nanos - earlier.nanos) >= n * 1_000_000_000,
{
    let total = (later.secs - earlier.secs) * 1_000_000_000 + (later.nanos - earlier.nanos);
    if total >= 0 {
        assert(total / 1_000_000_000 >= n <==> total >= n * 1_000_000_000);
    }
}

/// No two numbers have the same numeral.
pub proof fn numerals_differ(m: nat, n: nat, base: nat)
    requires
        2 <= base <= 16,
        numeral(m, base) == numeral(n, base),
    ensures
        m == n,
    decreases m,
{
    let a = numeral(m, base);
    let b = numeral(n, base);
    lemma_numeral_is_not_empty(m / base, base);
    lemma_numeral_is_not_empty(n / base, base);
    vstd::arithmetic::div_mod::lemma_fundamental_div_mod(m as int, base as int);
    vstd::arithmetic::div_mod::lemma_fundamental_div_mod(n as int, base as int);
    vstd::arithmetic::div_mod::lemma_mod_bound(m as int, base as int);
    vstd::arithmetic::div_mod::lemma_mod_bound(n as int, base as int);
    if m >= base {
        vstd::arithmetic::div_mod::lemma_div_decreases(m as int, base as int);
        assert(a.drop_last() =~= numeral(m / base, base));
        assert(a.last() == digit(m % base));
        if n >= base {
            assert(b.drop_last() =~= numeral(n / base, base));
            assert(b.last() == digit(n % base));
            numerals_differ(m / base, n / base, base);
            assert(digit(m % base) == digit(n % base));
        }
    } else {
        assert(a.last() == digit(m));
        if n < base {
            assert(b.last() == digit(n));
        }
    }
}

proof fn lemma_numeral_is_not_empty(n: nat, base: nat)
    ensures
        numeral(n, base).len() > 0,
{
}

/// The hash of a payload is the digest, with seed zero and in hexadecimal, of bytes that differ
/// wherever the payloads differ, be it in the type or in the data and in whatever place. So two
/// payloads that differ have one hash only if the digests of two different texts are the same.
pub proof fn payloads_that_differ_are_hashed_apart(
    task_type: Seq<char>,
    task_data: Seq<char>,
    other_type: Seq<char>,
    other_data: Seq<char>,
)
    requires
        task_type != other_type || task_data != other_data,
    ensures
        exists|bytes: Seq<u8>, other_bytes: Seq<u8>|
            {
                &&& bytes != other_bytes
                &&& payload_hash_of(task_type, task_data) == numeral(
                    #[trigger] xxh64_digest(bytes, 0) as nat,
                    16,
                )
                &&& payload_hash_of(other_type, other_data) == numeral(
                    #[trigger] xxh64_digest(other_bytes, 0) as nat,
                    16,
                )
                &&& payload_hash_of(task_type, task_data) == payload_hash_of(
                    other_type,
                    other_data,
                ) ==> xxh64_digest(bytes, 0) == xxh64_digest(other_bytes, 0)
            },
{
    let text = payload_text(task_type, task_data);
    let other = payload_text(other_type, other_data);
    if text == other {
        payload_texts_differ(task_type, task_data, other_type, other_data);
    }
    vstd::utf8::encode_utf8_decode_utf8(text);
    vstd::utf8::encode_utf8_decode_utf8(other);
    let bytes = vstd::utf8::encode_utf8(text);
    let other_bytes = vstd::utf8::encode_utf8(other);
    assert(bytes != other_bytes);
    let a = xxh64_digest(bytes, 0);
    let b = xxh64_digest(other_bytes, 0);
    if numeral(a as nat, 16) == numeral(b as nat, 16) {
        numerals_differ(a as nat, b as nat, 16);
    }
}

/// A failure counts one more retry, sets the time of the next attempt by the delay of the task,
/// keeps the error and the time of the failure, and changes nothing else.
pub proof fn failure_changes_only_the_attempt(task: TaskView, error: Option<Seq<char>>, now: Instant)
    ensures
        ({
            let after = task.failed(error, now);
            &&& after.retry_count == task.retry_count + 1
            &&& after.retry_after_time.secs == now.secs + task.retry_after_hours.hours_as_seconds()
            &&& after.retry_after_time.nanos == now.nanos
            &&& after.last_error_obj == error
            &&& error is None ==> after.last_job_error is None
            &&& error matches Some(message) ==> {
                &&& after.last_job_error matches Some(job_error)
                &&& job_error.error_string == message
                &&& job_error.retry_worthy
            }
            &&& after.updated_at == now
            &&& after.task_id == task.task_id
            &&& after.task_type == task.task_type
            &&& after.task_data == task.task_data
            &&& after.max_retries == task.max_retries
            &&& after.retry_after_hours == task.retry_after_hours
            &&& after.rate_limit_group == task.rate_limit_group
            &&& after.max_per_minute == task.max_per_minute
            &&& after.auto_dedupe == task.auto_dedupe
            &&& after.urgency_score == task.urgency_score
            &&& after.payload_hash == task.payload_hash
            &&& after.execute_at == task.execute_at
            &&& after.cron_expression == task.cron_expression
            &&& after.webhook_url == task.webhook_url
            &&& after.max_execution_seconds == task.max_execution_seconds
            &&& after.deleted_at == task.deleted_at
            &&& after.created_at == task.created_at
        }),
{
}

/// A deletion carries its time, and is else the record of the task that it deletes.
pub proof fn deletion_changes_only_its_time(task: TaskView, now: Instant)
    ensures
        task.deleted(now) == (TaskView { deleted_at: Some(now), updated_at: now, ..task }),
        task.is_deleted() <==> task.deleted_at is Some,
{
}

/// A task may run exactly from the later of its two times on.
pub proof fn task_is_due_from_its_later_time(task: TaskView, now: Instant)
    ensures
        task.is_due(now) <==> {
            &&& task.execute_at.secs < now.secs || task.execute_at.secs == now.secs
                && task.execute_at.nanos <= now.nanos
            &&& task.retry_after_time.secs < now.secs || task.retry_after_time.secs == now.secs
                && task.retry_after_time.nanos <= now.nanos
        },
{
}

} // verus!
