//! What holds of tasks that are taken in and started, said of what they hold and of who executes.

use std::cmp::Ordering;

use vstd::prelude::*;

use crate::task::PriorityTask;

verus! {

use crate::double::Double;
use crate::queue::{
    after_batch, are_batch_steps, due_tasks, goes_first, is_batch, is_batch_step, payloads_of,
    with_payload_of, BatchStep, QueueView, StartStep, StartStepView,
};
use crate::task::{payload_hash_of, xxh64_digest, TaskView};
use crate::task_laws::payloads_that_differ_are_hashed_apart;
use crate::text::numeral;
use crate::timestamp::Instant;
use vstd::std_specs::cmp::{PartialEqSpec, PartialOrdSpec};

/// The due tasks are those, in their order, whose two times are over and that are not deleted.
pub proof fn due_tasks_are_those_whose_time_is_over(tasks: Seq<TaskView>, now: Instant)
    ensures
        due_tasks(tasks, now) == tasks.filter(
            |t: TaskView|
                {
                    &&& t.execute_at.secs < now.secs || t.execute_at.secs == now.secs
                        && t.execute_at.nanos <= now.nanos
                    &&& t.retry_after_time.secs < now.secs || t.retry_after_time.secs == now.secs
                        && t.retry_after_time.nanos <= now.nanos
                    &&& t.deleted_at is None
                },
        ),
{
    let wanted = |t: TaskView|
        {
            &&& t.execute_at.secs < now.secs || t.execute_at.secs == now.secs && t.execute_at.nanos
                <= now.nanos
            &&& t.retry_after_time.secs < now.secs || t.retry_after_time.secs == now.secs
                && t.retry_after_time.nanos <= now.nanos
            &&& t.deleted_at is None
        };
    assert(wanted =~= (|t: TaskView| t.is_due(now) && !t.is_deleted()));
}

/// A batch is as many of the due tasks as there are workers for, each once. No task stands before
/// another, or is taken while another is left out, whose urgency score is greater; a task without a
/// score counts as zero.
pub proof fn batch_is_ordered_by_urgency_score(
    due: Seq<TaskView>,
    available: nat,
    batch: Seq<TaskView>,
    picks: Seq<int>,
)
    requires
        is_batch(due, available, batch, picks),
    ensures
        available <= due.len() ==> batch.len() == available,
        due.len() <= available ==> batch.len() == due.len(),
        picks.len() == batch.len(),
        forall|i: int|
            0 <= i < batch.len() ==> 0 <= picks[i] < due.len() && #[trigger] batch[i]
                == due[picks[i]],
        forall|i: int, j: int|
            0 <= i < j < picks.len() ==> #[trigger] picks[i] != #[trigger] picks[j],
        forall|i: int, j: int|
            0 <= i < j < batch.len() ==> !is_more_urgent(#[trigger] batch[j], #[trigger] batch[i]),
        forall|i: int, q: int|
            0 <= i < batch.len() && 0 <= q < due.len() && !picks.contains(q) ==> !is_more_urgent(
                #[trigger] due[q],
                #[trigger] batch[i],
            ),
{
    assert forall|i: int| 0 <= i < batch.len() implies 0 <= picks[i] < due.len()
        && #[trigger] batch[i] == due[picks[i]] by {
        assert(0 <= picks[i] < due.len());
    }
    assert forall|i: int, j: int| 0 <= i < j < batch.len() implies !is_more_urgent(
        #[trigger] batch[j],
        #[trigger] batch[i],
    ) by {
        assert(picks[i] != picks[j]);
        assert(batch[i] == due[picks[i]] && batch[j] == due[picks[j]]);
        assert(goes_first(due, picks[i], picks[j]));
    }
    assert forall|i: int, q: int|
        0 <= i < batch.len() && 0 <= q < due.len() && !picks.contains(q) implies !is_more_urgent(
        #[trigger] due[q],
        #[trigger] batch[i],
    ) by {
        assert(batch[i] == due[picks[i]]);
        assert(goes_first(due, picks[i], q));
    }
}

/// Whether the urgency score of `a` is greater than that of `b`, none being zero.
pub open spec fn is_more_urgent(a: TaskView, b: TaskView) -> bool {
    match (a.urgency_score, b.urgency_score) {
        (Some(score), Some(other)) => other.less(score),
        (Some(score), None) => (Double { bits: 0 }).less(score),
        (None, Some(other)) => other.less(Double { bits: 0 }),
        (None, None) => false,
    }
}

/// A task is more urgent than another by their urgency scores alone, whatever else they hold.
pub proof fn urgency_is_that_of_the_score(
    a: TaskView,
    b: TaskView,
    score: Double,
    other: Double,
)
    ensures
        a.urgency_score == Some(score) && b.urgency_score == Some(other) ==> (is_more_urgent(a, b)
            <==> other.less(score)),
        a.urgency_score == Some(score) && b.urgency_score is None ==> (is_more_urgent(a, b)
            <==> (Double { bits: 0 }).less(score)),
        a.urgency_score is None && b.urgency_score == Some(other) ==> (is_more_urgent(a, b)
            <==> other.less(Double { bits: 0 })),
        a.urgency_score is None && b.urgency_score is None ==> !is_more_urgent(a, b),
        is_more_urgent(a, b) <==> b.score().less(a.score()),
{
}

/// Prioritised tasks are equal by id and ordered by urgency score.
pub proof fn priority_is_by_urgency_score(a: PriorityTask, b: PriorityTask)
    ensures
        a.eq_spec(&b) <==> a.0.task_id@ == b.0.task_id@,
        a.partial_cmp_spec(&b) == Some(Ordering::Less) <==> is_more_urgent(b.0@, a.0@),
        a.partial_cmp_spec(&b) == Some(Ordering::Greater) <==> is_more_urgent(a.0@, b.0@),
        a.partial_cmp_spec(&b) == Some(Ordering::Equal) <==> !is_more_urgent(a.0@, b.0@)
            && !is_more_urgent(b.0@, a.0@),
{
}

/// The value of a step is what it holds.
pub proof fn step_value_is_the_step(step: StartStep)
    ensures
        step is Wait <==> step@ is Wait,
        step is Start <==> step@ is Start,
        step matches StartStep::AskLimiter { group, limit } ==> step@ == (
        StartStepView::AskLimiter { group: group@, limit }),
{
}

/// A task is a duplicate exactly if it carries a payload hash that a task on its way into the store
/// or a task in the store has.
pub proof fn duplicate_is_of_a_payload_in_the_queue(queue: QueueView, task: TaskView)
    ensures
        queue.is_duplicate(task) <==> task.payload_hash is Some && (queue.incoming_payloads.contains(
            task.payload_hash.unwrap(),
        ) || exists|id: Seq<char>| #[trigger]
            queue.stored_payloads.contains_key(id) && queue.stored_payloads[id]
                == task.payload_hash.unwrap()),
{
    if task.payload_hash is Some {
        let hash = task.payload_hash.unwrap();
        if queue.stored_payloads.contains_value(hash) {
            let id = choose|id: Seq<char>| #[trigger]
                queue.stored_payloads.dom().contains(id) && queue.stored_payloads[id] == hash;
            assert(queue.stored_payloads.contains_key(id));
        }
        if exists|id: Seq<char>| #[trigger]
            queue.stored_payloads.contains_key(id) && queue.stored_payloads[id] == hash {
            let id = choose|id: Seq<char>| #[trigger]
                queue.stored_payloads.contains_key(id) && queue.stored_payloads[id] == hash;
            assert(queue.stored_payloads.dom().contains(id));
        }
    }
}

/// A task that is on its way, or is so no more, changes the payloads on their way by its own, and
/// nothing else.
pub proof fn task_on_its_way_changes_only_its_payload(queue: QueueView, task: TaskView)
    ensures
        task.payload_hash is None ==> queue.with_incoming(task) == queue && queue.without_incoming(
            task,
        ) == queue,
        task.payload_hash matches Some(hash) ==> {
            &&& queue.with_incoming(task) == (QueueView {
                incoming_payloads: queue.incoming_payloads.insert(hash),
                ..queue
            })
            &&& queue.without_incoming(task) == (QueueView {
                incoming_payloads: queue.incoming_payloads.remove(hash),
                ..queue
            })
        },
{
}

/// A record in the store sets the payload of its id, or takes it away where it has none or is a
/// deletion, and changes nothing else.
pub proof fn record_changes_only_its_payload(queue: QueueView, record: TaskView, other: Seq<char>)
    ensures
        ({
            let after = queue.with_record(record);
            let payloads = after.stored_payloads;
            &&& after == (QueueView { stored_payloads: payloads, ..queue })
            &&& payloads.contains_key(record.task_id) <==> record.deleted_at is None
                && record.payload_hash is Some
            &&& payloads.contains_key(record.task_id) ==> Some(payloads[record.task_id])
                == record.payload_hash
            &&& other != record.task_id ==> (payloads.contains_key(other)
                <==> queue.stored_payloads.contains_key(other))
            &&& other != record.task_id && payloads.contains_key(other) ==> payloads[other]
                == queue.stored_payloads[other]
        }),
{
}

/// The payloads of a store are those of its records, one after the other.
pub proof fn payloads_come_record_by_record(records: Seq<TaskView>, record: TaskView)
    ensures
        payloads_of(Seq::empty()) == Map::<Seq<char>, Seq<char>>::empty(),
        payloads_of(records.push(record)) == with_payload_of(payloads_of(records), record),
{
    assert(records.push(record).drop_last() =~= records);
}

/// A task whose payload differs from that of another, in its type or in its data, is not dropped on
/// account of the other, unless the digests of two different texts are the same.
pub proof fn different_payloads_are_both_taken_in(
    queue: QueueView,
    first: TaskView,
    second: TaskView,
)
    requires
        first.payload_hash == Some(payload_hash_of(first.task_type, first.task_data)),
        second.payload_hash == Some(payload_hash_of(second.task_type, second.task_data)),
        first.task_type != second.task_type || first.task_data != second.task_data,
        !queue.is_duplicate(second),
        !queue.stored_payloads.contains_key(first.task_id),
    ensures
        queue.with_incoming(first).is_duplicate(second) || queue.with_record(first).is_duplicate(
            second,
        ) ==> exists|bytes: Seq<u8>, other_bytes: Seq<u8>|
            {
                &&& bytes != other_bytes
                &&& #[trigger] xxh64_digest(bytes, 0) == #[trigger] xxh64_digest(other_bytes, 0)
                &&& first.payload_hash == Some(numeral(xxh64_digest(bytes, 0) as nat, 16))
                &&& second.payload_hash == Some(numeral(xxh64_digest(other_bytes, 0) as nat, 16))
            },
{
    payloads_that_differ_are_hashed_apart(
        first.task_type,
        first.task_data,
        second.task_type,
        second.task_data,
    );
    duplicate_is_of_a_payload_in_the_queue(queue, second);
    duplicate_is_of_a_payload_in_the_queue(queue.with_incoming(first), second);
    duplicate_is_of_a_payload_in_the_queue(queue.with_record(first), second);
    let hash = second.payload_hash.unwrap();
    if queue.with_record(first).is_duplicate(second) && first.payload_hash != second.payload_hash {
        let after = queue.with_record(first).stored_payloads;
        let id = choose|id: Seq<char>| #[trigger] after.contains_key(id) && after[id] == hash;
        assert(queue.stored_payloads.contains_key(id));
    }
}

/// A task gets a worker exactly if it is not executing and fewer than a hundred tasks are; nothing
/// but who executes changes.
pub proof fn worker_is_given_while_one_is_free(queue: QueueView, id: Seq<char>)
    ensures
        queue.can_start(id) <==> !queue.executing_tasks.contains(id) && queue.executing_tasks.len()
            < 100,
        queue.can_start(id) ==> queue.after_claim(id) == (QueueView {
            executing_tasks: queue.executing_tasks.insert(id),
            ..queue
        }),
        !queue.can_start(id) ==> queue.after_claim(id) == queue,
        queue.without_claim(id) == (QueueView {
            executing_tasks: queue.executing_tasks.remove(id),
            ..queue
        }),
{
}

/// The places of a batch before `n` whose tasks start.
pub open spec fn started_before(steps: Seq<BatchStep>, n: int) -> Set<int> {
    Set::new(|k: int| 0 <= k < n && k < steps.len() && steps[k] is Start)
}

/// Within a batch, who executes is who did before and who started in it, one worker each.
proof fn lemma_executing_in_a_batch(
    queue: QueueView,
    requests: Seq<(TaskView, Option<bool>)>,
    now: Instant,
    steps: Seq<BatchStep>,
    n: int,
)
    requires
        queue.executing_tasks.finite(),
        are_batch_steps(queue, requests, now, steps),
        0 <= n <= requests.len(),
    ensures
        ({
            let at = after_batch(queue, requests.take(n));
            &&& at == (QueueView { executing_tasks: at.executing_tasks, ..queue })
            &&& at.executing_tasks.finite()
            &&& started_before(steps, n).finite()
            &&& at.executing_tasks.len() == queue.executing_tasks.len() + started_before(
                steps,
                n,
            ).len()
            &&& forall|id: Seq<char>| #[trigger]
                at.executing_tasks.contains(id) <==> queue.executing_tasks.contains(id) || exists|
                    k: int,
                |
                    0 <= k < n && (#[trigger] steps[k]) is Start && requests[k].0.task_id == id
        }),
    decreases n,
{
    if n == 0 {
        assert(requests.take(0) =~= Seq::<(TaskView, Option<bool>)>::empty());
        assert(started_before(steps, 0) =~= Set::empty());
    } else {
        lemma_executing_in_a_batch(queue, requests, now, steps, n - 1);
        let before = after_batch(queue, requests.take(n - 1));
        let at = after_batch(queue, requests.take(n));
        assert(requests.take(n).drop_last() =~= requests.take(n - 1));
        assert(requests.take(n).last() == requests[n - 1]);
        assert(is_batch_step(before, requests[n - 1], now, steps[n - 1]));
        if steps[n - 1] is Start {
            assert(started_before(steps, n) =~= started_before(steps, n - 1).insert(n - 1));
            assert(at == before.with_claim(requests[n - 1].0.task_id));
        } else {
            assert(started_before(steps, n) =~= started_before(steps, n - 1));
            assert(at == before);
        }
        assert forall|id: Seq<char>| #[trigger]
            at.executing_tasks.contains(id) <==> queue.executing_tasks.contains(id) || exists|
                k: int,
            |
                0 <= k < n && (#[trigger] steps[k]) is Start && requests[k].0.task_id == id by {
            assert(before.executing_tasks.contains(id) <==> queue.executing_tasks.contains(id)
                || exists|k: int|
                0 <= k < n - 1 && (#[trigger] steps[k]) is Start && requests[k].0.task_id == id);
            if exists|k: int|
                0 <= k < n && (#[trigger] steps[k]) is Start && requests[k].0.task_id == id {
                let k = choose|k: int|
                    0 <= k < n && (#[trigger] steps[k]) is Start && requests[k].0.task_id == id;
                if k < n - 1 {
                    assert(steps[k] is Start);
                }
            }
            if at.executing_tasks.contains(id) && !before.executing_tasks.contains(id) {
                assert(steps[n - 1] is Start && requests[n - 1].0.task_id == id);
            }
        }
    }
}

/// A task of a batch starts, as it is, exactly if it was granted, is not executing, was not started
/// in the batch already, and a worker is left: with those that executed before, fewer than a
/// hundred were started. One that was not granted is put off for sixty seconds; else it is left.
pub proof fn granted_tasks_start_while_workers_last(
    queue: QueueView,
    requests: Seq<(TaskView, Option<bool>)>,
    now: Instant,
    steps: Seq<BatchStep>,
    i: int,
)
    requires
        queue.executing_tasks.finite(),
        are_batch_steps(queue, requests, now, steps),
        0 <= i < requests.len(),
    ensures
        steps.len() == requests.len(),
        steps[i] is Start <==> {
            &&& requests[i].1 == Some(true)
            &&& !queue.executing_tasks.contains(requests[i].0.task_id)
            &&& forall|k: int|
                0 <= k < i && (#[trigger] steps[k]) is Start ==> requests[k].0.task_id
                    != requests[i].0.task_id
            &&& queue.executing_tasks.len() + started_before(steps, i).len() < 100
        },
        steps[i] is Save <==> requests[i].1 != Some(true),
        steps[i] matches BatchStep::Start(t) ==> t@ == requests[i].0,
        steps[i] matches BatchStep::Save(t) ==> t@ == (TaskView {
            retry_after_time: Instant { secs: now.secs + 60, nanos: now.nanos },
            ..requests[i].0
        }),
{
    lemma_executing_in_a_batch(queue, requests, now, steps, i);
    let at = after_batch(queue, requests.take(i));
    assert(is_batch_step(at, requests[i], now, steps[i]));
    let id = requests[i].0.task_id;
    assert(at.executing_tasks.contains(id) <==> queue.executing_tasks.contains(id) || exists|k: int|
        0 <= k < i && (#[trigger] steps[k]) is Start && requests[k].0.task_id == id);
}

/// After a batch exactly those execute who did before or started in it, no more than a hundred, and
/// nothing else of the queue has changed.
pub proof fn batch_changes_only_who_executes(
    queue: QueueView,
    requests: Seq<(TaskView, Option<bool>)>,
    now: Instant,
    steps: Seq<BatchStep>,
    id: Seq<char>,
)
    requires
        queue.executing_tasks.finite(),
        queue.executing_tasks.len() <= 100,
        are_batch_steps(queue, requests, now, steps),
    ensures
        ({
            let after = after_batch(queue, requests);
            &&& after == (QueueView { executing_tasks: after.executing_tasks, ..queue })
            &&& after.executing_tasks.len() <= 100
            &&& after.executing_tasks.len() == queue.executing_tasks.len() + started_before(
                steps,
                requests.len() as int,
            ).len()
            &&& after.executing_tasks.contains(id) <==> queue.executing_tasks.contains(id)
                || exists|k: int|
                0 <= k < requests.len() && (#[trigger] steps[k]) is Start && requests[k].0.task_id
                    == id
        }),
{
    assert(requests.take(requests.len() as int) =~= requests);
    lemma_executing_in_a_batch(queue, requests, now, steps, requests.len() as int);
    lemma_batch_within_the_workers(queue, requests, now, steps, requests.len() as int);
}

proof fn lemma_batch_within_the_workers(
    queue: QueueView,
    requests: Seq<(TaskView, Option<bool>)>,
    now: Instant,
    steps: Seq<BatchStep>,
    n: int,
)
    requires
        queue.executing_tasks.finite(),
        queue.executing_tasks.len() <= 100,
        are_batch_steps(queue, requests, now, steps),
        0 <= n <= requests.len(),
    ensures
        after_batch(queue, requests.take(n)).executing_tasks.len() <= 100,
    decreases n,
{
    lemma_executing_in_a_batch(queue, requests, now, steps, n);
    if n > 0 {
        lemma_batch_within_the_workers(queue, requests, now, steps, n - 1);
        lemma_executing_in_a_batch(queue, requests, now, steps, n - 1);
        assert(requests.take(n).drop_last() =~= requests.take(n - 1));
    } else {
        assert(requests.take(0) =~= Seq::<(TaskView, Option<bool>)>::empty());
    }
}

} // verus!
