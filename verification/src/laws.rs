//! What holds of the queue and its store as a whole.

use vstd::prelude::*;

verus! {

use crate::file_store::{
    after_deletion, deletion, deletions, entered, entry, filtering_keeps_the_order, find,
    find_is_the_task_of_the_id, in_order, latest, reading_gives_the_latest_record,
    reading_keeps_the_order_of_entry, replay, replay_has_unique_ids,
};
use crate::queue::{
    after_batch, are_answers, are_batch_steps, deferred, due_tasks, goes_first, is_batch,
    is_batch_step, is_failure, limiter_allows, live_hashes, payloads_of, requests_of,
    rescheduled, start_step_of, windows_after, BatchStep, Completion, QueueView, StartStepView, DEFER_SECONDS,
};
use crate::rate_limiter::{counted, grants_of, lookup, request_keeps_the_count, WindowView};
use crate::table::has_id;
use crate::task::{payload_hash_of, TaskView};
use crate::timestamp::Instant;
use crate::workers::WORKER_PERMITS;

/// Of two tasks that carry the hash of one payload, the second is dropped once the first is on its
/// way into the store or in it.
pub proof fn identical_payload_is_dropped(queue: QueueView, first: TaskView, second: TaskView)
    requires
        first.task_type == second.task_type,
        first.task_data == second.task_data,
        first.payload_hash == Some(payload_hash_of(first.task_type, first.task_data)),
        second.payload_hash == Some(payload_hash_of(second.task_type, second.task_data)),
    ensures
        queue.with_incoming(first).is_duplicate(second),
        !first.is_deleted() ==> queue.with_record(first).is_duplicate(second),
{
    if !first.is_deleted() {
        let payloads = queue.with_record(first).stored_payloads;
        assert(payloads.dom().contains(first.task_id));
        assert(payloads.contains_value(first.payload_hash.unwrap()));
    }
}

/// A task without a payload hash is never dropped.
pub proof fn task_without_hash_is_never_dropped(queue: QueueView, task: TaskView)
    requires
        task.payload_hash is None,
    ensures
        !queue.is_duplicate(task),
{
}

/// The queue after `tasks` were enqueued one after the other.
pub open spec fn after_enqueues(queue: QueueView, tasks: Seq<TaskView>) -> QueueView
    decreases tasks.len(),
{
    if tasks.len() == 0 {
        queue
    } else {
        let before = after_enqueues(queue, tasks.drop_last());
        if before.is_duplicate(tasks.last()) {
            before
        } else {
            before.with_incoming(tasks.last())
        }
    }
}

/// Of any number of tasks with one payload that is not in the queue yet, the first is taken in and
/// every other is dropped, in whatever order they come and whatever other tasks come between them.
///
/// `tasks` are all tasks that are enqueued, by whomever, in the order in which they get their turn.
pub proof fn one_of_like_tasks_is_taken_in(
    queue: QueueView,
    tasks: Seq<TaskView>,
    hash: Seq<char>,
    first: int,
    i: int,
)
    requires
        !queue.active_hashes().contains(hash),
        0 <= first < tasks.len(),
        tasks[first].payload_hash == Some(hash),
        forall|k: int| 0 <= k < first ==> (#[trigger] tasks[k]).payload_hash != Some(hash),
        0 <= i < tasks.len(),
        tasks[i].payload_hash == Some(hash),
    ensures
        after_enqueues(queue, tasks.take(i)).is_duplicate(tasks[i]) <==> i != first,
{
    lemma_hash_comes_in(queue, tasks.take(i), hash);
    if i > first {
        assert(tasks.take(i)[first].payload_hash == Some(hash));
    } else {
        assert forall|k: int| 0 <= k < i implies (#[trigger] tasks.take(i)[k]).payload_hash != Some(
            hash,
        ) by {
            assert(tasks[k] == tasks.take(i)[k]);
        }
    }
}

proof fn lemma_hash_comes_in(queue: QueueView, tasks: Seq<TaskView>, hash: Seq<char>)
    requires
        !queue.active_hashes().contains(hash),
    ensures
        after_enqueues(queue, tasks).stored_payloads == queue.stored_payloads,
        after_enqueues(queue, tasks).active_hashes().contains(hash) <==> exists|k: int|
            0 <= k < tasks.len() && (#[trigger] tasks[k]).payload_hash == Some(hash),
    decreases tasks.len(),
{
    if tasks.len() > 0 {
        let init = tasks.drop_last();
        lemma_hash_comes_in(queue, init, hash);
        if exists|k: int| 0 <= k < init.len() && (#[trigger] init[k]).payload_hash == Some(hash) {
            let k = choose|k: int|
                0 <= k < init.len() && (#[trigger] init[k]).payload_hash == Some(hash);
            assert(tasks[k].payload_hash == Some(hash));
        }
        if exists|k: int| 0 <= k < tasks.len() && (#[trigger] tasks[k]).payload_hash == Some(hash) {
            let k = choose|k: int|
                0 <= k < tasks.len() && (#[trigger] tasks[k]).payload_hash == Some(hash);
            if k < init.len() {
                assert(init[k].payload_hash == Some(hash));
            }
        }
        assert(tasks[tasks.len() - 1] == tasks.last());
    }
}

/// Whether the queue knows exactly the payloads of the tasks that the log holds.
pub open spec fn in_step(log: Seq<TaskView>, queue: QueueView) -> bool {
    queue.stored_payloads == payloads_of(log)
}

/// The payload of an id is that of its last record, unless that is a deletion.
proof fn lemma_payload_of_the_latest(log: Seq<TaskView>, id: Seq<char>)
    ensures
        payloads_of(log).contains_key(id) <==> latest(log, id) is Some && !latest(
            log,
            id,
        ).unwrap().is_deleted() && latest(log, id).unwrap().payload_hash is Some,
        payloads_of(log).contains_key(id) ==> Some(payloads_of(log)[id]) == latest(
            log,
            id,
        ).unwrap().payload_hash,
    decreases log.len(),
{
    if log.len() > 0 {
        lemma_payload_of_the_latest(log.drop_last(), id);
    }
}

/// The payloads that a log holds are those of the tasks that are read from it.
pub proof fn payloads_are_those_read(log: Seq<TaskView>, id: Seq<char>)
    ensures
        payloads_of(log).contains_key(id) <==> find(replay(log), id) is Some && find(
            replay(log),
            id,
        ).unwrap().payload_hash is Some,
        payloads_of(log).contains_key(id) ==> Some(payloads_of(log)[id]) == find(
            replay(log),
            id,
        ).unwrap().payload_hash,
{
    lemma_payload_of_the_latest(log, id);
    reading_gives_the_latest_record(log, id);
}

/// A queue that is set up over the tasks read from a log is in step with it.
pub proof fn new_queue_is_in_step(log: Seq<TaskView>, queue: QueueView)
    requires
        queue.stored_payloads == payloads_of(replay(log)),
    ensures
        in_step(log, queue),
{
    let tasks = replay(log);
    replay_has_unique_ids(log);
    let ours = payloads_of(tasks);
    let theirs = payloads_of(log);
    assert forall|id: Seq<char>| #[trigger]
        ours.dom().contains(id) == theirs.dom().contains(id) && (ours.dom().contains(id)
            ==> ours[id] == theirs[id]) by {
        lemma_payload_of_the_latest(tasks, id);
        payloads_are_those_read(log, id);
        lemma_read_task_is_live(log, id);
        lemma_latest_is_found(tasks, id);
    }
    assert(ours.dom() =~= theirs.dom());
    assert(ours =~= theirs);
}

/// Where ids are unique, the last record of an id is the one record of it.
proof fn lemma_latest_is_found(tasks: Seq<TaskView>, id: Seq<char>)
    requires
        crate::table::unique_ids(tasks),
    ensures
        latest(tasks, id) == find(tasks, id),
{
    lemma_latest_is_among(tasks, id);
    if latest(tasks, id) is Some {
        find_is_the_task_of_the_id(tasks, latest(tasks, id).unwrap());
    }
}

proof fn lemma_latest_is_among(tasks: Seq<TaskView>, id: Seq<char>)
    ensures
        latest(tasks, id) is Some <==> has_id(tasks, id),
        latest(tasks, id) matches Some(task) ==> task.task_id == id && tasks.contains(task),
    decreases tasks.len(),
{
    if tasks.len() > 0 {
        let init = tasks.drop_last();
        lemma_latest_is_among(init, id);
        assert(tasks[tasks.len() - 1] == tasks.last());
        if has_id(init, id) {
            let i = choose|i: int| 0 <= i < init.len() && #[trigger] init[i].task_id == id;
            assert(tasks[i].task_id == id);
        }
        if has_id(tasks, id) {
            let i = choose|i: int| 0 <= i < tasks.len() && #[trigger] tasks[i].task_id == id;
            if i < init.len() {
                assert(init[i].task_id == id);
            }
        }
        if latest(init, id) is Some {
            let i = choose|i: int| 0 <= i < init.len() && init[i] == latest(init, id).unwrap();
            assert(tasks[i] == init[i]);
        }
    }
}

/// Appending a record to the log and noting it keeps the queue in step: a new task, one that is
/// saved again with whatever payload, or a deletion.
pub proof fn saving_keeps_in_step(log: Seq<TaskView>, queue: QueueView, record: TaskView)
    requires
        in_step(log, queue),
    ensures
        in_step(log.push(record), queue.with_record(record)),
{
    assert(log.push(record).drop_last() =~= log);
}

/// Taking a task in, saving it and settling it keeps the queue in step, and leaves no payload on
/// its way that was not there before.
pub proof fn taking_in_keeps_in_step(log: Seq<TaskView>, queue: QueueView, task: TaskView)
    requires
        in_step(log, queue),
        !queue.is_duplicate(task),
    ensures
        ({
            let after = queue.with_incoming(task).with_record(task).without_incoming(task);
            &&& in_step(log.push(task), after)
            &&& after.incoming_payloads == queue.incoming_payloads
        }),
{
    saving_keeps_in_step(log, queue.with_incoming(task), task);
    let after = queue.with_incoming(task).with_record(task).without_incoming(task);
    assert(after.incoming_payloads =~= queue.incoming_payloads);
}

/// A task that was taken in and could not be saved leaves nothing behind once it is settled.
pub proof fn failed_save_leaves_nothing(queue: QueueView, task: TaskView)
    requires
        !queue.is_duplicate(task),
    ensures
        queue.with_incoming(task).without_incoming(task) == queue,
{
    assert(queue.with_incoming(task).without_incoming(task).incoming_payloads
        =~= queue.incoming_payloads);
}

/// Deleting a task and noting its deletion keeps the queue in step. Where there is nothing to
/// delete, nothing is to be noted.
pub proof fn deleting_keeps_in_step(
    log: Seq<TaskView>,
    queue: QueueView,
    id: Seq<char>,
    now: Instant,
)
    requires
        in_step(log, queue),
    ensures
        in_step(
            after_deletion(log, id, now),
            match deletion(log, id, now) {
                Some(record) => queue.with_record(record),
                None => queue,
            },
        ),
{
    match deletion(log, id, now) {
        Some(record) => {
            saving_keeps_in_step(log, queue, record);
        },
        None => {},
    }
}

/// While no task is on its way, the payloads in the queue are exactly those of the tasks in the
/// store. That of a record that was replaced or deleted is not among them.
pub proof fn active_payloads_are_those_stored(log: Seq<TaskView>, queue: QueueView)
    requires
        in_step(log, queue),
        queue.incoming_payloads == Set::<Seq<char>>::empty(),
    ensures
        queue.active_hashes() == live_hashes(replay(log)),
{
    assert forall|hash: Seq<char>|
        queue.active_hashes().contains(hash) == live_hashes(replay(log)).contains(hash) by {
        live_hashes_are_those_read(log, hash);
        if queue.active_hashes().contains(hash) {
            let id = choose|id: Seq<char>| #[trigger]
                queue.stored_payloads.dom().contains(id) && queue.stored_payloads[id] == hash;
            payloads_are_those_read(log, id);
            assert(find(replay(log), id) is Some);
        }
        if live_hashes(replay(log)).contains(hash) {
            let id = choose|id: Seq<char>|
                (#[trigger] find(replay(log), id)) is Some && find(
                    replay(log),
                    id,
                ).unwrap().payload_hash == Some(hash);
            payloads_are_those_read(log, id);
            assert(queue.stored_payloads.dom().contains(id));
        }
    }
    assert(queue.active_hashes() =~= live_hashes(replay(log)));
}

/// A task like one in the store is dropped.
pub proof fn payload_in_the_store_is_dropped(
    log: Seq<TaskView>,
    queue: QueueView,
    id: Seq<char>,
    like: TaskView,
)
    requires
        in_step(log, queue),
        find(replay(log), id) is Some,
        like.payload_hash is Some,
        find(replay(log), id).unwrap().payload_hash == like.payload_hash,
    ensures
        queue.is_duplicate(like),
{
    payloads_are_those_read(log, id);
    assert(queue.stored_payloads.dom().contains(id));
    assert(queue.stored_payloads.contains_value(like.payload_hash.unwrap()));
}

/// The payload of a task that is read from the log is among the live ones, and every live payload
/// belongs to such a task.
pub proof fn live_hashes_are_those_read(log: Seq<TaskView>, hash: Seq<char>)
    ensures
        live_hashes(replay(log)).contains(hash) <==> exists|id: Seq<char>|
            (#[trigger] find(replay(log), id)) is Some && find(replay(log), id).unwrap().payload_hash
                == Some(hash),
{
    let tasks = replay(log);
    replay_has_unique_ids(log);
    if live_hashes(tasks).contains(hash) {
        let i = choose|i: int|
            0 <= i < tasks.len() && !(#[trigger] tasks[i]).is_deleted() && tasks[i].payload_hash
                == Some(hash);
        find_is_the_task_of_the_id(tasks, tasks[i]);
        assert(find(tasks, tasks[i].task_id) == Some(tasks[i]));
    }
    if exists|id: Seq<char>|
        (#[trigger] find(tasks, id)) is Some && find(tasks, id).unwrap().payload_hash == Some(
            hash,
        ) {
        let id = choose|id: Seq<char>|
            (#[trigger] find(tasks, id)) is Some && find(tasks, id).unwrap().payload_hash == Some(
                hash,
            );
        lemma_read_task_is_live(log, id);
        let i = choose|i: int| 0 <= i < tasks.len() && #[trigger] tasks[i].task_id == id;
        assert(tasks[i] == find(tasks, id).unwrap());
        assert(!tasks[i].is_deleted());
    }
}

/// What is read from a log is not deleted.
proof fn lemma_read_task_is_live(log: Seq<TaskView>, id: Seq<char>)
    ensures
        find(replay(log), id) matches Some(task) ==> !task.is_deleted() && task.task_id == id,
{
    reading_gives_the_latest_record(log, id);
    lemma_found_has_the_id(replay(log), id);
}

proof fn lemma_found_has_the_id(tasks: Seq<TaskView>, id: Seq<char>)
    ensures
        find(tasks, id) matches Some(task) ==> task.task_id == id && tasks.contains(task),
{
    if has_id(tasks, id) {
        let i = choose|i: int| 0 <= i < tasks.len() && #[trigger] tasks[i].task_id == id;
        assert(tasks[i] == find(tasks, id).unwrap());
    }
}

/// What happens to a worker.
pub enum WorkerEvent {
    /// The task of this id asks for a worker.
    Claim(Seq<char>),
    /// The execution of the task of this id ends.
    Release(Seq<char>),
}

/// The queue after `events`.
pub open spec fn after_events(queue: QueueView, events: Seq<WorkerEvent>) -> QueueView
    decreases events.len(),
{
    if events.len() == 0 {
        queue
    } else {
        let before = after_events(queue, events.drop_last());
        match events.last() {
            WorkerEvent::Claim(id) => before.after_claim(id),
            WorkerEvent::Release(id) => before.without_claim(id),
        }
    }
}

/// Whatever tasks start and end, in whatever order, no more execute at a time than there are
/// workers.
pub proof fn workers_are_never_exceeded(queue: QueueView, events: Seq<WorkerEvent>)
    requires
        queue.executing_tasks.finite(),
        queue.executing_tasks.len() <= WORKER_PERMITS,
    ensures
        after_events(queue, events).executing_tasks.finite(),
        after_events(queue, events).executing_tasks.len() <= WORKER_PERMITS,
    decreases events.len(),
{
    if events.len() > 0 {
        workers_are_never_exceeded(queue, events.drop_last());
    }
}

/// A task that has its worker gets no second one until it is released, and other tasks are not
/// affected.
pub proof fn claim_is_exclusive(queue: QueueView, id: Seq<char>, other: Seq<char>)
    ensures
        queue.can_start(id) ==> queue.after_claim(id).executing_tasks.contains(id),
        !queue.after_claim(id).can_start(id),
        !queue.without_claim(id).executing_tasks.contains(id),
        other != id ==> queue.after_claim(id).executing_tasks.contains(other)
            == queue.executing_tasks.contains(other),
        other != id ==> queue.without_claim(id).executing_tasks.contains(other)
            == queue.executing_tasks.contains(other),
{
}

/// A task that got no worker, or gave it back, is as before: it can be claimed again.
pub proof fn worker_that_was_given_back_is_free(queue: QueueView, id: Seq<char>)
    ensures
        !queue.can_start(id) ==> queue.after_claim(id) == queue,
        !queue.executing_tasks.contains(id) ==> queue.with_claim(id).without_claim(id) == queue,
        queue.can_start(id) ==> queue.after_claim(id).without_claim(id).can_start(id),
{
    if !queue.executing_tasks.contains(id) {
        assert(queue.with_claim(id).without_claim(id).executing_tasks =~= queue.executing_tasks);
    }
}

/// Registering a handler replaces the one of its type, and leaves every other handler in place,
/// those for last failures too.
pub proof fn last_handler_stands(
    queue: QueueView,
    task_type: Seq<char>,
    handler: usize,
    other: Seq<char>,
)
    ensures
        ({
            let after = queue.with_handler(task_type, handler);
            &&& after.task_handlers.contains_key(task_type)
            &&& after.task_handlers[task_type] == handler
            &&& other != task_type ==> after.task_handlers.contains_key(other)
                == queue.task_handlers.contains_key(other)
            &&& other != task_type ==> after.task_handlers[other] == queue.task_handlers[other]
            &&& after.max_retry_handlers == queue.max_retry_handlers
        }),
        ({
            let after = queue.with_max_retry_handler(task_type, handler);
            &&& after.max_retry_handlers.contains_key(task_type)
            &&& after.max_retry_handlers[task_type] == handler
            &&& other != task_type ==> after.max_retry_handlers.contains_key(other)
                == queue.max_retry_handlers.contains_key(other)
            &&& other != task_type ==> after.max_retry_handlers[other]
                == queue.max_retry_handlers[other]
            &&& after.task_handlers == queue.task_handlers
        }),
{
}

/// The task after it failed with each of `errors` in turn and was tried again.
pub open spec fn after_failures(task: TaskView, errors: Seq<(Seq<char>, Instant)>) -> TaskView
    decreases errors.len(),
{
    if errors.len() == 0 {
        task
    } else {
        after_failures(task, errors.drop_last()).failed(Some(errors.last().0), errors.last().1)
    }
}

/// Failures count up to the limit and change nothing that identifies the task.
pub proof fn failures_are_counted(task: TaskView, errors: Seq<(Seq<char>, Instant)>)
    ensures
        after_failures(task, errors).retry_count == task.retry_count + errors.len(),
        after_failures(task, errors).max_retries == task.max_retries,
        after_failures(task, errors).task_id == task.task_id,
        after_failures(task, errors).task_type == task.task_type,
        after_failures(task, errors).task_data == task.task_data,
        after_failures(task, errors).payload_hash == task.payload_hash,
    decreases errors.len(),
{
    if errors.len() > 0 {
        failures_are_counted(task, errors.drop_last());
    }
}

/// A task that keeps failing is tried again exactly as often as its retries allow; the failure
/// after that is its last.
pub proof fn retries_are_used_up(
    queue: QueueView,
    task: TaskView,
    errors: Seq<(Seq<char>, Instant)>,
    error: Seq<char>,
    now: Instant,
    completion: Completion,
)
    requires
        is_failure(queue, after_failures(task, errors), error, now, completion),
    ensures
        completion is Retry <==> task.retry_count + errors.len() < task.max_retries,
        completion is Abandon <==> task.retry_count + errors.len() >= task.max_retries,
        completion matches Completion::Retry(t) ==> t@ == after_failures(
            task,
            errors.push((error, now)),
        ) && t@.retry_count <= t@.max_retries,
{
    failures_are_counted(task, errors);
    assert(errors.push((error, now)).drop_last() =~= errors);
}

/// A task that is tried again does not run before its delay is over, and its turn comes then.
pub proof fn failed_task_waits_for_its_delay(
    task: TaskView,
    error: Seq<char>,
    now: Instant,
    later: Instant,
)
    ensures
        ({
            let next = now.plus(task.retry_after_hours.hours_as_seconds());
            &&& later.before(next) ==> !task.failed(Some(error), now).is_due(later)
            &&& task.execute_at.at_or_before(later) && next.at_or_before(later) ==> task.failed(
                Some(error),
                now,
            ).is_due(later)
        }),
{
}

/// A task whose group was refused a start does not run within the next minute, and its turn comes
/// when the minute is over.
pub proof fn deferred_task_waits_a_minute(task: TaskView, now: Instant, later: Instant)
    ensures
        later.before(now.plus(DEFER_SECONDS as int)) ==> !deferred(task, now).is_due(later),
        task.execute_at.at_or_before(later) && now.plus(DEFER_SECONDS as int).at_or_before(later)
            ==> deferred(task, now).is_due(later),
{
}

/// A task on a schedule starts each run with all its retries and without errors, and not before
/// the time of the run.
pub proof fn scheduled_run_starts_afresh(task: TaskView, next: Instant, time: Instant)
    ensures
        rescheduled(task, next).retry_count == 0,
        rescheduled(task, next).last_error_obj is None,
        rescheduled(task, next).last_job_error is None,
        rescheduled(task, next).task_id == task.task_id,
        time.before(next) ==> !rescheduled(task, next).is_due(time),
{
}

/// A batch holds none but tasks that are in the store and due.
pub proof fn batch_holds_due_tasks(
    tasks: Seq<TaskView>,
    now: Instant,
    available: nat,
    batch: Seq<TaskView>,
    picks: Seq<int>,
    i: int,
)
    requires
        is_batch(due_tasks(tasks, now), available, batch, picks),
        0 <= i < batch.len(),
    ensures
        tasks.contains(batch[i]),
        batch[i].is_due(now),
        !batch[i].is_deleted(),
{
    let due = due_tasks(tasks, now);
    let wanted = |t: TaskView| t.is_due(now) && !t.is_deleted();
    assert(batch[i] == due[picks[i]]);
    tasks.lemma_filter_pred(wanted, picks[i]);
    assert(due.contains(due[picks[i]]));
    tasks.lemma_filter_contains_rev(wanted, due[picks[i]]);
}

/// A task of the batch is never less urgent than one after it, or than one that was left out.
pub proof fn batch_is_in_order_of_urgency(
    due: Seq<TaskView>,
    available: nat,
    batch: Seq<TaskView>,
    picks: Seq<int>,
    i: int,
)
    requires
        is_batch(due, available, batch, picks),
        0 <= i < batch.len(),
    ensures
        forall|j: int|
            i < j < batch.len() ==> !batch[i].score().less((#[trigger] batch[j]).score()),
        forall|q: int|
            0 <= q < due.len() && !picks.contains(q) ==> !batch[i].score().less(
                (#[trigger] due[q]).score(),
            ),
{
    assert(batch[i] == due[picks[i]]);
    assert forall|j: int| i < j < batch.len() implies !batch[i].score().less(
        (#[trigger] batch[j]).score(),
    ) by {
        assert(batch[j] == due[picks[j]]);
        assert(picks[i] != picks[j]);
    }
    assert forall|q: int| 0 <= q < due.len() && !picks.contains(q) implies !batch[i].score().less(
        (#[trigger] due[q]).score(),
    ) by {
        assert(goes_first(due, picks[i], q));
    }
}

/// Where every score is a number, there is one batch only that can be taken.
pub proof fn batch_is_determined(
    due: Seq<TaskView>,
    available: nat,
    batch: Seq<TaskView>,
    picks: Seq<int>,
    other_batch: Seq<TaskView>,
    other_picks: Seq<int>,
)
    requires
        is_batch(due, available, batch, picks),
        is_batch(due, available, other_batch, other_picks),
        forall|k: int| 0 <= k < due.len() ==> !(#[trigger] due[k]).score().is_nan(),
    ensures
        picks == other_picks,
        batch == other_batch,
{
    lemma_same_picks(due, available, batch, picks, other_batch, other_picks, picks.len() as int);
    assert(picks =~= other_picks);
    assert forall|i: int| 0 <= i < batch.len() implies batch[i] == other_batch[i] by {
        assert(batch[i] == due[picks[i]]);
        assert(other_batch[i] == due[other_picks[i]]);
    }
    assert(batch =~= other_batch);
}

proof fn lemma_same_picks(
    due: Seq<TaskView>,
    available: nat,
    batch: Seq<TaskView>,
    picks: Seq<int>,
    other_batch: Seq<TaskView>,
    other_picks: Seq<int>,
    n: int,
)
    requires
        is_batch(due, available, batch, picks),
        is_batch(due, available, other_batch, other_picks),
        forall|k: int| 0 <= k < due.len() ==> !(#[trigger] due[k]).score().is_nan(),
        0 <= n <= picks.len(),
    ensures
        forall|i: int| 0 <= i < n ==> #[trigger] picks[i] == other_picks[i],
    decreases n,
{
    if n > 0 {
        lemma_same_picks(due, available, batch, picks, other_batch, other_picks, n - 1);
        let a = picks[n - 1];
        let b = other_picks[n - 1];
        if a != b {
            lemma_pick_goes_first(due, available, batch, picks, n - 1, b, other_picks);
            lemma_pick_goes_first(due, available, other_batch, other_picks, n - 1, a, picks);
        }
    }
}

/// A pick goes before whatever is not among the picks up to it.
proof fn lemma_pick_goes_first(
    due: Seq<TaskView>,
    available: nat,
    batch: Seq<TaskView>,
    picks: Seq<int>,
    at: int,
    q: int,
    other_picks: Seq<int>,
)
    requires
        is_batch(due, available, batch, picks),
        0 <= at < picks.len(),
        other_picks.len() == picks.len(),
        forall|i: int| 0 <= i < at ==> #[trigger] picks[i] == other_picks[i],
        forall|i: int, j: int|
            0 <= i < j < other_picks.len() ==> #[trigger] other_picks[i] != #[trigger] other_picks[j],
        q == other_picks[at],
        q != picks[at],
        0 <= q < due.len(),
    ensures
        goes_first(due, picks[at], q),
{
    if picks.contains(q) {
        let j = choose|j: int| 0 <= j < picks.len() && picks[j] == q;
        if j < at {
            assert(other_picks[j] != other_picks[at]);
        }
        assert(picks[at] != picks[j]);
    } else {
        assert(goes_first(due, picks[at], q));
    }
}

/// Where there are workers for all, every due task is taken.
pub proof fn enough_workers_take_every_due_task(
    due: Seq<TaskView>,
    available: nat,
    batch: Seq<TaskView>,
    picks: Seq<int>,
    q: int,
)
    requires
        is_batch(due, available, batch, picks),
        due.len() <= available,
        0 <= q < due.len(),
    ensures
        batch.contains(due[q]),
{
    let range = vstd::set_lib::set_int_range(0, due.len() as int);
    assert(picks.no_duplicates()) by {
        assert forall|i: int, j: int|
            0 <= i < picks.len() && 0 <= j < picks.len() && i != j implies picks[i] != picks[j] by {
            if i < j {
                assert(picks[i] != picks[j]);
            } else {
                assert(picks[j] != picks[i]);
            }
        }
    }
    picks.unique_seq_to_set();
    vstd::set_lib::lemma_int_range(0, due.len() as int);
    assert(picks.to_set().subset_of(range)) by {
        assert forall|x: int| picks.to_set().contains(x) implies range.contains(x) by {
            let i = choose|i: int| 0 <= i < picks.len() && picks[i] == x;
            assert(0 <= picks[i] < due.len());
        }
    }
    vstd::set_lib::lemma_len_subset(picks.to_set(), range);
    vstd::set_lib::lemma_subset_equality(picks.to_set(), range);
    assert(picks.to_set().contains(q));
    let i = choose|i: int| 0 <= i < picks.len() && picks[i] == q;
    assert(batch[i] == due[picks[i]]);
}

/// How many starts of `group` count at `now`.
spec fn count_of(windows: Map<Seq<char>, WindowView>, group: Seq<char>, now: Instant) -> nat {
    counted(grants_of(lookup(windows, group)), now).len()
}

proof fn lemma_counts_go_up(
    windows: Map<Seq<char>, WindowView>,
    tasks: Seq<TaskView>,
    group: Seq<char>,
    now: Instant,
    i: int,
    j: int,
)
    requires
        0 <= i <= j <= tasks.len(),
    ensures
        count_of(windows_after(windows, tasks.take(i), now), group, now) <= count_of(
            windows_after(windows, tasks.take(j), now),
            group,
            now,
        ),
    decreases j - i,
{
    if i < j {
        lemma_counts_go_up(windows, tasks, group, now, i, j - 1);
        assert(tasks.take(j).drop_last() =~= tasks.take(j - 1));
        let before = windows_after(windows, tasks.take(j - 1), now);
        match start_step_of(tasks.take(j).last()) {
            StartStepView::AskLimiter { group: asked, limit } => {
                if asked == group {
                    request_keeps_the_count(lookup(before, group), limit as int, now);
                }
            },
            _ => {},
        }
    }
}

/// Whether the limiter cannot hold `first` back and let `second` pass after it: `first` does not ask
/// at all, or both ask in one group and the limit of `first` is no smaller.
pub open spec fn asks_no_more(first: TaskView, second: TaskView) -> bool {
    match (start_step_of(first), start_step_of(second)) {
        (
            StartStepView::AskLimiter { group, limit },
            StartStepView::AskLimiter { group: other_group, limit: other_limit },
        ) => group == other_group && limit >= other_limit,
        (StartStepView::AskLimiter { .. }, _) => false,
        _ => true,
    }
}

/// Of two tasks of a batch, the later one is not granted a start that the earlier one is refused,
/// unless the earlier one asks for more.
pub proof fn later_task_is_not_granted_before(
    windows: Map<Seq<char>, WindowView>,
    tasks: Seq<TaskView>,
    now: Instant,
    answers: Seq<bool>,
    i: int,
    j: int,
)
    requires
        are_answers(windows, tasks, now, answers),
        0 <= i < j < tasks.len(),
        asks_no_more(tasks[i], tasks[j]),
    ensures
        answers[j] ==> answers[i],
{
    assert(answers[i] == limiter_allows(windows_after(windows, tasks.take(i), now), tasks[i], now));
    assert(answers[j] == limiter_allows(windows_after(windows, tasks.take(j), now), tasks[j], now));
    match start_step_of(tasks[i]) {
        StartStepView::AskLimiter { group, limit } => {
            lemma_counts_go_up(windows, tasks, group, now, i, j);
        },
        _ => {},
    }
}

proof fn lemma_workers_fill_up(
    queue: QueueView,
    requests: Seq<(TaskView, Option<bool>)>,
    i: int,
    j: int,
)
    requires
        queue.executing_tasks.finite(),
        0 <= i <= j <= requests.len(),
    ensures
        after_batch(queue, requests.take(i)).executing_tasks.finite(),
        after_batch(queue, requests.take(j)).executing_tasks.finite(),
        after_batch(queue, requests.take(i)).executing_tasks.subset_of(
            after_batch(queue, requests.take(j)).executing_tasks,
        ),
        after_batch(queue, requests.take(i)).executing_tasks.len() <= after_batch(
            queue,
            requests.take(j),
        ).executing_tasks.len(),
    decreases j,
{
    if j > 0 {
        assert(requests.take(j).drop_last() =~= requests.take(j - 1));
        if i < j {
            lemma_workers_fill_up(queue, requests, i, j - 1);
        } else {
            lemma_workers_fill_up(queue, requests, i - 1, j - 1);
        }
    } else {
        assert(requests.take(0) =~= Seq::<(TaskView, Option<bool>)>::empty());
    }
}

/// A task that executes in the course of a batch was executing before it, or started in it.
proof fn lemma_executing_came_from(
    queue: QueueView,
    requests: Seq<(TaskView, Option<bool>)>,
    i: int,
    id: Seq<char>,
)
    requires
        0 <= i <= requests.len(),
        after_batch(queue, requests.take(i)).executing_tasks.contains(id),
    ensures
        queue.executing_tasks.contains(id) || exists|k: int|
            0 <= k < i && (#[trigger] requests[k]).0.task_id == id,
    decreases i,
{
    if i > 0 {
        assert(requests.take(i).drop_last() =~= requests.take(i - 1));
        assert(requests.take(i).last() == requests[i - 1]);
        if after_batch(queue, requests.take(i - 1)).executing_tasks.contains(id) {
            lemma_executing_came_from(queue, requests, i - 1, id);
            if !queue.executing_tasks.contains(id) {
                let k = choose|k: int|
                    0 <= k < i - 1 && (#[trigger] requests[k]).0.task_id == id;
                assert(requests[k].0.task_id == id);
            }
        } else {
            assert(requests[i - 1].0.task_id == id);
        }
    } else {
        assert(requests.take(0) =~= Seq::<(TaskView, Option<bool>)>::empty());
    }
}

/// Of two granted tasks of a batch, the later one gets no worker that the earlier one misses: the
/// earlier one starts too, or is executing already.
pub proof fn later_task_is_not_started_before(
    queue: QueueView,
    requests: Seq<(TaskView, Option<bool>)>,
    now: Instant,
    steps: Seq<BatchStep>,
    i: int,
    j: int,
)
    requires
        queue.executing_tasks.finite(),
        are_batch_steps(queue, requests, now, steps),
        0 <= i < j < requests.len(),
        requests[i].1 == Some(true),
        steps[j] is Start,
        forall|k: int| 0 <= k < i ==> (#[trigger] requests[k]).0.task_id != requests[i].0.task_id,
    ensures
        steps[i] is Start || queue.executing_tasks.contains(requests[i].0.task_id),
{
    let at_i = after_batch(queue, requests.take(i));
    let at_j = after_batch(queue, requests.take(j));
    lemma_workers_fill_up(queue, requests, i, j);
    assert(is_batch_step(at_i, requests[i], now, steps[i]));
    assert(is_batch_step(at_j, requests[j], now, steps[j]));
    if at_i.executing_tasks.contains(requests[i].0.task_id) {
        lemma_executing_came_from(queue, requests, i, requests[i].0.task_id);
    }
}

/// Of two tasks of one urgency that are due, the one that entered the store first goes first: where
/// the other is in the batch, it is there too, and earlier. Saving a task again, to put it off or
/// to try it once more, does not change when it entered.
pub proof fn equally_urgent_tasks_are_first_in_first_out(
    log: Seq<TaskView>,
    now: Instant,
    available: nat,
    batch: Seq<TaskView>,
    picks: Seq<int>,
    first: TaskView,
    second: TaskView,
    j: int,
) -> (i: int)
    requires
        is_batch(due_tasks(replay(log), now), available, batch, picks),
        replay(log).contains(first),
        first.is_due(now),
        !first.is_deleted(),
        !first.score().is_nan(),
        !second.score().is_nan(),
        first.score().rank() == second.score().rank(),
        entered(log, first.task_id).unwrap() < entered(log, second.task_id).unwrap(),
        0 <= j < batch.len(),
        batch[j] == second,
    ensures
        0 <= i < j,
        batch[i] == first,
{
    let tasks = replay(log);
    let wanted = |t: TaskView| t.is_due(now) && !t.is_deleted();
    let due = due_tasks(tasks, now);
    let q = picks[j];
    assert(batch[j] == due[q]);
    let place = choose|k: int| 0 <= k < tasks.len() && tasks[k] == first;
    tasks.lemma_filter_contains(wanted, place);
    let p = choose|k: int| 0 <= k < due.len() && due[k] == first;
    reading_keeps_the_order_of_entry(log);
    filtering_keeps_the_order(tasks, wanted, entry(log));
    assert(in_order(due, entry(log)));
    assert(has_id(tasks, first.task_id)) by {
        assert(tasks[place].task_id == first.task_id);
    }
    assert(due.contains(due[q]));
    tasks.lemma_filter_contains_rev(wanted, due[q]);
    let other = choose|k: int| 0 <= k < tasks.len() && tasks[k] == second;
    assert(has_id(tasks, second.task_id)) by {
        assert(tasks[other].task_id == second.task_id);
    }
    if q < p {
        assert(entry(log)(due[q].task_id) < entry(log)(due[p].task_id));
    }
    assert(p != q);
    if !picks.contains(p) {
        assert(goes_first(due, picks[j], p));
    }
    let i = choose|k: int| 0 <= k < picks.len() && picks[k] == p;
    assert(batch[i] == due[picks[i]]);
    if j < i {
        assert(picks[j] != picks[i]);
        assert(goes_first(due, picks[j], picks[i]));
    }
    i
}

/// Standard tasks are served first in, first out. Of two tasks of one urgency that are due, the one
/// that entered the store later starts only if the other one starts too or is executing already,
/// unless the other one asks more of the limiter.
///
/// The tasks were found due at `now`. `answers` is what the limiter answered to them at `asked`, and
/// `None` where it could not.
pub proof fn standard_tasks_are_served_in_order(
    log: Seq<TaskView>,
    queue: QueueView,
    windows: Map<Seq<char>, WindowView>,
    now: Instant,
    asked: Instant,
    available: nat,
    batch: Seq<TaskView>,
    picks: Seq<int>,
    answers: Option<Seq<bool>>,
    steps: Seq<BatchStep>,
    first: TaskView,
    second: TaskView,
    j: int,
) -> (i: int)
    requires
        queue.executing_tasks.finite(),
        is_batch(due_tasks(replay(log), now), available, batch, picks),
        answers matches Some(given) ==> are_answers(windows, batch, asked, given),
        are_batch_steps(queue, requests_of(batch, answers), now, steps),
        replay(log).contains(first),
        first.is_due(now),
        !first.is_deleted(),
        !first.score().is_nan(),
        !second.score().is_nan(),
        first.score().rank() == second.score().rank(),
        asks_no_more(first, second),
        entered(log, first.task_id).unwrap() < entered(log, second.task_id).unwrap(),
        0 <= j < batch.len(),
        batch[j] == second,
        steps[j] is Start,
    ensures
        0 <= i < j,
        batch[i] == first,
        steps[i] is Start || queue.executing_tasks.contains(first.task_id),
{
    let requests = requests_of(batch, answers);
    let i = equally_urgent_tasks_are_first_in_first_out(
        log,
        now,
        available,
        batch,
        picks,
        first,
        second,
        j,
    );
    assert(is_batch_step(after_batch(queue, requests.take(j)), requests[j], now, steps[j]));
    match answers {
        Some(given) => {
            assert(given[j] == limiter_allows(
                windows_after(windows, batch.take(j), asked),
                batch[j],
                asked,
            ));
            later_task_is_not_granted_before(windows, batch, asked, given, i, j);
        },
        None => {},
    }
    assert(requests[i].1 == Some(true));
    assert forall|k: int| 0 <= k < i implies (#[trigger] requests[k]).0.task_id
        != requests[i].0.task_id by {
        lemma_batch_ids_differ(log, now, available, batch, picks, k, i);
    }
    later_task_is_not_started_before(queue, requests, now, steps, i, j);
    i
}

proof fn lemma_batch_ids_differ(
    log: Seq<TaskView>,
    now: Instant,
    available: nat,
    batch: Seq<TaskView>,
    picks: Seq<int>,
    a: int,
    b: int,
)
    requires
        is_batch(due_tasks(replay(log), now), available, batch, picks),
        0 <= a < b < batch.len(),
    ensures
        batch[a].task_id != batch[b].task_id,
{
    let due = due_tasks(replay(log), now);
    reading_keeps_the_order_of_entry(log);
    filtering_keeps_the_order(
        replay(log),
        |t: TaskView| t.is_due(now) && !t.is_deleted(),
        entry(log),
    );
    assert(batch[a] == due[picks[a]]);
    assert(batch[b] == due[picks[b]]);
    assert(picks[a] != picks[b]);
    if picks[a] < picks[b] {
        assert(entry(log)(due[picks[a]].task_id) < entry(log)(due[picks[b]].task_id));
    } else {
        assert(entry(log)(due[picks[b]].task_id) < entry(log)(due[picks[a]].task_id));
    }
}

/// Counting one more record gives what a fresh count of the longer log gives.
pub proof fn counting_agrees_with_recounting(log: Seq<TaskView>, record: TaskView)
    ensures
        deletions(log.push(record)) == deletions(log) + if record.is_deleted() {
            1nat
        } else {
            0
        },
        deletions(log) <= log.len(),
{
    reveal(Seq::filter);
    assert(log.push(record).drop_last() =~= log);
    log.lemma_filter_len(|t: TaskView| t.is_deleted());
}

} // verus!
