//! What holds of a task through its life, from one attempt and one run to the next.

use vstd::prelude::*;

use crate::task::RetryableTask;

verus! {

use crate::queue::{
    all_granted, answers_of, are_batch_steps, are_steps, can_finish, deferred, is_answer_step, is_completion,
    request_views, rescheduled, AnswerStep, BatchStep, Completion, DeadLetter, FinishStep,
    QueueView,
};
use crate::task::TaskView;
use crate::timestamp::{cron_next, Instant};
use crate::webhook::{members, outcome, payload_members, WebhookEvent, WebhookPost};

/// What a post holds for a task: its id, its type and its data under their names, and no more.
pub proof fn post_holds_id_type_and_data(
    post: WebhookPost,
    url: Seq<char>,
    event: WebhookEvent,
    task: TaskView,
)
    requires
        post.is_for(url, event, task),
    ensures
        post.url@ == url,
        post.event == event,
        members(post.payload).dom() == set!["taskId"@, "taskType"@, "data"@],
        members(post.payload)["taskId"@] == Some(task.task_id),
        members(post.payload)["taskType"@] == Some(task.task_type),
        members(post.payload)["data"@] == Some(task.task_data),
        WebhookEvent::Execute.spec_name() == "Execute"@,
        WebhookEvent::MaxRetriesReached.spec_name() == "MaxRetriesReached"@,
{
    reveal_strlit("taskId");
    reveal_strlit("taskType");
    reveal_strlit("data");
    assert("taskId"@.len() == 6 && "taskType"@.len() == 8 && "data"@.len() == 4);
    assert(payload_members(task).dom() =~= set!["taskId"@, "taskType"@, "data"@]);
}

/// The outcome of an execution is its result, with the text of the error.
pub proof fn outcome_is_the_result(result: Result<(), String>)
    ensures
        result is Ok <==> outcome(result) is Ok,
        result matches Err(error) ==> outcome(result) == Err::<(), Seq<char>>(error@),
{
}

/// A success ends a task that has no schedule, or whose schedule names no further time.
pub proof fn success_without_next_run_ends_the_task(
    queue: QueueView,
    task: TaskView,
    now: Instant,
    completion: Completion,
)
    requires
        is_completion(queue, task, Ok(()), now, completion),
        forall|expression: Seq<char>|
            task.cron_expression == Some(expression) ==> (#[trigger] cron_next(expression, now))
                is None,
    ensures
        completion matches Completion::Retire(t) && t@ == task,
{
}

/// A success of a task on a schedule sets the time of its next run, all its retries and no errors,
/// and changes nothing else: schedule, webhook, payload, limits and urgency stay.
pub proof fn success_on_a_schedule_keeps_the_task(
    queue: QueueView,
    task: TaskView,
    expression: Seq<char>,
    now: Instant,
    completion: Completion,
)
    requires
        is_completion(queue, task, Ok(()), now, completion),
        task.cron_expression == Some(expression),
        cron_next(expression, now) is Some,
    ensures
        completion matches Completion::Reschedule(t) && {
            let after = t@;
            &&& after.execute_at == cron_next(expression, now).unwrap()
            &&& after.retry_count == 0
            &&& after.last_error_obj is None
            &&& after.last_job_error is None
            &&& after.task_id == task.task_id
            &&& after.task_type == task.task_type
            &&& after.task_data == task.task_data
            &&& after.max_retries == task.max_retries
            &&& after.retry_after_hours == task.retry_after_hours
            &&& after.retry_after_time == task.retry_after_time
            &&& after.rate_limit_group == task.rate_limit_group
            &&& after.max_per_minute == task.max_per_minute
            &&& after.auto_dedupe == task.auto_dedupe
            &&& after.urgency_score == task.urgency_score
            &&& after.payload_hash == task.payload_hash
            &&& after.cron_expression == task.cron_expression
            &&& after.webhook_url == task.webhook_url
            &&& after.max_execution_seconds == task.max_execution_seconds
            &&& after.deleted_at == task.deleted_at
            &&& after.created_at == task.created_at
            &&& after.updated_at == task.updated_at
        },
{
}

/// A failure with retries left keeps the task but for its count, its delay, its error and the time
/// of the failure.
pub proof fn failure_with_retries_left_keeps_the_task(
    queue: QueueView,
    task: TaskView,
    error: Seq<char>,
    now: Instant,
    completion: Completion,
)
    requires
        is_completion(queue, task, Err(error), now, completion),
        task.retry_count < task.max_retries,
    ensures
        completion matches Completion::Retry(t) && {
            let after = t@;
            &&& after.retry_count == task.retry_count + 1
            &&& after.retry_after_time.secs == now.secs + task.retry_after_hours.hours_as_seconds()
            &&& after.retry_after_time.nanos == now.nanos
            &&& after.last_error_obj == Some(error)
            &&& after.last_job_error is Some
            &&& after.last_job_error.unwrap().error_string == error
            &&& after.last_job_error.unwrap().retry_worthy
            &&& after.updated_at == now
            &&& after.task_id == task.task_id
            &&& after.task_type == task.task_type
            &&& after.task_data == task.task_data
            &&& after.max_retries == task.max_retries
            &&& after.retry_after_hours == task.retry_after_hours
            &&& after.rate_limit_group == task.rate_limit_group
            &&& after.max_per_minute == task.max_per_minute
            &&& after.auto_dedupe == task.auto_dedupe
            &&& after.urgency_score == task.urgency_score
            &&& after.payload_hash == task.payload_hash
            &&& after.execute_at == task.execute_at
            &&& after.cron_expression == task.cron_expression
            &&& after.webhook_url == task.webhook_url
            &&& after.max_execution_seconds == task.max_execution_seconds
            &&& after.deleted_at == task.deleted_at
            &&& after.created_at == task.created_at
        },
{
}

/// The failure that uses the retries up gives the task up, on a schedule or not. Its webhook is
/// told where it has one, else the handler of its type where there is one, else nobody.
pub proof fn last_failure_gives_the_task_up(
    queue: QueueView,
    task: TaskView,
    error: Seq<char>,
    now: Instant,
    completion: Completion,
)
    requires
        is_completion(queue, task, Err(error), now, completion),
        task.retry_count >= task.max_retries,
    ensures
        completion matches Completion::Abandon(t, letter) && {
            &&& t@ == task
            &&& task.webhook_url matches Some(address) ==> {
                &&& letter matches DeadLetter::PostWebhook(post)
                &&& post.url@ == address
                &&& post.event == WebhookEvent::MaxRetriesReached
                &&& members(post.payload).dom() == set!["taskId"@, "taskType"@, "data"@]
                &&& members(post.payload)["taskId"@] == Some(task.task_id)
                &&& members(post.payload)["taskType"@] == Some(task.task_type)
                &&& members(post.payload)["data"@] == Some(task.task_data)
            }
            &&& task.webhook_url is None && queue.max_retry_handlers.contains_key(task.task_type)
                ==> letter == DeadLetter::RunHandler(queue.max_retry_handlers[task.task_type])
            &&& task.webhook_url is None && !queue.max_retry_handlers.contains_key(task.task_type)
                ==> letter is Nobody
        },
{
    match completion {
        Completion::Abandon(_, DeadLetter::PostWebhook(post)) => {
            if task.webhook_url is Some {
                post_holds_id_type_and_data(
                    post,
                    task.webhook_url.unwrap(),
                    WebhookEvent::MaxRetriesReached,
                    task,
                );
            }
        },
        _ => {},
    }
}

/// The end of an execution can be dealt with unless it calls for a time beyond the calendar: the
/// next run of a schedule in the last second of it, or an attempt after it.
pub proof fn end_can_be_dealt_with(
    task: TaskView,
    result: Result<(), Seq<char>>,
    now: Instant,
)
    ensures
        result is Ok && task.cron_expression is None ==> can_finish(task, result, now),
        result is Ok && task.cron_expression is Some ==> (can_finish(task, result, now) <==> now.secs
            < 8_210_266_876_799),
        result is Err && task.retry_count >= task.max_retries ==> can_finish(task, result, now),
        result is Err && task.retry_count < task.max_retries ==> (can_finish(task, result, now)
            <==> now.nanos < 1_000_000_000 && -8_334_601_228_800 <= now.secs
            + task.retry_after_hours.hours_as_seconds() <= 8_210_266_876_799),
{
}

/// A task that goes on is saved as it is, and that is all. One that does not is deleted, and before
/// that whoever is to be told of it is told, once.
pub proof fn end_is_saved_or_deleted(completion: Completion, steps: Seq<FinishStep>)
    requires
        are_steps(completion, steps),
    ensures
        completion matches Completion::Reschedule(task) ==> steps.len() == 1 && (
        steps[0] matches FinishStep::Save(t) && t@ == task@),
        completion matches Completion::Retry(task) ==> steps.len() == 1 && (
        steps[0] matches FinishStep::Save(t) && t@ == task@),
        completion matches Completion::Retire(task) ==> steps.len() == 1 && (
        steps[0] matches FinishStep::Delete(id) && id@ == task@.task_id),
        completion matches Completion::Abandon(task, letter) ==> {
            &&& letter is Nobody ==> steps.len() == 1
            &&& !(letter is Nobody) ==> steps.len() == 2
            &&& steps.last() matches FinishStep::Delete(id) && id@ == task@.task_id
            &&& letter matches DeadLetter::PostWebhook(post) ==> {
                &&& steps[0] matches FinishStep::TellWebhook(made)
                &&& made.url@ == post.url@
                &&& made.event == post.event
                &&& members(made.payload) == members(post.payload)
            }
            &&& letter matches DeadLetter::RunHandler(number) ==> {
                &&& steps[0] matches FinishStep::TellHandler { handler, task: told }
                &&& handler == number
                &&& told@ == task@
            }
        },
{
}

/// A task that is put off waits sixty seconds from `now`, and nothing else of it changes.
pub proof fn deferral_changes_only_the_time(task: TaskView, now: Instant)
    ensures
        deferred(task, now) == (TaskView {
            retry_after_time: Instant { secs: now.secs + 60, nanos: now.nanos },
            ..task
        }),
{
}

/// A task that the limiter answered starts, as it is, exactly if the answer was yes.
pub proof fn only_yes_starts_a_task(
    task: TaskView,
    answer: Option<bool>,
    now: Instant,
    step: AnswerStep,
)
    requires
        is_answer_step(task, answer, now, step),
    ensures
        step is Start <==> answer == Some(true),
        step matches AnswerStep::Start(t) ==> t@ == task,
        step matches AnswerStep::Save(t) ==> t@ == (TaskView {
            retry_after_time: Instant { secs: now.secs + 60, nanos: now.nanos },
            ..task
        }),
{
}

/// Whether a task in the state `before` can be saved next in the state `after`: it failed with
/// retries left, succeeded on a schedule, or was put off.
pub open spec fn is_saved_as(before: TaskView, after: TaskView) -> bool {
    ||| exists|
        queue: QueueView,
        result: Result<(), Seq<char>>,
        now: Instant,
        completion: Completion,
    | #[trigger]
        is_completion(queue, before, result, now, completion) && ((
        completion matches Completion::Retry(t) && t@ == after) || (
        completion matches Completion::Reschedule(t) && t@ == after))
    ||| exists|answer: Option<bool>, now: Instant, step: AnswerStep| #[trigger]
        is_answer_step(before, answer, now, step) && (step matches AnswerStep::Save(t) && t@
            == after)
    ||| exists|
        queue: QueueView,
        requests: Seq<(TaskView, Option<bool>)>,
        now: Instant,
        steps: Seq<BatchStep>,
        i: int,
    |
        #![trigger are_batch_steps(queue, requests, now, steps), steps[i]]
        are_batch_steps(queue, requests, now, steps) && 0 <= i < steps.len() && requests[i].0
            == before && (steps[i] matches BatchStep::Save(t) && t@ == after)
}

/// However often a task fails, runs on its schedule or is put off, it stays the same work: what it
/// is, how and where it runs, how often it is tried and with what delay, its group and its limit,
/// its urgency, its schedule and its payload hash. So a task with a webhook is posted to the same
/// address on every attempt, and a task of some urgency keeps its place by it.
pub proof fn task_stays_the_same_work(states: Seq<TaskView>, k: int)
    requires
        forall|i: int|
            0 < i < states.len() ==> is_saved_as(states[i - 1], #[trigger] states[i]),
        0 <= k < states.len(),
    ensures
        states[k].task_id == states[0].task_id,
        states[k].task_type == states[0].task_type,
        states[k].task_data == states[0].task_data,
        states[k].webhook_url == states[0].webhook_url,
        states[k].cron_expression == states[0].cron_expression,
        states[k].max_retries == states[0].max_retries,
        states[k].retry_after_hours == states[0].retry_after_hours,
        states[k].rate_limit_group == states[0].rate_limit_group,
        states[k].max_per_minute == states[0].max_per_minute,
        states[k].auto_dedupe == states[0].auto_dedupe,
        states[k].urgency_score == states[0].urgency_score,
        states[k].score() == states[0].score(),
        states[k].payload_hash == states[0].payload_hash,
        states[k].max_execution_seconds == states[0].max_execution_seconds,
        states[k].deleted_at == states[0].deleted_at,
        states[k].created_at == states[0].created_at,
    decreases k,
{
    if k > 0 {
        task_stays_the_same_work(states, k - 1);
        assert(is_saved_as(states[k - 1], states[k]));
    }
}

/// A task that keeps failing is tried again with the same webhook, schedule, limits and urgency,
/// one more retry counted each time, after its own delay from each failure.
pub proof fn every_retry_is_of_the_same_task(
    queues: Seq<QueueView>,
    attempts: Seq<TaskView>,
    errors: Seq<Seq<char>>,
    times: Seq<Instant>,
    completions: Seq<Completion>,
    k: int,
)
    requires
        attempts.len() == completions.len() + 1,
        forall|i: int|
            0 <= i < completions.len() ==> is_completion(
                queues[i],
                attempts[i],
                Err(errors[i]),
                times[i],
                #[trigger] completions[i],
            ) && (completions[i] matches Completion::Retry(t) ==> t@ == attempts[i + 1]),
        attempts[0].retry_count + completions.len() <= attempts[0].max_retries,
        0 <= k < completions.len(),
    ensures
        completions[k] is Retry,
        attempts[k + 1].retry_count == attempts[0].retry_count + k + 1,
        attempts[k + 1].retry_after_time.secs == times[k].secs
            + attempts[0].retry_after_hours.hours_as_seconds(),
        attempts[k + 1].retry_after_time.nanos == times[k].nanos,
        attempts[k + 1].last_error_obj == Some(errors[k]),
        attempts[k + 1].webhook_url == attempts[0].webhook_url,
        attempts[k + 1].cron_expression == attempts[0].cron_expression,
        attempts[k + 1].rate_limit_group == attempts[0].rate_limit_group,
        attempts[k + 1].max_per_minute == attempts[0].max_per_minute,
        attempts[k + 1].urgency_score == attempts[0].urgency_score,
        attempts[k + 1].retry_after_hours == attempts[0].retry_after_hours,
        attempts[k + 1].max_retries == attempts[0].max_retries,
        attempts[k + 1].max_execution_seconds == attempts[0].max_execution_seconds,
        attempts[k + 1].execute_at == attempts[0].execute_at,
        attempts[k + 1].task_id == attempts[0].task_id,
        attempts[k + 1].task_type == attempts[0].task_type,
        attempts[k + 1].task_data == attempts[0].task_data,
        attempts[k + 1].payload_hash == attempts[0].payload_hash,
    decreases k,
{
    if k > 0 {
        every_retry_is_of_the_same_task(queues, attempts, errors, times, completions, k - 1);
    }
    failure_with_retries_left_keeps_the_task(
        queues[k],
        attempts[k],
        errors[k],
        times[k],
        completions[k],
    );
}

/// A task on a schedule that succeeds again and again is rescheduled each time, to the time that
/// its own expression gives after that success.
pub proof fn schedule_goes_on(
    queues: Seq<QueueView>,
    runs: Seq<TaskView>,
    expression: Seq<char>,
    times: Seq<Instant>,
    completions: Seq<Completion>,
    k: int,
)
    requires
        runs.len() == completions.len() + 1,
        runs[0].cron_expression == Some(expression),
        forall|i: int|
            0 <= i < completions.len() ==> is_completion(
                queues[i],
                runs[i],
                Ok(()),
                times[i],
                #[trigger] completions[i],
            ) && (completions[i] matches Completion::Reschedule(t) ==> t@ == runs[i + 1])
                && cron_next(expression, times[i]) is Some,
        0 <= k < completions.len(),
    ensures
        completions[k] is Reschedule,
        runs[k + 1].execute_at == cron_next(expression, times[k]).unwrap(),
        runs[k + 1].retry_count == 0,
        runs[k + 1].cron_expression == Some(expression),
        runs[k + 1].webhook_url == runs[0].webhook_url,
        runs[k + 1].task_id == runs[0].task_id,
        runs[k + 1].task_type == runs[0].task_type,
        runs[k + 1].task_data == runs[0].task_data,
        runs[k + 1].max_retries == runs[0].max_retries,
        runs[k + 1].retry_after_hours == runs[0].retry_after_hours,
        runs[k + 1].rate_limit_group == runs[0].rate_limit_group,
        runs[k + 1].max_per_minute == runs[0].max_per_minute,
        runs[k + 1].urgency_score == runs[0].urgency_score,
        runs[k + 1].payload_hash == runs[0].payload_hash,
        runs[k + 1].max_execution_seconds == runs[0].max_execution_seconds,
    decreases k,
{
    if k > 0 {
        schedule_goes_on(queues, runs, expression, times, completions, k - 1);
    }
    success_on_a_schedule_keeps_the_task(queues[k], runs[k], expression, times[k], completions[k]);
}

/// A task that is rescheduled is what it was but for the time, the count and the errors.
pub proof fn rescheduling_changes_only_the_run(task: TaskView, next: Instant)
    ensures
        rescheduled(task, next) == (TaskView {
            execute_at: next,
            retry_count: 0,
            last_error_obj: None,
            last_job_error: None,
            ..task
        }),
{
}

/// What is handed on with the tasks of a batch is what was given.
pub proof fn requests_are_kept(
    requests: Seq<(RetryableTask, Option<bool>)>,
    answers: Option<Vec<bool>>,
)
    ensures
        request_views(requests).len() == requests.len(),
        forall|i: int|
            0 <= i < requests.len() ==> request_views(requests)[i] == ((#[trigger] requests[i]).0@,
                requests[i].1),
        answers is None <==> answers_of(answers) is None,
        answers matches Some(given) ==> answers_of(answers) == Some(given@),
        all_granted(request_views(requests)) <==> forall|i: int|
            0 <= i < requests.len() ==> (#[trigger] requests[i]).1 == Some(true),
{
    let values = request_views(requests);
    if all_granted(values) {
        assert forall|i: int| 0 <= i < requests.len() implies (#[trigger] requests[i]).1 == Some(
            true,
        ) by {
            assert(values[i].1 == Some(true));
        }
    }
}

} // verus!
