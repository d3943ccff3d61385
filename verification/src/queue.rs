//! The queue: which tasks are taken in, which are started and when, and what becomes of a task
//! once its execution has ended.
//!
//! The files and the handlers are outside; the functions here take what came back from them and
//! say what is to be done next.

use vstd::hash_map::StringHashMap;
use vstd::hash_set::StringHashSet;
use vstd::prelude::*;

use crate::file_store::FileStore;
use crate::rate_limiter::{RateLimiter, RateTable};
use crate::task::{PriorityTask, RetryableTask};
use crate::text_map::TextMap;
use crate::timestamp::{add_seconds, next_cron_time, utc_now, Timestamp};
use crate::webhook::{webhook_post, WebhookEvent, WebhookPost};
use crate::workers::{Workers, WORKER_PERMITS};

verus! {

use crate::file_store::StoreView;
use crate::path::PathPartView;
use crate::rate_limiter::{after_request, grants_start, lookup, WindowView};
use crate::task::{views, TaskView};
use crate::timestamp::{cron_next, Instant, MAX_SECS};
use crate::webhook::{members, outcome};

/// Seconds that a task waits after its group was refused a start.
pub const DEFER_SECONDS: i64 = 60;

/// The state of a queue.
pub struct QueueView {
    pub name: Seq<char>,
    pub store: StoreView,
    pub limiter: Seq<PathPartView>,
    /// The number of the handler of each task type that has one.
    pub task_handlers: Map<Seq<char>, usize>,
    /// The number of the handler for tasks that failed for the last time, of each task type that
    /// has one.
    pub max_retry_handlers: Map<Seq<char>, usize>,
    /// The payload hash of each task in the store that has one, by the id of the task.
    pub stored_payloads: Map<Seq<char>, Seq<char>>,
    /// The payload hashes of the tasks that are taken in and not in the store yet.
    pub incoming_payloads: Set<Seq<char>>,
    /// The ids of the tasks that are executing.
    pub executing_tasks: Set<Seq<char>>,
}

/// A queue of tasks.
pub struct SnerdQueue {
    pub name: String,
    pub file_store: FileStore,
    pub rate_limiter: RateLimiter,
    task_handlers: StringHashMap<usize>,
    max_retry_handlers: StringHashMap<usize>,
    stored_payloads: TextMap<String>,
    incoming_payloads: StringHashSet,
    workers: Workers,
}

impl View for SnerdQueue {
    type V = QueueView;

    closed spec fn view(&self) -> QueueView {
        QueueView {
            name: self.name@,
            store: self.file_store@,
            limiter: self.rate_limiter@,
            task_handlers: self.task_handlers@,
            max_retry_handlers: self.max_retry_handlers@,
            stored_payloads: self.stored_payloads@,
            incoming_payloads: self.incoming_payloads@,
            executing_tasks: self.workers@,
        }
    }
}

/// The payload hashes of the tasks that are not deleted.
pub open spec fn live_hashes(tasks: Seq<TaskView>) -> Set<Seq<char>> {
    Set::new(
        |hash: Seq<char>|
            exists|i: int|
                0 <= i < tasks.len() && !(#[trigger] tasks[i]).is_deleted()
                    && tasks[i].payload_hash == Some(hash),
    )
}

/// The payload hashes by id once `record` is in the store: it replaces the record of its id.
pub open spec fn with_payload_of(
    payloads: Map<Seq<char>, Seq<char>>,
    record: TaskView,
) -> Map<Seq<char>, Seq<char>> {
    match record.payload_hash {
        Some(hash) => if record.is_deleted() {
            payloads.remove(record.task_id)
        } else {
            payloads.insert(record.task_id, hash)
        },
        None => payloads.remove(record.task_id),
    }
}

/// The payload hashes by id in a store that holds `records`.
pub open spec fn payloads_of(records: Seq<TaskView>) -> Map<Seq<char>, Seq<char>>
    decreases records.len(),
{
    if records.len() == 0 {
        Map::empty()
    } else {
        with_payload_of(payloads_of(records.drop_last()), records.last())
    }
}

impl QueueView {
    /// The queue with `handler` for tasks of `task_type`.
    pub open spec fn with_handler(self, task_type: Seq<char>, handler: usize) -> QueueView {
        QueueView { task_handlers: self.task_handlers.insert(task_type, handler), ..self }
    }

    /// The queue with `handler` for tasks of `task_type` that failed for the last time.
    pub open spec fn with_max_retry_handler(self, task_type: Seq<char>, handler: usize) -> QueueView {
        QueueView { max_retry_handlers: self.max_retry_handlers.insert(task_type, handler), ..self }
    }

    /// The payload hashes of the tasks in the queue: those in the store, and those on their way.
    pub open spec fn active_hashes(self) -> Set<Seq<char>> {
        Set::new(
            |hash: Seq<char>|
                self.incoming_payloads.contains(hash) || self.stored_payloads.contains_value(hash),
        )
    }

    /// Whether a task with the payload of `task` is in the queue already.
    pub open spec fn is_duplicate(self, task: TaskView) -> bool {
        task.payload_hash matches Some(hash) && self.active_hashes().contains(hash)
    }

    /// The queue with the payload of `task` on its way into the store.
    pub open spec fn with_incoming(self, task: TaskView) -> QueueView {
        match task.payload_hash {
            Some(hash) => QueueView {
                incoming_payloads: self.incoming_payloads.insert(hash),
                ..self
            },
            None => self,
        }
    }

    /// The queue with the payload of `task` on its way no more.
    pub open spec fn without_incoming(self, task: TaskView) -> QueueView {
        match task.payload_hash {
            Some(hash) => QueueView {
                incoming_payloads: self.incoming_payloads.remove(hash),
                ..self
            },
            None => self,
        }
    }

    /// The queue with `record` in the store.
    pub open spec fn with_record(self, record: TaskView) -> QueueView {
        QueueView { stored_payloads: with_payload_of(self.stored_payloads, record), ..self }
    }

    /// Whether task `id` can start: it is not executing, and a worker is free.
    pub open spec fn can_start(self, id: Seq<char>) -> bool {
        !self.executing_tasks.contains(id) && self.executing_tasks.len() < WORKER_PERMITS
    }

    /// The queue with task `id` executing.
    pub open spec fn with_claim(self, id: Seq<char>) -> QueueView {
        QueueView { executing_tasks: self.executing_tasks.insert(id), ..self }
    }

    /// The queue with task `id` not executing.
    pub open spec fn without_claim(self, id: Seq<char>) -> QueueView {
        QueueView { executing_tasks: self.executing_tasks.remove(id), ..self }
    }

    /// The queue after task `id` asked for a worker.
    pub open spec fn after_claim(self, id: Seq<char>) -> QueueView {
        if self.can_start(id) {
            self.with_claim(id)
        } else {
            self
        }
    }
}

/// What to do with a task that wants to start.
pub enum StartStep {
    /// Nothing yet: its time has not come.
    Wait,
    /// Ask the rate limiter for a start in `group` under `limit`.
    AskLimiter { group: String, limit: i32 },
    /// Start it.
    Start,
}

/// The value of a [`StartStep`].
pub enum StartStepView {
    Wait,
    AskLimiter { group: Seq<char>, limit: i32 },
    Start,
}

impl View for StartStep {
    type V = StartStepView;

    open spec fn view(&self) -> StartStepView {
        match self {
            StartStep::Wait => StartStepView::Wait,
            StartStep::AskLimiter { group, limit } => StartStepView::AskLimiter {
                group: group@,
                limit: *limit,
            },
            StartStep::Start => StartStepView::Start,
        }
    }
}

/// What to do with a task that the limiter has answered.
pub enum AnswerStep {
    /// Start it.
    Start(RetryableTask),
    /// Save it with its new time.
    Save(RetryableTask),
}

/// Whether `step` is right for `task` after the limiter gave `answer` at `now`.
pub open spec fn is_answer_step(
    task: TaskView,
    answer: Option<bool>,
    now: Instant,
    step: AnswerStep,
) -> bool {
    if answer == Some(true) {
        step matches AnswerStep::Start(t) && t@ == task
    } else {
        step matches AnswerStep::Save(t) && t@ == deferred(task, now)
    }
}

/// The step of a task whose time has come: the limiter is asked for tasks with a group and a
/// limit, and the others start at once.
pub open spec fn start_step_of(task: TaskView) -> StartStepView {
    match (task.rate_limit_group, task.max_per_minute) {
        (Some(group), Some(limit)) => StartStepView::AskLimiter { group, limit },
        _ => StartStepView::Start,
    }
}

/// The step of a task that was saved, at `now`.
pub open spec fn saved_step_of(task: TaskView, now: Instant) -> StartStepView {
    if task.is_due(now) {
        start_step_of(task)
    } else {
        StartStepView::Wait
    }
}

/// The task after its group was refused a start at `now`.
pub open spec fn deferred(task: TaskView, now: Instant) -> TaskView {
    TaskView { retry_after_time: now.plus(DEFER_SECONDS as int), ..task }
}

/// The tasks that are in the store and may run at `now`, in order.
pub open spec fn due_tasks(tasks: Seq<TaskView>, now: Instant) -> Seq<TaskView> {
    tasks.filter(|t: TaskView| t.is_due(now) && !t.is_deleted())
}

/// Whether the task at place `a` goes before the task at place `b`: no smaller score, and the
/// earlier place among equals. A score that is not a number has no place among the others.
pub open spec fn goes_first(due: Seq<TaskView>, a: int, b: int) -> bool {
    let first = due[a].score();
    let second = due[b].score();
    &&& !first.less(second)
    &&& b < a ==> second.less(first) || first.is_nan() || second.is_nan()
}

/// Whether `batch` is what is taken from `due` when `available` workers are free: the tasks at the
/// places `picks`, as many as there are workers for, and none before one that goes first.
pub open spec fn is_batch(
    due: Seq<TaskView>,
    available: nat,
    batch: Seq<TaskView>,
    picks: Seq<int>,
) -> bool {
    &&& batch.len() == if available < due.len() {
        available
    } else {
        due.len()
    }
    &&& picks.len() == batch.len()
    &&& forall|i: int|
        0 <= i < picks.len() ==> {
            &&& 0 <= #[trigger] picks[i] < due.len()
            &&& batch[i] == due[picks[i]]
        }
    &&& forall|i: int, j: int|
        0 <= i < j < picks.len() ==> {
            &&& #[trigger] picks[i] != #[trigger] picks[j]
            &&& goes_first(due, picks[i], picks[j])
        }
    &&& forall|i: int, q: int|
        0 <= i < picks.len() && 0 <= q < due.len() && !picks.contains(q) ==> #[trigger] goes_first(
            due,
            picks[i],
            q,
        )
}

/// The windows of all groups after each of `tasks` that has a group and a limit asked, at `now`.
pub open spec fn windows_after(
    windows: Map<Seq<char>, WindowView>,
    tasks: Seq<TaskView>,
    now: Instant,
) -> Map<Seq<char>, WindowView>
    decreases tasks.len(),
{
    if tasks.len() == 0 {
        windows
    } else {
        let before = windows_after(windows, tasks.drop_last(), now);
        match start_step_of(tasks.last()) {
            StartStepView::AskLimiter { group, limit } => before.insert(
                group,
                after_request(lookup(before, group), limit as int, now),
            ),
            _ => before,
        }
    }
}

/// Whether `task` may start at `now` as far as the limiter is concerned.
pub open spec fn limiter_allows(
    windows: Map<Seq<char>, WindowView>,
    task: TaskView,
    now: Instant,
) -> bool {
    match start_step_of(task) {
        StartStepView::AskLimiter { group, limit } => grants_start(
            lookup(windows, group),
            limit as int,
            now,
        ),
        _ => true,
    }
}

/// Whether `answers` are those that the limiter gives to `tasks` in turn, at `now`.
pub open spec fn are_answers(
    windows: Map<Seq<char>, WindowView>,
    tasks: Seq<TaskView>,
    now: Instant,
    answers: Seq<bool>,
) -> bool {
    &&& answers.len() == tasks.len()
    &&& forall|i: int|
        0 <= i < answers.len() ==> #[trigger] answers[i] == limiter_allows(
            windows_after(windows, tasks.take(i), now),
            tasks[i],
            now,
        )
}

/// Whether a task asks the limiter before it starts.
pub open spec fn asks_limiter(task: TaskView) -> bool {
    start_step_of(task) is AskLimiter
}

/// The answer that goes with the task at place `k`: yes where it does not ask, and otherwise what
/// the limiter answered, which is nothing where it could not.
pub open spec fn answer_for(
    tasks: Seq<TaskView>,
    answers: Option<Seq<bool>>,
    k: int,
) -> Option<bool> {
    if !asks_limiter(tasks[k]) {
        Some(true)
    } else {
        match answers {
            Some(given) => if k < given.len() {
                Some(given[k])
            } else {
                None
            },
            None => None,
        }
    }
}

/// The tasks of a batch, each with its answer.
pub open spec fn requests_of(tasks: Seq<TaskView>, answers: Option<Seq<bool>>) -> Seq<
    (TaskView, Option<bool>),
> {
    Seq::new(tasks.len(), |k: int| (tasks[k], answer_for(tasks, answers, k)))
}

/// The answers themselves.
pub open spec fn answers_of(answers: Option<Vec<bool>>) -> Option<Seq<bool>> {
    match answers {
        Some(given) => Some(given@),
        None => None,
    }
}

/// What to do with a task of a batch.
pub enum BatchStep {
    /// Start it: it has its worker.
    Start(RetryableTask),
    /// Save it with its new time.
    Save(RetryableTask),
    /// Nothing: it is executing already, or no worker is free for it.
    Leave,
}

/// The tasks of a batch, each with the answer of the limiter: `None` where it could not answer.
pub open spec fn request_views(requests: Seq<(RetryableTask, Option<bool>)>) -> Seq<
    (TaskView, Option<bool>),
> {
    requests.map_values(|r: (RetryableTask, Option<bool>)| (r.0@, r.1))
}

/// The queue after each of `requests` that was granted asked for a worker, in turn.
pub open spec fn after_batch(queue: QueueView, requests: Seq<(TaskView, Option<bool>)>) -> QueueView
    decreases requests.len(),
{
    if requests.len() == 0 {
        queue
    } else {
        let before = after_batch(queue, requests.drop_last());
        if requests.last().1 == Some(true) {
            before.after_claim(requests.last().0.task_id)
        } else {
            before
        }
    }
}

/// Whether `step` is right for a task of a batch in the state `queue`.
pub open spec fn is_batch_step(
    queue: QueueView,
    request: (TaskView, Option<bool>),
    now: Instant,
    step: BatchStep,
) -> bool {
    if request.1 != Some(true) {
        step matches BatchStep::Save(t) && t@ == deferred(request.0, now)
    } else if queue.can_start(request.0.task_id) {
        step matches BatchStep::Start(t) && t@ == request.0
    } else {
        step is Leave
    }
}

/// Whether `steps` are right for `requests`, taken in turn.
pub open spec fn are_batch_steps(
    queue: QueueView,
    requests: Seq<(TaskView, Option<bool>)>,
    now: Instant,
    steps: Seq<BatchStep>,
) -> bool {
    &&& steps.len() == requests.len()
    &&& forall|i: int|
        0 <= i < steps.len() ==> is_batch_step(
            after_batch(queue, requests.take(i)),
            requests[i],
            now,
            #[trigger] steps[i],
        )
}

/// Whether every one of `requests` was granted.
pub open spec fn all_granted(requests: Seq<(TaskView, Option<bool>)>) -> bool {
    forall|i: int| 0 <= i < requests.len() ==> (#[trigger] requests[i]).1 == Some(true)
}

/// Tasks that were found due, and the time they were found due at.
pub struct DueBatch {
    pub now: Timestamp,
    pub tasks: Vec<RetryableTask>,
}

/// How a task is executed.
pub enum Execution {
    /// Make this post.
    PostWebhook(WebhookPost),
    /// Run the handler of its type, by its number.
    RunHandler(usize),
    /// Not at all: its type has no handler.
    NoHandler,
}

/// Who is told of a task that failed for the last time.
pub enum DeadLetter {
    /// Make this post.
    PostWebhook(WebhookPost),
    /// Run the handler for such tasks of its type, by its number.
    RunHandler(usize),
    /// Nobody.
    Nobody,
}

/// What becomes of a task whose execution has ended.
pub enum Completion {
    /// It runs again on its schedule: save it.
    Reschedule(RetryableTask),
    /// It is done: delete it.
    Retire(RetryableTask),
    /// It is tried again later: save it.
    Retry(RetryableTask),
    /// It failed for the last time: tell of it, then delete it.
    Abandon(RetryableTask, DeadLetter),
}

/// One step of the work that is left once an execution has ended.
pub enum FinishStep {
    /// Append the record to the log.
    Save(RetryableTask),
    /// Make this post, without waiting for an answer.
    TellWebhook(WebhookPost),
    /// Run the handler of this number for a task that failed for the last time.
    TellHandler { handler: usize, task: RetryableTask },
    /// Append the record that deletes the task of this id to the log.
    Delete(String),
}

/// Whether the last of `steps`, at place `at`, deletes `task`.
pub open spec fn ends_task(steps: Seq<FinishStep>, at: int, task: TaskView) -> bool {
    &&& steps.len() == at + 1
    &&& steps[at] matches FinishStep::Delete(id) && id@ == task.task_id
}

/// Whether `steps` is the work that `completion` calls for, in order.
///
/// A task that is kept is saved, and one that is not is deleted. Who is to be told is told first.
pub open spec fn are_steps(completion: Completion, steps: Seq<FinishStep>) -> bool {
    match completion {
        Completion::Reschedule(task) | Completion::Retry(task) => {
            &&& steps.len() == 1
            &&& steps[0] matches FinishStep::Save(t) && t@ == task@
        },
        Completion::Retire(task) => ends_task(steps, 0, task@),
        Completion::Abandon(task, letter) => match letter {
            DeadLetter::PostWebhook(post) => {
                &&& ends_task(steps, 1, task@)
                &&& steps[0] matches FinishStep::TellWebhook(made) && made.url@ == post.url@
                    && made.event == post.event && members(made.payload) == members(post.payload)
            },
            DeadLetter::RunHandler(number) => {
                &&& ends_task(steps, 1, task@)
                &&& steps[0] matches FinishStep::TellHandler { handler, task: told } && handler
                    == number && told@ == task@
            },
            DeadLetter::Nobody => ends_task(steps, 0, task@),
        },
    }
}

/// The task on its way to the next run of its schedule.
pub open spec fn rescheduled(task: TaskView, next: Instant) -> TaskView {
    TaskView {
        execute_at: next,
        retry_count: 0,
        last_error_obj: None,
        last_job_error: None,
        ..task
    }
}

/// The next run after `now` of a task with a schedule.
pub open spec fn next_run(task: TaskView, now: Instant) -> Option<Instant> {
    match task.cron_expression {
        Some(expression) => cron_next(expression, now),
        None => None,
    }
}

/// Whether the end of an execution can be dealt with at `now`: the times that it calls for lie
/// within the calendar.
pub open spec fn can_finish(task: TaskView, result: Result<(), Seq<char>>, now: Instant) -> bool {
    match result {
        Ok(_) => task.cron_expression is Some ==> now.secs < MAX_SECS,
        Err(_) => task.retry_count < task.max_retries ==> now.can_add(
            task.retry_after_hours.hours_as_seconds(),
        ),
    }
}

/// What is told of a task that failed for the last time, and to whom.
pub open spec fn is_dead_letter(queue: QueueView, task: TaskView, letter: DeadLetter) -> bool {
    match task.webhook_url {
        Some(address) => {
            &&& letter matches DeadLetter::PostWebhook(post)
            &&& post.is_for(address, WebhookEvent::MaxRetriesReached, task)
        },
        None => if queue.max_retry_handlers.contains_key(task.task_type) {
            letter == DeadLetter::RunHandler(queue.max_retry_handlers[task.task_type])
        } else {
            letter is Nobody
        },
    }
}

/// What becomes of `task` when its execution ends with success, its next run being `next`.
pub open spec fn is_success(
    task: TaskView,
    next: Option<Instant>,
    completion: Completion,
) -> bool {
    match next {
        Some(time) => completion matches Completion::Reschedule(t) && t@ == rescheduled(task, time),
        None => completion matches Completion::Retire(t) && t@ == task,
    }
}

/// What becomes of `task` when its execution ends with `error` at `now`.
pub open spec fn is_failure(
    queue: QueueView,
    task: TaskView,
    error: Seq<char>,
    now: Instant,
    completion: Completion,
) -> bool {
    if task.retry_count < task.max_retries {
        completion matches Completion::Retry(t) && t@ == task.failed(Some(error), now)
    } else {
        completion matches Completion::Abandon(t, letter) && t@ == task && is_dead_letter(
            queue,
            task,
            letter,
        )
    }
}

/// What becomes of `task` when its execution ends with `result` at `now`.
pub open spec fn is_completion(
    queue: QueueView,
    task: TaskView,
    result: Result<(), Seq<char>>,
    now: Instant,
    completion: Completion,
) -> bool {
    match result {
        Ok(_) => is_success(task, next_run(task, now), completion),
        Err(error) => is_failure(queue, task, error, now, completion),
    }
}

/// The place of the task that goes first.
fn most_urgent(heap: &Vec<PriorityTask>) -> (best: usize)
    requires
        heap@.len() > 0,
    ensures
        best < heap@.len(),
        forall|k: int|
            0 <= k < heap@.len() ==> !heap@[best as int]@.score().less(
                (#[trigger] heap@[k])@.score(),
            ),
        forall|k: int|
            0 <= k < best ==> {
                ||| (#[trigger] heap@[k])@.score().less(heap@[best as int]@.score())
                ||| heap@[k]@.score().is_nan()
                ||| heap@[best as int]@.score().is_nan()
            },
{
    let mut best: usize = 0;
    let mut i: usize = 1;
    while i < heap.len()
        invariant
            best < i <= heap@.len(),
            forall|k: int|
                0 <= k < i ==> !heap@[best as int]@.score().less((#[trigger] heap@[k])@.score()),
            forall|k: int|
                0 <= k < best ==> {
                    ||| (#[trigger] heap@[k])@.score().less(heap@[best as int]@.score())
                    ||| heap@[k]@.score().is_nan()
                    ||| heap@[best as int]@.score().is_nan()
                },
        decreases heap.len() - i,
    {
        if heap[i].outranks(&heap[best]) {
            best = i;
        }
        i = i + 1;
    }
    best
}

/// Notes the payload of a record: it replaces that of the record of its id.
fn set_payload_of(payloads: &mut TextMap<String>, record: &RetryableTask)
    ensures
        final(payloads)@ == with_payload_of(old(payloads)@, record@),
{
    match &record.payload_hash {
        Some(hash) => {
            if record.deleted_at.is_some() {
                payloads.remove(record.task_id.as_str());
            } else {
                payloads.insert(record.task_id.as_str(), hash.clone());
            }
        },
        None => {
            payloads.remove(record.task_id.as_str());
        },
    }
}

impl SnerdQueue {
    /// A queue over a store that holds `tasks`.
    pub fn new(
        name: &str,
        file_store: FileStore,
        rate_limiter: RateLimiter,
        tasks: &Vec<RetryableTask>,
    ) -> (queue: SnerdQueue)
        ensures
            queue@ == (QueueView {
                name: name@,
                store: file_store@,
                limiter: rate_limiter@,
                task_handlers: Map::empty(),
                max_retry_handlers: Map::empty(),
                stored_payloads: payloads_of(views(tasks@)),
                incoming_payloads: Set::empty(),
                executing_tasks: Set::empty(),
            }),
    {
        let mut stored_payloads: TextMap<String> = TextMap::new();
        let ghost all = views(tasks@);
        let mut i: usize = 0;
        assert(all.take(0) =~= Seq::<TaskView>::empty());
        while i < tasks.len()
            invariant
                all == views(tasks@),
                0 <= i <= tasks@.len(),
                stored_payloads@ == payloads_of(all.take(i as int)),
            decreases tasks.len() - i,
        {
            assert(all.take(i + 1).drop_last() =~= all.take(i as int));
            assert(all.take(i + 1).last() == tasks@[i as int]@);
            set_payload_of(&mut stored_payloads, &tasks[i]);
            i = i + 1;
        }
        assert(all.take(tasks@.len() as int) =~= all);
        SnerdQueue {
            name: name.to_string(),
            file_store,
            rate_limiter,
            task_handlers: StringHashMap::new(),
            max_retry_handlers: StringHashMap::new(),
            stored_payloads,
            incoming_payloads: StringHashSet::new(),
            workers: Workers::new(),
        }
    }

    /// Registers the handler of number `handler` for tasks of `task_type`, in place of any other.
    pub fn register_task_handler(&mut self, task_type: &str, handler: usize)
        ensures
            final(self)@ == old(self)@.with_handler(task_type@, handler),
    {
        self.task_handlers.insert(task_type.to_string(), handler);
    }

    /// Registers the handler of number `handler` for tasks of `task_type` that failed for the last
    /// time, in place of any other.
    pub fn register_max_retry_handler(&mut self, task_type: &str, handler: usize)
        ensures
            final(self)@ == old(self)@.with_max_retry_handler(task_type@, handler),
    {
        self.max_retry_handlers.insert(task_type.to_string(), handler);
    }

    /// Whether the payload hash `hash` is that of a task in the queue.
    fn is_active(&self, hash: &String) -> (r: bool)
        ensures
            r == self@.active_hashes().contains(hash@),
    {
        if self.incoming_payloads.contains(hash.as_str()) {
            return true;
        }
        let entries = self.stored_payloads.entries();
        let mut i: usize = 0;
        while i < entries.len()
            invariant
                0 <= i <= entries@.len(),
                forall|k: int| 0 <= k < i ==> #[trigger] entries@[k].1@ != hash@,
                forall|k: int|
                    0 <= k < entries@.len() ==> {
                        &&& self.stored_payloads@.contains_key((#[trigger] entries@[k]).0@)
                        &&& self.stored_payloads@[entries@[k].0@] == entries@[k].1@
                    },
            decreases entries.len() - i,
        {
            if entries[i].1 == *hash {
                assert(self.stored_payloads@.dom().contains(entries@[i as int].0@));
                assert(self.stored_payloads@.contains_value(hash@));
                return true;
            }
            i = i + 1;
        }
        proof {
            if self.stored_payloads@.contains_value(hash@) {
                let id = choose|id: Seq<char>| #[trigger]
                    self.stored_payloads@.dom().contains(id) && self.stored_payloads@[id] == hash@;
                assert(self.stored_payloads@.contains_key(id));
                let k = choose|k: int| 0 <= k < entries@.len() && #[trigger] entries@[k].0@ == id;
                assert(entries@[k].1@ != hash@);
            }
        }
        false
    }

    /// Takes a task in. The result is the record to save; a duplicate is dropped.
    ///
    /// Until it is settled, the payload of the record counts as one in the queue.
    pub fn enqueue(&mut self, task: RetryableTask) -> (record: Option<RetryableTask>)
        ensures
            record is None == old(self)@.is_duplicate(task@),
            record matches Some(r) ==> r@ == (TaskView { deleted_at: None, ..task@ }),
            final(self)@ == if old(self)@.is_duplicate(task@) {
                old(self)@
            } else {
                old(self)@.with_incoming(task@)
            },
    {
        let mut task = task;
        match &task.payload_hash {
            Some(hash) => {
                if self.is_active(hash) {
                    return None;
                }
                self.incoming_payloads.insert(hash.clone());
            },
            None => {},
        }
        task.deleted_at = None;
        Some(task)
    }

    /// Notes a record that was appended to the log: its payload takes the place of the one that
    /// its id had there, and a deletion leaves none.
    pub fn saved(&mut self, record: &RetryableTask)
        ensures
            final(self)@ == old(self)@.with_record(record@),
    {
        set_payload_of(&mut self.stored_payloads, record);
    }

    /// Ends the way of a task into the store, be it saved now or not.
    pub fn settle(&mut self, task: &RetryableTask)
        ensures
            final(self)@ == old(self)@.without_incoming(task@),
    {
        match &task.payload_hash {
            Some(hash) => {
                self.incoming_payloads.remove(hash.as_str());
            },
            None => {},
        }
    }

    /// What to do with a task that was saved just now.
    pub fn saved_step(task: &RetryableTask) -> (step: StartStep)
        ensures
            exists|now: Instant|
                now.is_clock_reading() && step@ == #[trigger] saved_step_of(task@, now),
    {
        let now = utc_now();
        let step = SnerdQueue::saved_step_at(task, &now);
        assert(now@.is_clock_reading());
        step
    }

    /// What to do at `now` with a task that was saved.
    pub fn saved_step_at(task: &RetryableTask, now: &Timestamp) -> (step: StartStep)
        ensures
            step@ == saved_step_of(task@, now@),
    {
        if task.is_due(now) {
            SnerdQueue::start_step(task)
        } else {
            StartStep::Wait
        }
    }

    /// What to do with a task whose time has come.
    pub fn start_step(task: &RetryableTask) -> (step: StartStep)
        ensures
            step@ == start_step_of(task@),
    {
        match &task.rate_limit_group {
            Some(group) => match task.max_per_minute {
                Some(limit) => StartStep::AskLimiter { group: group.clone(), limit },
                None => StartStep::Start,
            },
            None => StartStep::Start,
        }
    }

    /// What to do with a task now that the limiter has answered: `None` where it could not.
    ///
    /// The result is `None` where the task would have to wait beyond the calendar.
    pub fn answered(task: RetryableTask, answer: Option<bool>) -> (step: Option<AnswerStep>)
        ensures
            answer == Some(true) ==> step is Some,
            exists|now: Instant|
                {
                    &&& now.is_clock_reading()
                    &&& step is Some == (answer == Some(true) || #[trigger] now.can_add(
                        DEFER_SECONDS as int,
                    ))
                    &&& step matches Some(s) ==> is_answer_step(task@, answer, now, s)
                },
    {
        let now = utc_now();
        let step = SnerdQueue::answered_at(task, answer, now);
        let ghost can = now@.can_add(DEFER_SECONDS as int);
        assert(step is Some == (answer == Some(true) || can));
        step
    }

    /// What to do with a task that the limiter answered at `now`: it starts if the answer was yes,
    /// and waits otherwise.
    ///
    /// The result is `None` where it would have to wait beyond the calendar.
    pub fn answered_at(task: RetryableTask, answer: Option<bool>, now: Timestamp) -> (step: Option<
        AnswerStep,
    >)
        ensures
            step is Some == (answer == Some(true) || now@.can_add(DEFER_SECONDS as int)),
            step matches Some(s) ==> is_answer_step(task@, answer, now@, s),
    {
        let granted = match answer {
            Some(granted) => granted,
            None => false,
        };
        if granted {
            Some(AnswerStep::Start(task))
        } else if now.can_add(DEFER_SECONDS) {
            let mut task = task;
            task.retry_after_time = add_seconds(now, DEFER_SECONDS);
            Some(AnswerStep::Save(task))
        } else {
            None
        }
    }

    /// How many workers are free.
    pub fn free_workers(&self) -> (n: usize)
        ensures
            self@.executing_tasks.finite(),
            self@.executing_tasks.len() <= WORKER_PERMITS,
            n == WORKER_PERMITS - self@.executing_tasks.len(),
    {
        self.workers.free()
    }

    /// Claims a worker for a task: true unless the task is executing already or no worker is free.
    pub fn claim(&mut self, task_id: &str) -> (claimed: bool)
        ensures
            claimed == old(self)@.can_start(task_id@),
            final(self)@ == old(self)@.after_claim(task_id@),
    {
        self.workers.claim(task_id)
    }

    /// The tasks to start now, most urgent first, when `available` workers are free.
    pub fn process_due_tasks(tasks: Vec<RetryableTask>, available: usize) -> (batch: DueBatch)
        ensures
            batch.now@.is_clock_reading(),
            exists|picks: Seq<int>|
                is_batch(
                    due_tasks(views(tasks@), batch.now@),
                    available as nat,
                    views(batch.tasks@),
                    picks,
                ),
    {
        let now = utc_now();
        let ghost due = due_tasks(views(tasks@), now@);
        let batch = DueBatch { now, tasks: SnerdQueue::due_batch(tasks, &now, available) };
        proof {
            let picks = choose|picks: Seq<int>|
                is_batch(due, available as nat, views(batch.tasks@), picks);
            assert(is_batch(due, available as nat, views(batch.tasks@), picks));
        }
        batch
    }

    /// The tasks to start at `now`, most urgent first, when `available` workers are free.
    pub fn due_batch(tasks: Vec<RetryableTask>, now: &Timestamp, available: usize) -> (batch: Vec<
        RetryableTask,
    >)
        ensures
            exists|picks: Seq<int>|
                is_batch(
                    due_tasks(views(tasks@), now@),
                    available as nat,
                    views(batch@),
                    picks,
                ),
    {
        let ghost due = due_tasks(views(tasks@), now@);
        let mut heap = SnerdQueue::collect_due(tasks, now);
        let mut batch: Vec<RetryableTask> = Vec::new();
        let ghost mut places: Seq<int> = Seq::new(due.len(), |k: int| k);
        let ghost mut picks: Seq<int> = Seq::empty();
        let mut taken: usize = 0;
        assert forall|q: int| 0 <= q < due.len() implies #[trigger] picks.contains(q)
            || places.contains(q) by {
            assert(places[q] == q);
        }
        while taken < available && heap.len() > 0
            invariant
                taken <= available,
                batch@.len() == taken,
                picks.len() == taken,
                places.len() == heap@.len(),
                picks.len() + places.len() == due.len(),
                forall|k: int|
                    0 <= k < heap@.len() ==> {
                        &&& 0 <= #[trigger] places[k] < due.len()
                        &&& heap@[k]@ == due[places[k]]
                    },
                forall|a: int, b: int|
                    0 <= a < b < places.len() ==> #[trigger] places[a] < #[trigger] places[b],
                forall|i: int|
                    0 <= i < picks.len() ==> {
                        &&& 0 <= #[trigger] picks[i] < due.len()
                        &&& batch@[i]@ == due[picks[i]]
                    },
                forall|i: int, j: int|
                    0 <= i < j < picks.len() ==> {
                        &&& #[trigger] picks[i] != #[trigger] picks[j]
                        &&& goes_first(due, picks[i], picks[j])
                    },
                forall|i: int, k: int|
                    0 <= i < picks.len() && 0 <= k < places.len() ==> {
                        &&& #[trigger] picks[i] != #[trigger] places[k]
                        &&& goes_first(due, picks[i], places[k])
                    },
                forall|q: int|
                    0 <= q < due.len() ==> #[trigger] picks.contains(q) || places.contains(q),
            decreases available - taken,
        {
            let best: usize = most_urgent(&heap);
            let ghost old_heap = heap@;
            let ghost old_picks = picks;
            let ghost old_places = places;
            let PriorityTask(task) = heap.remove(best);
            batch.push(task);
            taken = taken + 1;
            proof {
                let pick = old_places[best as int];
                picks = old_picks.push(pick);
                places = old_places.remove(best as int);
                assert forall|k: int| 0 <= k < old_places.len() && k != best implies {
                    &&& pick != #[trigger] old_places[k]
                    &&& goes_first(due, pick, old_places[k])
                } by {
                    assert(old_heap[k]@ == due[old_places[k]]);
                    assert(old_heap[best as int]@ == due[pick]);
                }
                assert forall|k: int| 0 <= k < heap@.len() implies {
                    &&& 0 <= #[trigger] places[k] < due.len()
                    &&& heap@[k]@ == due[places[k]]
                } by {
                    if k < best {
                        assert(places[k] == old_places[k]);
                    } else {
                        assert(places[k] == old_places[k + 1]);
                    }
                }
                assert forall|i: int, k: int| 0 <= i < picks.len() && 0 <= k < places.len() implies {
                    &&& #[trigger] picks[i] != #[trigger] places[k]
                    &&& goes_first(due, picks[i], places[k])
                } by {
                    let from = if k < best {
                        k
                    } else {
                        k + 1
                    };
                    assert(places[k] == old_places[from]);
                    if i < old_picks.len() {
                        assert(picks[i] == old_picks[i]);
                    }
                }
                assert forall|i: int, j: int| 0 <= i < j < picks.len() implies {
                    &&& #[trigger] picks[i] != #[trigger] picks[j]
                    &&& goes_first(due, picks[i], picks[j])
                } by {
                    assert(picks[i] == old_picks[i]);
                    if j < old_picks.len() {
                        assert(picks[j] == old_picks[j]);
                    } else {
                        assert(picks[j] == old_places[best as int]);
                    }
                }
                assert forall|i: int| 0 <= i < picks.len() implies {
                    &&& 0 <= #[trigger] picks[i] < due.len()
                    &&& batch@[i]@ == due[picks[i]]
                } by {
                    if i < old_picks.len() {
                        assert(picks[i] == old_picks[i]);
                    }
                }
                assert forall|q: int| 0 <= q < due.len() implies #[trigger] picks.contains(q)
                    || places.contains(q) by {
                    if old_picks.contains(q) {
                        let i = choose|i: int| 0 <= i < old_picks.len() && old_picks[i] == q;
                        assert(picks[i] == q);
                    } else {
                        assert(old_places.contains(q));
                        let k = choose|k: int| 0 <= k < old_places.len() && old_places[k] == q;
                        if k == best {
                            assert(picks.last() == q);
                        } else if k < best {
                            assert(places[k] == q);
                        } else {
                            assert(places[k - 1] == q);
                        }
                    }
                }
            }
        }
        proof {
            let all = views(batch@);
            assert forall|i: int, q: int|
                0 <= i < picks.len() && 0 <= q < due.len() && !picks.contains(
                    q,
                ) implies #[trigger] goes_first(due, picks[i], q) by {
                assert(picks.contains(q) || places.contains(q));
                let k = choose|k: int| 0 <= k < places.len() && places[k] == q;
                assert(picks[i] != places[k]);
            }
            assert(is_batch(due, available as nat, all, picks));
        }
        batch
    }

    /// Whether one of the tasks asks the limiter before it starts.
    pub fn batch_asks(tasks: &Vec<RetryableTask>) -> (r: bool)
        ensures
            r == exists|k: int| 0 <= k < tasks@.len() && asks_limiter((#[trigger] tasks@[k])@),
    {
        let mut i: usize = 0;
        while i < tasks.len()
            invariant
                0 <= i <= tasks@.len(),
                forall|k: int| 0 <= k < i ==> !asks_limiter((#[trigger] tasks@[k])@),
            decreases tasks.len() - i,
        {
            match SnerdQueue::start_step(&tasks[i]) {
                StartStep::AskLimiter { .. } => {
                    assert(asks_limiter(tasks@[i as int]@));
                    return true;
                },
                _ => {},
            }
            i = i + 1;
        }
        false
    }

    /// The answers of the limiter to the tasks of a batch, each asked in turn now.
    pub fn batch_answers(&self, windows: &mut RateTable, tasks: &Vec<RetryableTask>) -> (answers:
        Vec<bool>)
        ensures
            exists|now: Instant|
                {
                    &&& now.is_clock_reading()
                    &&& #[trigger] are_answers(old(windows)@, views(tasks@), now, answers@)
                    &&& final(windows)@ == windows_after(old(windows)@, views(tasks@), now)
                },
    {
        let now = utc_now();
        let answers = self.batch_answers_at(windows, tasks, now);
        assert(now@.is_clock_reading());
        assert(are_answers(old(windows)@, views(tasks@), now@, answers@));
        answers
    }

    /// The answers of the limiter to the tasks of a batch, each asked in turn at `now`.
    pub fn batch_answers_at(
        &self,
        windows: &mut RateTable,
        tasks: &Vec<RetryableTask>,
        now: Timestamp,
    ) -> (answers: Vec<bool>)
        ensures
            are_answers(old(windows)@, views(tasks@), now@, answers@),
            final(windows)@ == windows_after(old(windows)@, views(tasks@), now@),
    {
        let ghost first = windows@;
        let ghost all = views(tasks@);
        let mut answers: Vec<bool> = Vec::new();
        let mut i: usize = 0;
        assert(all.take(0) =~= Seq::<TaskView>::empty());
        while i < tasks.len()
            invariant
                all == views(tasks@),
                0 <= i <= tasks@.len(),
                answers@.len() == i,
                windows@ == windows_after(first, all.take(i as int), now@),
                forall|k: int|
                    0 <= k < i ==> #[trigger] answers@[k] == limiter_allows(
                        windows_after(first, all.take(k), now@),
                        all[k],
                        now@,
                    ),
            decreases tasks.len() - i,
        {
            assert(all.take(i + 1).drop_last() =~= all.take(i as int));
            assert(all.take(i + 1).last() == tasks@[i as int]@);
            assert(all[i as int] == tasks@[i as int]@);
            let answer = match SnerdQueue::start_step(&tasks[i]) {
                StartStep::AskLimiter { group, limit } => self.rate_limiter.check_and_increment_at(
                    windows,
                    group.as_str(),
                    limit,
                    now,
                ),
                _ => true,
            };
            answers.push(answer);
            i = i + 1;
        }
        assert(all.take(i as int) =~= all);
        answers
    }

    /// The tasks of a batch, each with its answer. `answers` is what the limiter answered to the
    /// batch, `None` where it could not.
    pub fn batch_requests(tasks: Vec<RetryableTask>, answers: Option<Vec<bool>>) -> (requests: Vec<
        (RetryableTask, Option<bool>),
    >)
        ensures
            request_views(requests@) == requests_of(views(tasks@), answers_of(answers)),
    {
        let ghost all = views(tasks@);
        let ghost given = answers_of(answers);
        let mut pending = crate::table::reversed(tasks);
        let mut requests: Vec<(RetryableTask, Option<bool>)> = Vec::new();
        assert(views(pending@) =~= all.reverse());
        while pending.len() > 0
            invariant
                pending@.len() <= all.len(),
                views(pending@) == all.skip(all.len() - pending@.len()).reverse(),
                requests@.len() == all.len() - pending@.len(),
                given == answers_of(answers),
                forall|k: int|
                    0 <= k < requests@.len() ==> {
                        &&& (#[trigger] requests@[k]).0@ == all[k]
                        &&& requests@[k].1 == answer_for(all, given, k)
                    },
            decreases pending.len(),
        {
            let ghost done = requests@.len() as int;
            let ghost before = views(pending@);
            match pending.pop() {
                Some(task) => {
                    assert(views(pending@) =~= before.drop_last());
                    assert(task@ == before.last());
                    assert(task@ == all[done]);
                    assert(views(pending@) =~= all.skip(done + 1).reverse());
                    let k: usize = requests.len();
                    let answer: Option<bool> = match SnerdQueue::start_step(&task) {
                        StartStep::AskLimiter { .. } => match &answers {
                            Some(given) => if k < given.len() {
                                Some(given[k])
                            } else {
                                None
                            },
                            None => None,
                        },
                        _ => Some(true),
                    };
                    requests.push((task, answer));
                },
                None => {},
            }
        }
        assert(request_views(requests@) =~= requests_of(all, given));
        requests
    }

    /// Starts the tasks of a batch at `now`: each with the answer of the limiter, `None` where it
    /// could not answer. Those that were granted take the free workers in turn; the others wait.
    ///
    /// The result is `None` where one would have to wait beyond the calendar.
    pub fn start_batch(
        &mut self,
        requests: Vec<(RetryableTask, Option<bool>)>,
        now: Timestamp,
    ) -> (steps: Option<Vec<BatchStep>>)
        ensures
            steps is Some == (all_granted(request_views(requests@)) || now@.can_add(
                DEFER_SECONDS as int,
            )),
            steps matches Some(s) ==> {
                &&& are_batch_steps(old(self)@, request_views(requests@), now@, s@)
                &&& final(self)@ == after_batch(old(self)@, request_views(requests@))
            },
            steps is None ==> final(self)@ == old(self)@,
    {
        let ghost all = request_views(requests@);
        let ghost first = self@;
        if !now.can_add(DEFER_SECONDS) && !SnerdQueue::granted_all(&requests) {
            return None;
        }
        let mut pending = crate::table::reversed(requests);
        let mut steps: Vec<BatchStep> = Vec::new();
        assert(request_views(pending@) =~= all.reverse());
        assert(all.take(0) =~= Seq::<(TaskView, Option<bool>)>::empty());
        while pending.len() > 0
            invariant
                pending@.len() <= all.len(),
                request_views(pending@) == all.skip(all.len() - pending@.len()).reverse(),
                steps@.len() == all.len() - pending@.len(),
                self@ == after_batch(first, all.take(steps@.len() as int)),
                all_granted(all) || now@.can_add(DEFER_SECONDS as int),
                forall|k: int|
                    0 <= k < steps@.len() ==> is_batch_step(
                        after_batch(first, all.take(k)),
                        all[k],
                        now@,
                        #[trigger] steps@[k],
                    ),
            decreases pending.len(),
        {
            let ghost done = steps@.len() as int;
            let ghost before = request_views(pending@);
            match pending.pop() {
                Some((task, answer)) => {
                    assert(request_views(pending@) =~= before.drop_last());
                    assert((task@, answer) == before.last());
                    assert((task@, answer) == all[done]);
                    assert(request_views(pending@) =~= all.skip(done + 1).reverse());
                    assert(all.take(done + 1).drop_last() =~= all.take(done));
                    assert(all.take(done + 1).last() == all[done]);
                    let step = match SnerdQueue::answered_at(task, answer, now) {
                        Some(AnswerStep::Start(task)) => if self.claim(task.task_id.as_str()) {
                            BatchStep::Start(task)
                        } else {
                            BatchStep::Leave
                        },
                        Some(AnswerStep::Save(task)) => BatchStep::Save(task),
                        None => BatchStep::Leave,
                    };
                    steps.push(step);
                },
                None => {},
            }
        }
        assert(all.take(all.len() as int) =~= all);
        Some(steps)
    }

    fn granted_all(requests: &Vec<(RetryableTask, Option<bool>)>) -> (r: bool)
        ensures
            r == all_granted(request_views(requests@)),
    {
        let ghost all = request_views(requests@);
        let mut i: usize = 0;
        while i < requests.len()
            invariant
                all == request_views(requests@),
                0 <= i <= requests@.len(),
                forall|k: int| 0 <= k < i ==> (#[trigger] all[k]).1 == Some(true),
            decreases requests.len() - i,
        {
            let granted = match requests[i].1 {
                Some(granted) => granted,
                None => false,
            };
            if !granted {
                assert(all[i as int].1 != Some(true));
                return false;
            }
            i = i + 1;
        }
        true
    }

    /// The tasks that are in the store and may run at `now`.
    fn collect_due(tasks: Vec<RetryableTask>, now: &Timestamp) -> (heap: Vec<PriorityTask>)
        ensures
            heap@.map_values(|t: PriorityTask| t@) == due_tasks(views(tasks@), now@),
            heap@.len() == due_tasks(views(tasks@), now@).len(),
            forall|k: int|
                0 <= k < heap@.len() ==> (#[trigger] heap@[k])@ == due_tasks(
                    views(tasks@),
                    now@,
                )[k],
    {
        let ghost all = views(tasks@);
        let mut pending = crate::table::reversed(tasks);
        let mut heap: Vec<PriorityTask> = Vec::new();
        assert(views(pending@) =~= all.reverse());
        assert(all.take(0) =~= Seq::<TaskView>::empty());
        reveal(Seq::filter);
        while pending.len() > 0
            invariant
                pending@.len() <= all.len(),
                views(pending@) == all.skip(all.len() - pending@.len()).reverse(),
                heap@.map_values(|t: PriorityTask| t@) == due_tasks(
                    all.take(all.len() - pending@.len()),
                    now@,
                ),
            decreases pending.len(),
        {
            reveal(Seq::filter);
            let ghost done = all.len() - pending@.len();
            let ghost before = views(pending@);
            let ghost collected = heap@.map_values(|t: PriorityTask| t@);
            match pending.pop() {
                Some(task) => {
                    assert(views(pending@) =~= before.drop_last());
                    assert(task@ == before.last());
                    assert(task@ == all[done]);
                    assert(views(pending@) =~= all.skip(done + 1).reverse());
                    assert(all.take(done + 1).drop_last() =~= all.take(done));
                    assert(all.take(done + 1).last() == task@);
                    if task.is_due(now) && task.deleted_at.is_none() {
                        heap.push(PriorityTask(task));
                        assert(heap@.map_values(|t: PriorityTask| t@) =~= collected.push(task@));
                    }
                },
                None => {},
            }
        }
        assert(all.take(all.len() as int) =~= all);
        proof {
            let collected = heap@.map_values(|t: PriorityTask| t@);
            assert(collected.len() == heap@.len());
            assert forall|k: int| 0 <= k < heap@.len() implies (#[trigger] heap@[k])@ == due_tasks(
                all,
                now@,
            )[k] by {
                assert(collected[k] == heap@[k]@);
            }
        }
        heap
    }

    /// How a task is executed: by its webhook, or by the handler of its type.
    pub fn execute_task(&self, task: &RetryableTask) -> (execution: Execution)
        ensures
            match task@.webhook_url {
                Some(address) => {
                    &&& execution matches Execution::PostWebhook(post)
                    &&& post.is_for(address, WebhookEvent::Execute, task@)
                },
                None => if self@.task_handlers.contains_key(task@.task_type) {
                    execution == Execution::RunHandler(self@.task_handlers[task@.task_type])
                } else {
                    execution is NoHandler
                },
            },
    {
        match &task.webhook_url {
            Some(url) => Execution::PostWebhook(
                webhook_post(task, url.as_str(), WebhookEvent::Execute),
            ),
            None => match self.task_handlers.get(task.task_type.as_str()) {
                Some(handler) => Execution::RunHandler(*handler),
                None => Execution::NoHandler,
            },
        }
    }

    /// What becomes of a task whose execution has ended just now.
    ///
    /// The result is `None` where that calls for a time beyond the calendar.
    pub fn finish(&self, task: RetryableTask, result: Result<(), String>) -> (completion: Option<
        Completion,
    >)
        ensures
            exists|now: Instant|
                {
                    &&& now.is_clock_reading()
                    &&& completion is Some == #[trigger] can_finish(task@, outcome(result), now)
                    &&& completion matches Some(c) ==> is_completion(
                        self@,
                        task@,
                        outcome(result),
                        now,
                        c,
                    )
                    &&& completion matches Some(Completion::Reschedule(t)) ==> now.before(
                        t@.execute_at,
                    )
                },
    {
        let now = utc_now();
        let completion = self.finish_at(task, result, now);
        assert(completion is Some == can_finish(task@, outcome(result), now@));
        completion
    }

    /// What becomes of a task whose execution ended at `now`.
    ///
    /// The result is `None` where that calls for a time beyond the calendar.
    pub fn finish_at(&self, task: RetryableTask, result: Result<(), String>, now: Timestamp) -> (
    completion: Option<Completion>)
        ensures
            completion is Some == can_finish(task@, outcome(result), now@),
            completion matches Some(c) ==> is_completion(
                self@,
                task@,
                outcome(result),
                now@,
                c,
            ),
            completion matches Some(Completion::Reschedule(t)) ==> now@.before(t@.execute_at),
    {
        match result {
            Ok(_) => {
                let next = match &task.cron_expression {
                    Some(expression) => {
                        if now.secs() >= MAX_SECS {
                            return None;
                        }
                        next_cron_time(expression.as_str(), now)
                    },
                    None => None,
                };
                Some(SnerdQueue::after_success(task, next))
            },
            Err(error) => self.after_failure(task, error, now),
        }
    }

    /// What becomes of a task that succeeded, its next run being `next`.
    pub fn after_success(task: RetryableTask, next: Option<Timestamp>) -> (completion: Completion)
        ensures
            is_success(task@, crate::task::time_of(next), completion),
    {
        match next {
            Some(time) => {
                let mut task = task;
                task.execute_at = time;
                task.retry_count = 0;
                task.last_error_obj = None;
                task.last_job_error = None;
                Completion::Reschedule(task)
            },
            None => Completion::Retire(task),
        }
    }

    /// What becomes of a task that failed with `error` at `now`.
    ///
    /// The result is `None` where its next attempt lies beyond the calendar.
    pub fn after_failure(&self, task: RetryableTask, error: String, now: Timestamp) -> (completion:
        Option<Completion>)
        ensures
            completion is Some == can_finish(task@, Err(error@), now@),
            completion matches Some(c) ==> is_failure(self@, task@, error@, now@, c),
    {
        if task.retry_count < task.max_retries {
            let mut task = task;
            if task.update_retry_config_at(Some(error), now) {
                Some(Completion::Retry(task))
            } else {
                None
            }
        } else {
            let letter = match &task.webhook_url {
                Some(url) => DeadLetter::PostWebhook(
                    webhook_post(&task, url.as_str(), WebhookEvent::MaxRetriesReached),
                ),
                None => match self.max_retry_handlers.get(task.task_type.as_str()) {
                    Some(handler) => DeadLetter::RunHandler(*handler),
                    None => DeadLetter::Nobody,
                },
            };
            Some(Completion::Abandon(task, letter))
        }
    }

    /// The work that is left once an execution has ended, in order.
    pub fn finish_steps(completion: Completion) -> (steps: Vec<FinishStep>)
        ensures
            are_steps(completion, steps@),
    {
        let mut steps: Vec<FinishStep> = Vec::new();
        match completion {
            Completion::Reschedule(task) => {
                steps.push(FinishStep::Save(task));
            },
            Completion::Retry(task) => {
                steps.push(FinishStep::Save(task));
            },
            Completion::Retire(task) => {
                steps.push(FinishStep::Delete(task.task_id));
            },
            Completion::Abandon(task, letter) => {
                match letter {
                    DeadLetter::PostWebhook(post) => {
                        steps.push(FinishStep::TellWebhook(post));
                    },
                    DeadLetter::RunHandler(handler) => {
                        steps.push(FinishStep::TellHandler { handler, task: task.clone() });
                    },
                    DeadLetter::Nobody => {},
                }
                steps.push(FinishStep::Delete(task.task_id));
            },
        }
        steps
    }

    /// Ends the execution of a task, and gives its worker free.
    pub fn release(&mut self, task_id: &str)
        ensures
            final(self)@ == old(self)@.without_claim(task_id@),
    {
        self.workers.release(task_id);
    }
}

} // verus!
