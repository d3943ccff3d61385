use snerdmq::double::Double;
use snerdmq::file_store::FileStore;
use snerdmq::queue::{
    AnswerStep, BatchStep, Completion, DeadLetter, Execution, FinishStep, SnerdQueue, StartStep,
};
use snerdmq::rate_limiter::{RateLimiter, RateTable};
use snerdmq::task::RetryableTask;
use snerdmq::timestamp::{Timestamp, MAX_SECS};
use snerdmq::webhook::WebhookEvent;
use snerdmq::workers::WORKER_PERMITS;

fn at(secs: i64) -> Timestamp {
    Timestamp::new(secs, 0).unwrap()
}

fn double(value: f64) -> Double {
    Double { bits: value.to_bits() }
}

fn queue(tasks: &Vec<RetryableTask>) -> SnerdQueue {
    SnerdQueue::new("test", FileStore::new(tasks), RateLimiter::new(&Vec::new()), tasks)
}

fn task(id: &str) -> RetryableTask {
    RetryableTask::new_at(
        id.to_string(), "type".to_string(), "data".to_string(), 2, double(1.0), None, None, None,
        None, None, None, None, None, at(1_000),
    )
}

fn deduped(id: &str, data: &str) -> RetryableTask {
    RetryableTask::new_at(
        id.to_string(), "type".to_string(), data.to_string(), 2, double(1.0), None, None,
        Some(true), None, None, None, None, None, at(1_000),
    )
}

fn ids(tasks: &[RetryableTask]) -> Vec<String> {
    tasks.iter().map(|t| t.task_id.clone()).collect()
}

/// Takes a task in and saves it.
fn take_in(q: &mut SnerdQueue, task: RetryableTask) -> bool {
    match q.enqueue(task) {
        Some(record) => {
            q.saved(&record);
            q.settle(&record);
            true
        }
        None => false,
    }
}

#[test]
fn duplicate_is_dropped_until_the_first_is_deleted() {
    let mut q = queue(&Vec::new());
    assert!(take_in(&mut q, deduped("a", "x")));
    assert!(!take_in(&mut q, deduped("b", "x")));
    assert!(take_in(&mut q, deduped("c", "y")));
    let mut deleted = deduped("a", "x");
    deleted.mark_deleted_at(at(5));
    q.saved(&deleted);
    assert!(take_in(&mut q, deduped("e", "x")));
    assert!(!take_in(&mut q, deduped("f", "y")));
}

#[test]
fn payload_on_its_way_is_in_the_queue() {
    let mut q = queue(&Vec::new());
    let first = q.enqueue(deduped("a", "x")).unwrap();
    assert!(q.enqueue(deduped("b", "x")).is_none());
    q.settle(&task("unrelated"));
    assert!(q.enqueue(deduped("c", "x")).is_none());
    // It could not be saved.
    q.settle(&first);
    assert!(take_in(&mut q, deduped("d", "x")));
}

#[test]
fn payload_of_a_replaced_record_is_let_go() {
    let mut q = queue(&Vec::new());
    assert!(take_in(&mut q, deduped("x", "one")));
    assert!(take_in(&mut q, deduped("x", "two")));
    assert!(!take_in(&mut q, deduped("y", "two")));
    assert!(take_in(&mut q, deduped("y", "one")));
    assert!(take_in(&mut q, task("x")));
    assert!(take_in(&mut q, deduped("z", "two")));
}

#[test]
fn different_payloads_are_not_confused() {
    let with = |id: &str, kind: &str, data: &str| {
        RetryableTask::new_at(
            id.to_string(), kind.to_string(), data.to_string(), 3, double(1.0), None, None,
            Some(true), None, None, None, None, None, at(1_000),
        )
    };
    let mut q = queue(&Vec::new());
    assert!(take_in(&mut q, with("1", "ab", "c")));
    assert!(take_in(&mut q, with("2", "a", "bc")));
    assert!(!take_in(&mut q, with("3", "ab", "c")));
}

#[test]
fn one_of_like_tasks_is_taken() {
    let mut q = queue(&Vec::new());
    let taken = (0..20).filter(|i| q.enqueue(deduped(&format!("{}", i), "same")).is_some()).count();
    assert_eq!(taken, 1);
}

#[test]
fn tasks_without_a_hash_are_never_dropped() {
    let mut q = queue(&Vec::new());
    assert!(q.enqueue(task("a")).is_some());
    assert!(q.enqueue(task("a")).is_some());
}

#[test]
fn enqueued_task_is_not_deleted() {
    let mut q = queue(&Vec::new());
    let mut t = task("a");
    t.mark_deleted_at(at(5));
    let record = q.enqueue(t).unwrap();
    assert!(record.deleted_at.is_none());
    assert_eq!(record.updated_at, at(5));
}

#[test]
fn payloads_in_the_store_survive_a_restart() {
    let mut deleted = deduped("b", "y");
    deleted.mark_deleted_at(at(1));
    let mut q = queue(&vec![deduped("a", "x"), deleted, task("c")]);
    assert!(q.enqueue(deduped("d", "x")).is_none());
    assert!(q.enqueue(deduped("e", "y")).is_some());
    assert_eq!(q.name, "test");
}

#[test]
fn saved_task_starts_when_its_time_has_come() {
    let mut t = task("a");
    assert!(matches!(SnerdQueue::saved_step_at(&t, &at(999)), StartStep::Wait));
    assert!(matches!(SnerdQueue::saved_step_at(&t, &at(1_000)), StartStep::Start));
    t.execute_at = at(2_000);
    assert!(matches!(SnerdQueue::saved_step_at(&t, &at(1_999)), StartStep::Wait));
    assert!(matches!(SnerdQueue::saved_step_at(&t, &at(2_000)), StartStep::Start));
    t.retry_after_time = at(3_000);
    assert!(matches!(SnerdQueue::saved_step_at(&t, &at(2_000)), StartStep::Wait));
    assert!(matches!(SnerdQueue::saved_step(&t), StartStep::Start));
    t.execute_at = at(8_000_000_000_000);
    assert!(matches!(SnerdQueue::saved_step(&t), StartStep::Wait));
}

#[test]
fn limiter_is_asked_for_groups_with_a_limit() {
    let mut t = task("a");
    t.rate_limit_group = Some("g".to_string());
    assert!(matches!(SnerdQueue::start_step(&t), StartStep::Start));
    t.max_per_minute = Some(50);
    match SnerdQueue::start_step(&t) {
        StartStep::AskLimiter { group, limit } => assert_eq!((group.as_str(), limit), ("g", 50)),
        _ => panic!("the limiter is not asked"),
    }
    t.rate_limit_group = None;
    assert!(matches!(SnerdQueue::start_step(&t), StartStep::Start));
}

#[test]
fn refused_task_waits_a_minute() {
    match SnerdQueue::answered_at(task("a"), Some(true), at(MAX_SECS)) {
        Some(AnswerStep::Start(t)) => assert_eq!(t.retry_after_time, at(1_000)),
        _ => panic!("a granted task waits"),
    }
    for answer in [Some(false), None] {
        match SnerdQueue::answered_at(task("a"), answer, Timestamp::new(5_000, 9).unwrap()) {
            Some(AnswerStep::Save(t)) => {
                assert_eq!(t.retry_after_time, Timestamp::new(5_060, 9).unwrap());
                assert_eq!(t.updated_at, at(1_000));
                assert!(!t.is_due(&at(5_060)));
                assert!(t.is_due(&at(5_061)));
            }
            _ => panic!("a refused task starts"),
        }
        assert!(SnerdQueue::answered_at(task("a"), answer, at(MAX_SECS - 60)).is_some());
        assert!(SnerdQueue::answered_at(task("a"), answer, at(MAX_SECS - 59)).is_none());
    }
    let before = chrono::Utc::now().timestamp();
    match SnerdQueue::answered(task("a"), None) {
        Some(AnswerStep::Save(t)) => assert!(t.retry_after_time.secs() >= before + 60),
        _ => panic!("a refused task starts"),
    }
    assert!(matches!(SnerdQueue::answered(task("a"), Some(true)), Some(AnswerStep::Start(_))));
}

#[test]
fn task_is_claimed_once() {
    let mut q = queue(&Vec::new());
    assert!(q.claim("a"));
    assert!(!q.claim("a"));
    assert!(q.claim("b"));
    q.release("b");
    assert!(!q.claim("a"));
    q.release("a");
    assert!(q.claim("a"));
}

#[test]
fn workers_are_never_exceeded() {
    let mut q = queue(&Vec::new());
    assert_eq!(WORKER_PERMITS, 100);
    for i in 0..100 {
        assert_eq!(q.free_workers(), 100 - i);
        assert!(q.claim(&format!("{}", i)));
    }
    assert_eq!(q.free_workers(), 0);
    assert!(!q.claim("late"));
    q.release("7");
    assert_eq!(q.free_workers(), 1);
    assert!(q.claim("late"));
    assert!(!q.claim("7"));
    q.release("unknown");
    assert_eq!(q.free_workers(), 0);
}

fn limited(id: &str) -> RetryableTask {
    let mut t = task(id);
    t.rate_limit_group = Some("g".to_string());
    t.max_per_minute = Some(2);
    t
}

#[test]
fn batch_is_answered_in_turn() {
    let q = queue(&Vec::new());
    let mut windows = RateTable::new();
    let tasks = vec![limited("a"), task("free"), limited("b"), limited("c")];
    let answers = q.batch_answers_at(&mut windows, &tasks, at(5_000));
    assert_eq!(answers, vec![true, true, true, false]);
    assert_eq!(windows.get("g").unwrap().grants, vec![at(5_000), at(5_000)]);
    assert_eq!(q.batch_answers_at(&mut windows, &tasks, at(5_059)), vec![false, true, false, false]);
    assert_eq!(q.batch_answers_at(&mut windows, &tasks, at(5_060)), vec![true, true, true, false]);
}

#[test]
fn batch_is_answered_now() {
    let q = queue(&Vec::new());
    let mut windows = RateTable::new();
    let before = chrono::Utc::now().timestamp();
    assert_eq!(q.batch_answers(&mut windows, &vec![limited("a")]), vec![true]);
    assert!(windows.get("g").unwrap().grants[0].secs() >= before);
}

#[test]
fn each_task_of_a_batch_gets_its_answer() {
    let tasks = || vec![limited("a"), task("free"), limited("b")];
    let paired = |answers: Option<Vec<bool>>| -> Vec<(String, Option<bool>)> {
        SnerdQueue::batch_requests(tasks(), answers)
            .into_iter()
            .map(|(t, answer)| (t.task_id, answer))
            .collect()
    };
    let expected = |a, b, c| {
        vec![("a".to_string(), a), ("free".to_string(), b), ("b".to_string(), c)]
    };
    let all = paired(Some(vec![true, false, false]));
    assert_eq!(all, expected(Some(true), Some(true), Some(false)));
    assert_eq!(paired(None), expected(None, Some(true), None));
    assert_eq!(paired(Some(vec![false])), expected(Some(false), Some(true), None));
    assert!(SnerdQueue::batch_asks(&tasks()));
    assert!(!SnerdQueue::batch_asks(&vec![task("free")]));
    assert!(!SnerdQueue::batch_asks(&Vec::new()));
}

#[test]
fn batch_takes_the_free_workers_in_turn() {
    let mut q = queue(&Vec::new());
    for i in 0..97 {
        assert!(q.claim(&format!("{}", i)));
    }
    assert!(q.claim("busy"));
    let requests = vec![
        (task("a"), Some(true)), (task("busy"), Some(true)), (task("refused"), Some(false)),
        (task("unanswered"), None), (task("b"), Some(true)), (task("late"), Some(true)),
    ];
    let steps = q.start_batch(requests, at(5_000)).unwrap();
    assert!(matches!(&steps[0], BatchStep::Start(t) if t.task_id == "a"));
    assert!(matches!(&steps[1], BatchStep::Leave));
    assert!(matches!(&steps[2], BatchStep::Save(t) if t.retry_after_time == at(5_060)));
    assert!(matches!(&steps[3], BatchStep::Save(t) if t.retry_after_time == at(5_060)));
    assert!(matches!(&steps[4], BatchStep::Start(t) if t.task_id == "b"));
    assert!(matches!(&steps[5], BatchStep::Leave));
    assert_eq!(steps.len(), 6);
    assert_eq!(q.free_workers(), 0);
    q.release("a");
    assert!(q.claim("late"));
    q.release("b");
    assert!(q.start_batch(vec![(task("x"), Some(true)), (task("y"), None)], at(MAX_SECS)).is_none());
    assert_eq!(q.free_workers(), 1);
    assert!(q.start_batch(vec![(task("x"), Some(true))], at(MAX_SECS)).is_some());
}

#[test]
fn tasks_that_were_put_off_keep_their_turn() {
    let mut put_off = task("a");
    put_off.retry_after_time = at(1_060);
    let log = vec![task("a"), task("b"), put_off];
    let batch = SnerdQueue::due_batch(FileStore::read_tasks(log), &at(2_000), 1);
    assert_eq!(ids(&batch), vec!["a"]);
}

fn scored(id: &str, score: Option<f64>) -> RetryableTask {
    let mut t = task(id);
    t.urgency_score = score.map(double);
    t
}

#[test]
fn most_urgent_tasks_go_first() {
    let tasks = vec![
        scored("plain1", None), scored("low", Some(-0.5)), scored("top", Some(0.99)),
        scored("plain2", Some(0.0)), scored("high", Some(0.95)), scored("plain3", None),
    ];
    let all = SnerdQueue::due_batch(tasks.clone(), &at(1_000), 100);
    assert_eq!(ids(&all), vec!["top", "high", "plain1", "plain2", "plain3", "low"]);
    let some = SnerdQueue::due_batch(tasks.clone(), &at(1_000), 3);
    assert_eq!(ids(&some), vec!["top", "high", "plain1"]);
    assert!(SnerdQueue::due_batch(tasks, &at(1_000), 0).is_empty());
    assert!(SnerdQueue::due_batch(Vec::new(), &at(1_000), 5).is_empty());
}

#[test]
fn scores_that_are_no_numbers_do_not_disturb_the_others() {
    let tasks = vec![
        scored("a", Some(1.0)), scored("nan", Some(f64::NAN)), scored("b", Some(2.0)),
        scored("c", Some(f64::INFINITY)),
    ];
    let order = ids(&SnerdQueue::due_batch(tasks, &at(1_000), 9));
    let numbers: Vec<String> = order.iter().filter(|i| *i != "nan").cloned().collect();
    assert_eq!(order.len(), 4);
    assert_eq!(numbers, vec!["c", "b", "a"]);
}

#[test]
fn only_due_tasks_are_taken() {
    let mut later = task("later");
    later.execute_at = at(9_000);
    let mut waiting = task("waiting");
    waiting.retry_after_time = at(9_000);
    let mut deleted = task("deleted");
    deleted.mark_deleted_at(at(1));
    let tasks = vec![later, task("due"), waiting, deleted];
    assert_eq!(ids(&SnerdQueue::due_batch(tasks.clone(), &at(8_999), 9)), vec!["due"]);
    assert_eq!(ids(&SnerdQueue::due_batch(tasks.clone(), &at(9_000), 9)), vec!["later", "due", "waiting"]);
    let before = chrono::Utc::now().timestamp();
    let batch = SnerdQueue::process_due_tasks(tasks, 2);
    assert_eq!(ids(&batch.tasks), vec!["later", "due"]);
    assert!(batch.now.secs() >= before);
}

#[test]
fn webhook_goes_before_handlers() {
    let mut q = queue(&Vec::new());
    let mut t = task("a");
    assert!(matches!(q.execute_task(&t), Execution::NoHandler));
    q.register_task_handler("other", 4);
    assert!(matches!(q.execute_task(&t), Execution::NoHandler));
    q.register_task_handler("type", 5);
    assert!(matches!(q.execute_task(&t), Execution::RunHandler(5)));
    q.register_task_handler("type", 6);
    q.register_max_retry_handler("type", 7);
    assert!(matches!(q.execute_task(&t), Execution::RunHandler(6)));
    t.webhook_url = Some("http://hook".to_string());
    match q.execute_task(&t) {
        Execution::PostWebhook(post) => {
            assert_eq!(post.url, "http://hook");
            assert_eq!(post.event, WebhookEvent::Execute);
            assert_eq!(post.payload.get("taskId").unwrap().as_str(), Some("a"));
        }
        _ => panic!("the webhook is passed over"),
    }
}

#[test]
fn finished_task_is_deleted() {
    let q = queue(&Vec::new());
    let done = q.finish_at(task("a"), Ok(()), at(MAX_SECS)).unwrap();
    assert!(matches!(&done, Completion::Retire(t) if t.task_id == "a"));
    let steps = SnerdQueue::finish_steps(done);
    assert_eq!(steps.len(), 1);
    assert!(matches!(&steps[0], FinishStep::Delete(id) if id == "a"));
}

#[test]
fn scheduled_task_runs_again() {
    let q = queue(&Vec::new());
    let mut t = task("a");
    t.cron_expression = Some("0 0 0 1 1 * 2030".to_string());
    assert!(t.update_retry_config_at(Some("earlier".to_string()), at(1_500)));
    assert!(q.finish_at(t.clone(), Ok(()), at(MAX_SECS)).is_none());
    let done = q.finish_at(t, Ok(()), at(1_700_000_000)).unwrap();
    match &done {
        Completion::Reschedule(t) => {
            assert_eq!(t.execute_at, at(1_893_456_000));
            assert_eq!(t.retry_count, 0);
            assert!(t.last_error_obj.is_none() && t.last_job_error.is_none());
            assert_eq!(t.updated_at, at(1_500));
        }
        _ => panic!("the schedule is passed over"),
    }
    let steps = SnerdQueue::finish_steps(done);
    assert_eq!(steps.len(), 1);
    assert!(matches!(&steps[0], FinishStep::Save(t) if t.execute_at == at(1_893_456_000)));
}

#[test]
fn schedule_fires_strictly_later() {
    let q = queue(&Vec::new());
    let mut t = task("a");
    t.cron_expression = Some("0 */5 * * * *".to_string());
    for (now, next) in [
        ((1_700_000_100, 0), 1_700_000_400),
        ((1_700_000_099, 999_999_999), 1_700_000_100),
        ((1_700_000_100, 1), 1_700_000_400),
        ((1_483_228_799, 1_500_000_000), 1_483_228_800),
    ] {
        match q.finish_at(t.clone(), Ok(()), Timestamp::new(now.0, now.1).unwrap()) {
            Some(Completion::Reschedule(t)) => assert_eq!(t.execute_at, at(next)),
            _ => panic!("the schedule is passed over"),
        }
    }
}

#[test]
fn schedule_that_is_over_or_unreadable_ends_the_task() {
    let q = queue(&Vec::new());
    for expression in ["0 0 0 1 1 * 2020", "not a schedule", "*/0 * * * * *", ""] {
        let mut t = task("a");
        t.cron_expression = Some(expression.to_string());
        assert!(matches!(q.finish_at(t, Ok(()), at(1_700_000_000)), Some(Completion::Retire(_))));
    }
}

#[test]
fn success_without_next_run_is_final() {
    match SnerdQueue::after_success(task("a"), Some(at(7_777))) {
        Completion::Reschedule(t) => assert_eq!(t.execute_at, at(7_777)),
        _ => panic!("the next run is passed over"),
    }
    assert!(matches!(SnerdQueue::after_success(task("a"), None), Completion::Retire(_)));
}

#[test]
fn failing_task_uses_its_retries_up() {
    let q = queue(&Vec::new());
    let mut t = task("a");
    for attempt in 1..=2 {
        match q.finish_at(t, Err("no".to_string()), at(2_000)) {
            Some(Completion::Retry(again)) => {
                assert_eq!(again.retry_count, attempt);
                assert_eq!(again.retry_after_time, at(5_600));
                assert_eq!(again.last_error_obj.as_deref(), Some("no"));
                let steps = SnerdQueue::finish_steps(Completion::Retry(again.clone()));
                assert!(matches!(&steps[0], FinishStep::Save(s) if s.retry_count == attempt));
                t = again;
            }
            _ => panic!("a retry is passed over"),
        }
    }
    let last = q.finish_at(t, Err("no".to_string()), at(2_000)).unwrap();
    assert!(matches!(&last, Completion::Abandon(_, DeadLetter::Nobody)));
    let steps = SnerdQueue::finish_steps(last);
    assert_eq!(steps.len(), 1);
    assert!(matches!(&steps[0], FinishStep::Delete(id) if id == "a"));
}

#[test]
fn last_failure_is_told() {
    let mut q = queue(&Vec::new());
    q.register_max_retry_handler("type", 3);
    let mut t = task("a");
    t.max_retries = 0;
    let told = q.after_failure(t.clone(), "no".to_string(), at(2_000)).unwrap();
    assert!(matches!(&told, Completion::Abandon(_, DeadLetter::RunHandler(3))));
    let steps = SnerdQueue::finish_steps(told);
    assert_eq!(steps.len(), 2);
    assert!(matches!(&steps[0], FinishStep::TellHandler { handler: 3, task } if task.task_id == "a"));
    assert!(matches!(&steps[1], FinishStep::Delete(id) if id == "a"));

    t.webhook_url = Some("http://hook".to_string());
    let posted = q.after_failure(t, "no".to_string(), at(2_000)).unwrap();
    let steps = SnerdQueue::finish_steps(posted);
    assert_eq!(steps.len(), 2);
    match &steps[0] {
        FinishStep::TellWebhook(post) => {
            assert_eq!(post.url, "http://hook");
            assert_eq!(post.event, WebhookEvent::MaxRetriesReached);
            assert_eq!(post.payload.get("data").unwrap().as_str(), Some("data"));
        }
        _ => panic!("the webhook is passed over"),
    }
}

#[test]
fn end_of_an_execution_reads_the_clock() {
    let q = queue(&Vec::new());
    let before = chrono::Utc::now().timestamp();
    match q.finish(task("a"), Err("no".to_string())) {
        Some(Completion::Retry(t)) => assert!(t.retry_after_time.secs() >= before + 3_600),
        _ => panic!("a retry is passed over"),
    }
    let mut scheduled = task("b");
    scheduled.cron_expression = Some("* * * * * *".to_string());
    match q.finish(scheduled, Ok(())) {
        Some(Completion::Reschedule(t)) => assert!(t.execute_at.secs() > before),
        _ => panic!("the schedule is passed over"),
    }
    let mut endless = task("c");
    endless.retry_after_hours = double(1e300);
    assert!(q.finish(endless.clone(), Err("no".to_string())).is_none());
    endless.max_retries = 0;
    assert!(q.finish(endless, Err("no".to_string())).is_some());
}
