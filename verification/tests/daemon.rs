use snerdmq::daemon::{
    dispatch, execute_message, invalid_reply, queue_depth, registered_reply, reported_result,
    unknown_result_reply, Metrics, Request, WaitEnd,
};
use snerdmq::double::Double;
use snerdmq::protocol::{IncomingMessage, OutgoingMessage};
use snerdmq::task::RetryableTask;
use snerdmq::timestamp::Timestamp;

fn task(id: &str) -> RetryableTask {
    RetryableTask::new_at(
        id.to_string(), "mail".to_string(), "data".to_string(), 0, Double::zero(), None, None,
        None, None, None, None, None, Some(30), Timestamp::new(0, 0).unwrap(),
    )
}

#[test]
fn results_are_successes_or_errors() {
    assert_eq!(reported_result("success", None), Ok(()));
    assert_eq!(reported_result("success", Some("ignored".to_string())), Ok(()));
    assert_eq!(reported_result("failed", Some("boom".to_string())), Err("boom".to_string()));
    assert_eq!(reported_result("Success", None), Err("Unknown error".to_string()));
}

#[test]
fn messages_become_requests() {
    let register = dispatch(IncomingMessage::Register { task_type: "mail".to_string() });
    assert!(matches!(register, Request::Register { task_type } if task_type == "mail"));

    let progress = dispatch(IncomingMessage::Progress {
        task_id: "a".to_string(),
        data: "chunk".to_string(),
    });
    assert!(matches!(
        progress,
        Request::Forward(OutgoingMessage::Progress { task_id, data })
            if task_id == "a" && data == "chunk"
    ));

    let result = dispatch(IncomingMessage::Result {
        task_id: "a".to_string(),
        status: "error".to_string(),
        error_msg: None,
    });
    assert!(matches!(
        result,
        Request::Settle { task_id, result }
            if task_id == "a" && result == Err("Unknown error".to_string())
    ));

    assert!(matches!(dispatch(IncomingMessage::Stats), Request::Stats));
}

#[test]
fn enqueue_message_becomes_a_task() {
    let request = dispatch(IncomingMessage::Enqueue {
        task_id: "req_9921".to_string(),
        task_type: "generate_llm_response".to_string(),
        task_data: "{}".to_string(),
        max_retries: 3,
        retry_after_hours: Double { bits: 0.5f64.to_bits() },
        rate_limit_group: Some("anthropic".to_string()),
        max_per_minute: Some(50),
        auto_dedupe: Some(true),
        urgency_score: Some(Double { bits: 0.95f64.to_bits() }),
        execute_at: None,
        cron: Some("@daily".to_string()),
        webhook_url: Some("http://hook".to_string()),
        max_execution_seconds: Some(9),
    });
    match request {
        Request::Enqueue(t) => {
            assert_eq!(t.task_id, "req_9921");
            assert_eq!(t.max_retries, 3);
            assert_eq!(t.retry_after_hours.seconds(), 1_800);
            assert_eq!(t.rate_limit_group.as_deref(), Some("anthropic"));
            assert_eq!(t.max_per_minute, Some(50));
            assert_eq!(t.cron_expression.as_deref(), Some("@daily"));
            assert_eq!(t.webhook_url.as_deref(), Some("http://hook"));
            assert_eq!(t.max_execution_seconds, Some(9));
            assert!(t.payload_hash.is_some());
            assert_eq!(t.execute_at, t.created_at);
        }
        _ => panic!("no task"),
    }
}

#[test]
fn replies_have_their_words() {
    assert!(matches!(
        registered_reply("mail"),
        OutgoingMessage::Ack { task_id: None, message } if message == "Registered handler for mail"
    ));
    assert!(matches!(
        invalid_reply("expected value at line 1"),
        OutgoingMessage::Error { task_id: None, message }
            if message == "Invalid JSON: expected value at line 1"
    ));
    assert!(matches!(
        unknown_result_reply("x1"),
        OutgoingMessage::Error { task_id: None, message }
            if message == "Received result for unknown/expired task_id x1"
    ));
    assert!(matches!(
        execute_message(&task("a")),
        OutgoingMessage::Execute { task_id, task_type, task_data, max_execution_seconds: Some(30) }
            if task_id == "a" && task_type == "mail" && task_data == "data"
    ));
}

#[test]
fn enqueueing_is_counted_and_answered() {
    let mut metrics = Metrics::new();
    assert!(matches!(
        metrics.enqueue_reply("a".to_string(), Ok(())),
        OutgoingMessage::Ack { task_id: Some(id), message }
            if id == "a" && message == "Enqueued successfully"
    ));
    assert!(matches!(
        metrics.enqueue_reply("b".to_string(), Err("disk full".to_string())),
        OutgoingMessage::Error { task_id: Some(id), message }
            if id == "b" && message == "Failed to enqueue: disk full"
    ));
    assert_eq!(metrics, Metrics { total_enqueued: 1, ..Metrics::new() });
}

#[test]
fn executions_are_counted() {
    let mut metrics = Metrics::new();
    assert_eq!(metrics.execution_result(WaitEnd::Reported(Ok(()))), Ok(()));
    assert_eq!(metrics.total_executed, 1);
    let failed = metrics.execution_result(WaitEnd::Reported(Err("boom".to_string())));
    assert_eq!(failed, Err("boom".to_string()));
    assert_eq!(metrics.total_failed, 1);
    let late = metrics.execution_result(WaitEnd::TimedOut { seconds: 120 });
    assert_eq!(late, Err("Task execution timed out after 120 seconds".to_string()));
    assert_eq!((metrics.total_executed, metrics.total_failed), (1, 1));
    let closed = metrics.execution_result(WaitEnd::Closed("channel closed".to_string()));
    assert_eq!(closed, Err("channel closed".to_string()));
    assert_eq!((metrics.total_executed, metrics.total_failed), (1, 2));
    assert!(matches!(
        metrics.max_retries_message(&task("a")),
        OutgoingMessage::MaxRetriesReached { task_id, task_type, task_data }
            if task_id == "a" && task_type == "mail" && task_data == "data"
    ));
    assert_eq!(metrics.total_dlq, 1);
    metrics.total_dlq = u64::MAX;
    metrics.max_retries_message(&task("a"));
    assert_eq!(metrics.total_dlq, 0);
}

#[test]
fn stats_report_the_counters() {
    let metrics = Metrics { total_enqueued: 1, total_executed: 2, total_failed: 3, total_dlq: 4 };
    assert!(matches!(
        metrics.stats(5, 6),
        OutgoingMessage::Stats {
            total_enqueued: 1,
            total_executed: 2,
            total_failed: 3,
            total_dlq: 4,
            queue_depth: 5,
            uptime_secs: 6,
        }
    ));
}

#[test]
fn depth_counts_the_tasks_that_are_not_deleted() {
    let mut deleted = task("b");
    deleted.mark_deleted_at(Timestamp::new(1, 0).unwrap());
    assert_eq!(queue_depth(&vec![task("a"), deleted, task("c")]), 2);
    assert_eq!(queue_depth(&Vec::new()), 0);
}
