//! What the daemon does with each message, and how it answers.

use vstd::prelude::*;

use crate::protocol::{IncomingMessage, OutgoingMessage};
use crate::task::RetryableTask;
use crate::text::{decimal, joined};

verus! {

use crate::protocol::MessageView;
use crate::task::{payload_hash_of, text_of, views, TaskView};
use crate::text::numeral;
use crate::webhook::outcome;

/// What a message asks for.
pub enum Request {
    /// Register handlers for tasks of `task_type`.
    Register { task_type: String },
    /// Enqueue a task.
    Enqueue(RetryableTask),
    /// Pass a message on to the client.
    Forward(OutgoingMessage),
    /// End the execution of task `task_id` with `result`.
    Settle { task_id: String, result: Result<(), String> },
    /// Report the counters.
    Stats,
}

/// The result that a client reports: a success, or an error in words.
pub open spec fn reported(status: Seq<char>, error_msg: Option<Seq<char>>) -> Result<
    (),
    Seq<char>,
> {
    if status == "success"@ {
        Ok(())
    } else {
        match error_msg {
            Some(message) => Err(message),
            None => Err("Unknown error"@),
        }
    }
}

/// The result that a client reports: a success, or an error in words.
pub fn reported_result(status: &str, error_msg: Option<String>) -> (result: Result<(), String>)
    ensures
        outcome(result) == reported(status@, text_of(error_msg)),
{
    if status.to_string() == "success".to_string() {
        Ok(())
    } else {
        match error_msg {
            Some(message) => Err(message),
            None => Err("Unknown error".to_string()),
        }
    }
}

/// Reads what a message asks for. A task that it brings is created now.
pub fn dispatch(message: IncomingMessage) -> (request: Request)
    ensures
        match message {
            IncomingMessage::Register { task_type } => {
                request matches Request::Register { task_type: asked } && asked@ == task_type@
            },
            IncomingMessage::Enqueue {
                task_id,
                task_type,
                task_data,
                max_retries,
                retry_after_hours,
                rate_limit_group,
                max_per_minute,
                auto_dedupe,
                urgency_score,
                execute_at,
                cron,
                webhook_url,
                max_execution_seconds,
            } => {
                &&& request matches Request::Enqueue(task)
                &&& task@.created_at.is_clock_reading()
                &&& task@ == (TaskView {
                    task_id: task_id@,
                    retry_count: 0,
                    max_retries: max_retries as int,
                    retry_after_hours,
                    retry_after_time: task@.created_at,
                    task_data: task_data@,
                    task_type: task_type@,
                    last_error_obj: None,
                    last_job_error: None,
                    rate_limit_group: text_of(rate_limit_group),
                    max_per_minute,
                    auto_dedupe,
                    urgency_score,
                    payload_hash: if auto_dedupe == Some(true) {
                        Some(payload_hash_of(task_type@, task_data@))
                    } else {
                        None
                    },
                    execute_at: match execute_at {
                        Some(t) => t@,
                        None => task@.created_at,
                    },
                    cron_expression: text_of(cron),
                    webhook_url: text_of(webhook_url),
                    max_execution_seconds,
                    deleted_at: None,
                    created_at: task@.created_at,
                    updated_at: task@.created_at,
                })
            },
            IncomingMessage::Progress { task_id, data } => {
                &&& request matches Request::Forward(answer)
                &&& answer@ == (MessageView::Progress { task_id: task_id@, data: data@ })
            },
            IncomingMessage::Result { task_id, status, error_msg } => {
                &&& request matches Request::Settle { task_id: settled, result }
                &&& settled@ == task_id@
                &&& outcome(result) == reported(status@, text_of(error_msg))
            },
            IncomingMessage::Stats => request is Stats,
        },
{
    match message {
        IncomingMessage::Register { task_type } => Request::Register { task_type },
        IncomingMessage::Enqueue {
            task_id,
            task_type,
            task_data,
            max_retries,
            retry_after_hours,
            rate_limit_group,
            max_per_minute,
            auto_dedupe,
            urgency_score,
            execute_at,
            cron,
            webhook_url,
            max_execution_seconds,
        } => Request::Enqueue(
            RetryableTask::new(
                task_id,
                task_type,
                task_data,
                max_retries,
                retry_after_hours,
                rate_limit_group,
                max_per_minute,
                auto_dedupe,
                urgency_score,
                execute_at,
                cron,
                webhook_url,
                max_execution_seconds,
            ),
        ),
        IncomingMessage::Progress { task_id, data } => Request::Forward(
            OutgoingMessage::Progress { task_id, data },
        ),
        IncomingMessage::Result { task_id, status, error_msg } => Request::Settle {
            task_id,
            result: reported_result(status.as_str(), error_msg),
        },
        IncomingMessage::Stats => Request::Stats,
    }
}

/// The answer to a registration.
pub fn registered_reply(task_type: &str) -> (reply: OutgoingMessage)
    ensures
        reply@ == (MessageView::Ack {
            task_id: None,
            message: "Registered handler for "@ + task_type@,
        }),
{
    OutgoingMessage::Ack { task_id: None, message: joined("Registered handler for ", task_type) }
}

/// The answer to a line that is no message.
pub fn invalid_reply(error: &str) -> (reply: OutgoingMessage)
    ensures
        reply@ == (MessageView::Error { task_id: None, message: "Invalid JSON: "@ + error@ }),
{
    OutgoingMessage::Error { task_id: None, message: joined("Invalid JSON: ", error) }
}

/// The answer to a result for a task that nobody waits for.
pub fn unknown_result_reply(task_id: &str) -> (reply: OutgoingMessage)
    ensures
        reply@ == (MessageView::Error {
            task_id: None,
            message: "Received result for unknown/expired task_id "@ + task_id@,
        }),
{
    OutgoingMessage::Error {
        task_id: None,
        message: joined("Received result for unknown/expired task_id ", task_id),
    }
}

/// The request to the client to execute a task.
pub fn execute_message(task: &RetryableTask) -> (message: OutgoingMessage)
    ensures
        message@ == (MessageView::Execute {
            task_id: task@.task_id,
            task_type: task@.task_type,
            task_data: task@.task_data,
            max_execution_seconds: task@.max_execution_seconds,
        }),
{
    OutgoingMessage::Execute {
        task_id: task.task_id.clone(),
        task_type: task.task_type.clone(),
        task_data: task.task_data.clone(),
        max_execution_seconds: task.max_execution_seconds,
    }
}

/// How the wait for a result ended.
pub enum WaitEnd {
    /// The client reported a result.
    Reported(Result<(), String>),
    /// No result came within `seconds`.
    TimedOut { seconds: u64 },
    /// The wait was broken off, for the reason given.
    Closed(String),
}

/// The error of a task that took longer than `seconds`.
pub open spec fn timeout_text(seconds: u64) -> Seq<char> {
    "Task execution timed out after "@ + numeral(seconds as nat, 10) + " seconds"@
}

/// The outcome of an execution, given how the wait for it ended.
pub open spec fn wait_outcome(end: WaitEnd) -> Result<(), Seq<char>> {
    match end {
        WaitEnd::Reported(result) => outcome(result),
        WaitEnd::TimedOut { seconds } => Err(timeout_text(seconds)),
        WaitEnd::Closed(reason) => Err(reason@),
    }
}

/// A counter after one more event; it starts over at zero.
pub open spec fn counted(count: u64) -> u64 {
    if count == u64::MAX {
        0
    } else {
        (count + 1) as u64
    }
}

/// The counters of the daemon.
#[derive(Clone, Copy, Debug, PartialEq, Eq, Structural)]
pub struct Metrics {
    pub total_enqueued: u64,
    pub total_executed: u64,
    pub total_failed: u64,
    pub total_dlq: u64,
}

fn next_count(count: u64) -> (next: u64)
    ensures
        next == counted(count),
{
    if count == u64::MAX {
        0
    } else {
        count + 1
    }
}

impl Metrics {
    /// Counters at zero.
    pub fn new() -> (metrics: Metrics)
        ensures
            metrics == (Metrics {
                total_enqueued: 0,
                total_executed: 0,
                total_failed: 0,
                total_dlq: 0,
            }),
    {
        Metrics { total_enqueued: 0, total_executed: 0, total_failed: 0, total_dlq: 0 }
    }

    /// Counts and answers an attempt to enqueue task `task_id`.
    pub fn enqueue_reply(&mut self, task_id: String, result: Result<(), String>) -> (reply:
        OutgoingMessage)
        ensures
            match result {
                Ok(_) => {
                    &&& reply@ == (MessageView::Ack {
                        task_id: Some(task_id@),
                        message: "Enqueued successfully"@,
                    })
                    &&& *final(self) == (Metrics {
                        total_enqueued: counted(old(self).total_enqueued),
                        ..*old(self)
                    })
                },
                Err(error) => {
                    &&& reply@ == (MessageView::Error {
                        task_id: Some(task_id@),
                        message: "Failed to enqueue: "@ + error@,
                    })
                    &&& *final(self) == *old(self)
                },
            },
    {
        match result {
            Ok(_) => {
                self.total_enqueued = next_count(self.total_enqueued);
                OutgoingMessage::Ack {
                    task_id: Some(task_id),
                    message: "Enqueued successfully".to_string(),
                }
            },
            Err(error) => OutgoingMessage::Error {
                task_id: Some(task_id),
                message: joined("Failed to enqueue: ", error.as_str()),
            },
        }
    }

    /// Counts the end of a wait for a result, and gives the outcome of the execution. An
    /// execution that timed out is counted neither as executed nor as failed.
    pub fn execution_result(&mut self, end: WaitEnd) -> (result: Result<(), String>)
        ensures
            outcome(result) == wait_outcome(end),
            *final(self) == match end {
                WaitEnd::Reported(Ok(_)) => Metrics {
                    total_executed: counted(old(self).total_executed),
                    ..*old(self)
                },
                WaitEnd::TimedOut { .. } => *old(self),
                _ => Metrics { total_failed: counted(old(self).total_failed), ..*old(self) },
            },
    {
        match end {
            WaitEnd::Reported(result) => {
                match &result {
                    Ok(_) => {
                        self.total_executed = next_count(self.total_executed);
                    },
                    Err(_) => {
                        self.total_failed = next_count(self.total_failed);
                    },
                }
                result
            },
            WaitEnd::TimedOut { seconds } => {
                let mut text = joined("Task execution timed out after ", decimal(seconds).as_str());
                text.append(" seconds");
                Err(text)
            },
            WaitEnd::Closed(reason) => {
                self.total_failed = next_count(self.total_failed);
                Err(reason)
            },
        }
    }

    /// Counts a task that failed for the last time, and tells the client of it.
    pub fn max_retries_message(&mut self, task: &RetryableTask) -> (message: OutgoingMessage)
        ensures
            message@ == (MessageView::MaxRetriesReached {
                task_id: task@.task_id,
                task_type: task@.task_type,
                task_data: task@.task_data,
            }),
            *final(self) == (Metrics { total_dlq: counted(old(self).total_dlq), ..*old(self) }),
    {
        self.total_dlq = next_count(self.total_dlq);
        OutgoingMessage::MaxRetriesReached {
            task_id: task.task_id.clone(),
            task_type: task.task_type.clone(),
            task_data: task.task_data.clone(),
        }
    }

    /// The report of the counters.
    pub fn stats(&self, queue_depth: usize, uptime_secs: u64) -> (message: OutgoingMessage)
        ensures
            message@ == (MessageView::Stats {
                total_enqueued: self.total_enqueued,
                total_executed: self.total_executed,
                total_failed: self.total_failed,
                total_dlq: self.total_dlq,
                queue_depth,
                uptime_secs,
            }),
    {
        OutgoingMessage::Stats {
            total_enqueued: self.total_enqueued,
            total_executed: self.total_executed,
            total_failed: self.total_failed,
            total_dlq: self.total_dlq,
            queue_depth,
            uptime_secs,
        }
    }
}

/// How many of `tasks` are not deleted.
pub fn queue_depth(tasks: &Vec<RetryableTask>) -> (depth: usize)
    ensures
        depth == views(tasks@).filter(|t: TaskView| !t.is_deleted()).len(),
{
    let ghost all = views(tasks@);
    let ghost live = |t: TaskView| !t.is_deleted();
    let mut depth: usize = 0;
    let mut i: usize = 0;
    reveal(Seq::filter);
    while i < tasks.len()
        invariant
            all == views(tasks@),
            live == (|t: TaskView| !t.is_deleted()),
            0 <= i <= tasks@.len(),
            depth <= i,
            depth == all.take(i as int).filter(live).len(),
        decreases tasks.len() - i,
    {
        reveal(Seq::filter);
        assert(all.take(i + 1).drop_last() =~= all.take(i as int));
        assert(all.take(i + 1).last() == tasks@[i as int]@);
        if tasks[i].deleted_at.is_none() {
            depth = depth + 1;
        }
        i = i + 1;
    }
    assert(all.take(i as int) =~= all);
    depth
}

} // verus!
