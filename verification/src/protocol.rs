//! The messages that a client and the daemon exchange.

use vstd::prelude::*;

use crate::double::Double;
use crate::timestamp::Timestamp;

verus! {

use crate::task::text_of;

/// A message from the client.
#[derive(Debug, Clone)]
pub enum IncomingMessage {
    /// The client handles tasks of `task_type`.
    Register { task_type: String },
    /// A task for the queue.
    Enqueue {
        task_id: String,
        task_type: String,
        task_data: String,
        max_retries: i32,
        retry_after_hours: Double,
        rate_limit_group: Option<String>,
        max_per_minute: Option<i32>,
        auto_dedupe: Option<bool>,
        urgency_score: Option<Double>,
        execute_at: Option<Timestamp>,
        cron: Option<String>,
        webhook_url: Option<String>,
        max_execution_seconds: Option<u64>,
    },
    /// A part of the output of a task that is executing.
    Progress { task_id: String, data: String },
    /// The end of an execution.
    Result { task_id: String, status: String, error_msg: Option<String> },
    /// A request for the counters.
    Stats,
}

/// A message to the client.
#[derive(Debug, Clone)]
#[allow(inconsistent_fields)]
pub enum OutgoingMessage {
    /// The client is to execute a task.
    Execute {
        task_id: String,
        task_type: String,
        task_data: String,
        max_execution_seconds: Option<u64>,
    },
    /// A task failed for the last time.
    MaxRetriesReached { task_id: String, task_type: String, task_data: String },
    /// A request was carried out.
    Ack { task_id: Option<String>, message: String },
    /// A request failed.
    Error { task_id: Option<String>, message: String },
    /// A part of the output of a task that is executing.
    Progress { task_id: String, data: String },
    /// The counters.
    Stats {
        total_enqueued: u64,
        total_executed: u64,
        total_failed: u64,
        total_dlq: u64,
        queue_depth: usize,
        uptime_secs: u64,
    },
}

/// The value of an [`OutgoingMessage`].
#[allow(inconsistent_fields)]
pub enum MessageView {
    Execute {
        task_id: Seq<char>,
        task_type: Seq<char>,
        task_data: Seq<char>,
        max_execution_seconds: Option<u64>,
    },
    MaxRetriesReached { task_id: Seq<char>, task_type: Seq<char>, task_data: Seq<char> },
    Ack { task_id: Option<Seq<char>>, message: Seq<char> },
    Error { task_id: Option<Seq<char>>, message: Seq<char> },
    Progress { task_id: Seq<char>, data: Seq<char> },
    Stats {
        total_enqueued: u64,
        total_executed: u64,
        total_failed: u64,
        total_dlq: u64,
        queue_depth: usize,
        uptime_secs: u64,
    },
}

impl View for OutgoingMessage {
    type V = MessageView;

    open spec fn view(&self) -> MessageView {
        match self {
            OutgoingMessage::Execute { task_id, task_type, task_data, max_execution_seconds } => {
                MessageView::Execute {
                    task_id: task_id@,
                    task_type: task_type@,
                    task_data: task_data@,
                    max_execution_seconds: *max_execution_seconds,
                }
            },
            OutgoingMessage::MaxRetriesReached { task_id, task_type, task_data } => {
                MessageView::MaxRetriesReached {
                    task_id: task_id@,
                    task_type: task_type@,
                    task_data: task_data@,
                }
            },
            OutgoingMessage::Ack { task_id, message } => MessageView::Ack {
                task_id: text_of(*task_id),
                message: message@,
            },
            OutgoingMessage::Error { task_id, message } => MessageView::Error {
                task_id: text_of(*task_id),
                message: message@,
            },
            OutgoingMessage::Progress { task_id, data } => MessageView::Progress {
                task_id: task_id@,
                data: data@,
            },
            OutgoingMessage::Stats {
                total_enqueued,
                total_executed,
                total_failed,
                total_dlq,
                queue_depth,
                uptime_secs,
            } => MessageView::Stats {
                total_enqueued: *total_enqueued,
                total_executed: *total_executed,
                total_failed: *total_failed,
                total_dlq: *total_dlq,
                queue_depth: *queue_depth,
                uptime_secs: *uptime_secs,
            },
        }
    }
}

} // verus!
