//! Webhooks: what is posted, and what the answer means for the task.

use vstd::prelude::*;

use crate::task::RetryableTask;
use crate::text::joined;

verus! {

use crate::task::TaskView;

/// `serde_json::Value`, carried without a look inside.
#[verifier::external_type_specification]
#[verifier::external_body]
pub struct ExValue(serde_json::Value);

/// `serde_json::Map`, the collection behind a JSON object.
#[verifier::external_type_specification]
#[verifier::external_body]
#[verifier::reject_recursive_types(K)]
#[verifier::reject_recursive_types(V)]
pub struct ExMap<K, V>(serde_json::Map<K, V>);

/// The members of a JSON object: the text of each that is a string, and `None` for the others.
pub uninterp spec fn members(
    object: serde_json::Map<String, serde_json::Value>,
) -> Map<Seq<char>, Option<Seq<char>>>;

/// The members of an empty object.
pub open spec fn no_members() -> Map<Seq<char>, Option<Seq<char>>> {
    Map::empty()
}

/// `serde_json::Map::new`.
///
/// Trusted: a new object has no members.
#[verifier::external_body]
fn new_object() -> (object: serde_json::Map<String, serde_json::Value>)
    ensures
        members(object) == no_members(),
{
    serde_json::Map::new()
}

/// `serde_json::Map::insert` of a `Value::String`.
///
/// Trusted: the member `key` is the string `text` afterwards, whatever it was before, and no
/// other member changes.
#[verifier::external_body]
fn set_text(
    object: &mut serde_json::Map<String, serde_json::Value>,
    key: &str,
    text: &str,
)
    ensures
        members(*final(object)) == members(*old(object)).insert(key@, Some(text@)),
{
    object.insert(key.to_string(), serde_json::Value::String(text.to_string()));
}

/// What a post is about.
#[derive(Clone, Copy, Debug, PartialEq, Eq, Structural)]
pub enum WebhookEvent {
    /// The task is to be executed.
    Execute,
    /// The task failed for the last time.
    MaxRetriesReached,
}

impl WebhookEvent {
    /// The name of the event, as the header of the post gives it.
    pub open spec fn spec_name(self) -> Seq<char> {
        match self {
            WebhookEvent::Execute => "Execute"@,
            WebhookEvent::MaxRetriesReached => "MaxRetriesReached"@,
        }
    }

    /// The name of the event, as the header of the post gives it.
    pub fn name(&self) -> (name: &'static str)
        ensures
            name@ == self.spec_name(),
    {
        match self {
            WebhookEvent::Execute => "Execute",
            WebhookEvent::MaxRetriesReached => "MaxRetriesReached",
        }
    }
}

/// The members of the object that is posted for a task.
pub open spec fn payload_members(task: TaskView) -> Map<Seq<char>, Option<Seq<char>>> {
    no_members().insert("taskId"@, Some(task.task_id)).insert(
        "taskType"@,
        Some(task.task_type),
    ).insert("data"@, Some(task.task_data))
}

/// The object that is posted for a task: its id, its type and its data.
pub fn webhook_payload(task: &RetryableTask) -> (payload: serde_json::Map<
    String,
    serde_json::Value,
>)
    ensures
        members(payload) == payload_members(task@),
{
    let mut payload = new_object();
    set_text(&mut payload, "taskId", task.task_id.as_str());
    set_text(&mut payload, "taskType", task.task_type.as_str());
    set_text(&mut payload, "data", task.task_data.as_str());
    payload
}

/// A post that is to be made.
pub struct WebhookPost {
    pub url: String,
    pub event: WebhookEvent,
    pub payload: serde_json::Map<String, serde_json::Value>,
}

impl WebhookPost {
    /// Whether this is the post to `url` that tells of `event` for `task`.
    pub open spec fn is_for(self, url: Seq<char>, event: WebhookEvent, task: TaskView) -> bool {
        &&& self.url@ == url
        &&& self.event == event
        &&& members(self.payload) == payload_members(task)
    }

    /// The headers of the post, by name.
    pub fn headers(&self) -> (headers: Vec<(&'static str, &'static str)>)
        ensures
            headers@.len() == 2,
            headers@[0].0@ == "Content-Type"@ && headers@[0].1@ == "application/json"@,
            headers@[1].0@ == "X-SnerdMQ-Event"@ && headers@[1].1@ == self.event.spec_name(),
    {
        let mut headers: Vec<(&'static str, &'static str)> = Vec::new();
        headers.push(("Content-Type", "application/json"));
        headers.push(("X-SnerdMQ-Event", self.event.name()));
        headers
    }
}

/// The post to `url` that tells of `event` for a task.
pub fn webhook_post(task: &RetryableTask, url: &str, event: WebhookEvent) -> (post: WebhookPost)
    ensures
        post.is_for(url@, event, task@),
{
    WebhookPost { url: url.to_string(), event, payload: webhook_payload(task) }
}

/// What came back from a post.
#[derive(Debug)]
pub enum WebhookReply {
    /// An answer: its status code, and the status line in words.
    Status { code: u16, text: String },
    /// No answer: what went wrong.
    Failed(String),
}

/// The outcome of an execution, with the text of its error.
pub open spec fn outcome(result: Result<(), String>) -> Result<(), Seq<char>> {
    match result {
        Ok(_) => Ok(()),
        Err(error) => Err(error@),
    }
}

/// The outcome of a task that was posted: a success if the status is in the two hundreds.
pub fn webhook_result(reply: WebhookReply) -> (result: Result<(), String>)
    ensures
        outcome(result) == match reply {
            WebhookReply::Status { code, text } => if 200 <= code < 300 {
                Ok(())
            } else {
                Err("Webhook returned non-2xx status: "@ + text@)
            },
            WebhookReply::Failed(error) => Err("Webhook request failed: "@ + error@),
        },
{
    match reply {
        WebhookReply::Status { code, text } => {
            if 200 <= code && code < 300 {
                Ok(())
            } else {
                Err(joined("Webhook returned non-2xx status: ", text.as_str()))
            }
        },
        WebhookReply::Failed(error) => Err(joined("Webhook request failed: ", error.as_str())),
    }
}

} // verus!
