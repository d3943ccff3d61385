use snerdmq::double::Double;
use snerdmq::task::RetryableTask;
use snerdmq::timestamp::Timestamp;
use snerdmq::webhook::{
    webhook_payload, webhook_post, webhook_result, WebhookEvent, WebhookReply,
};

#[test]
fn payload_holds_id_type_and_data() {
    let task = RetryableTask::new_at(
        "req \"1\"".to_string(), "mail".to_string(), "{\"to\":\"x\"}".to_string(), 0,
        Double::zero(), None, None, None, None, None, None, None, None,
        Timestamp::new(0, 0).unwrap(),
    );
    let payload = webhook_payload(&task);
    assert_eq!(payload.len(), 3);
    assert_eq!(payload.get("taskId").unwrap().as_str(), Some("req \"1\""));
    assert_eq!(payload.get("taskType").unwrap().as_str(), Some("mail"));
    assert_eq!(payload.get("data").unwrap().as_str(), Some("{\"to\":\"x\"}"));
    let text = serde_json::to_string(&payload).unwrap();
    let back: serde_json::Value = serde_json::from_str(&text).unwrap();
    assert_eq!(back, serde_json::Value::Object(payload));
}

#[test]
fn statuses_in_the_two_hundreds_are_successes() {
    let reply = |code: u16| {
        webhook_result(WebhookReply::Status { code, text: format!("{} Words", code) })
    };
    assert_eq!(reply(200), Ok(()));
    assert_eq!(reply(299), Ok(()));
    assert_eq!(reply(199), Err("Webhook returned non-2xx status: 199 Words".to_string()));
    assert_eq!(reply(300), Err("Webhook returned non-2xx status: 300 Words".to_string()));
    assert_eq!(reply(404), Err("Webhook returned non-2xx status: 404 Words".to_string()));
}

#[test]
fn failed_post_is_an_error() {
    assert_eq!(
        webhook_result(WebhookReply::Failed("connection refused".to_string())),
        Err("Webhook request failed: connection refused".to_string())
    );
}

#[test]
fn events_have_names() {
    assert_eq!(WebhookEvent::Execute.name(), "Execute");
    assert_eq!(WebhookEvent::MaxRetriesReached.name(), "MaxRetriesReached");
}

#[test]
fn post_names_its_event() {
    let task = RetryableTask::new_at(
        "a".to_string(), "mail".to_string(), "x".to_string(), 0, Double::zero(), None, None, None,
        None, None, None, None, None, Timestamp::new(0, 0).unwrap(),
    );
    for (event, name) in [
        (WebhookEvent::Execute, "Execute"),
        (WebhookEvent::MaxRetriesReached, "MaxRetriesReached"),
    ] {
        let post = webhook_post(&task, "http://hook", event);
        assert_eq!(post.url, "http://hook");
        assert_eq!(post.event, event);
        assert_eq!(post.payload, webhook_payload(&task));
        assert_eq!(
            post.headers(),
            vec![("Content-Type", "application/json"), ("X-SnerdMQ-Event", name)]
        );
    }
}
