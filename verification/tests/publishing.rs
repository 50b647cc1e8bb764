use zero2prod::idempotency::{begin, save, BeginOutcome};
use zero2prod::publish::{publish, PublishOutcome, ValidationError};
use zero2prod::response::encode_issue_id;
use zero2prod::store::{Store, StoredResponse};

fn three_recipients() -> Vec<String> {
    vec!["a@x.com".to_string(), "b@x.com".to_string(), "c@x.com".to_string()]
}

fn response_of(outcome: PublishOutcome) -> StoredResponse {
    match outcome {
        PublishOutcome::Accepted(r) => r,
        PublishOutcome::Replayed(r) => r,
        PublishOutcome::Rejected(_) => panic!("expected a response-bearing outcome"),
    }
}

#[test]
fn publish_fans_out_one_task_per_recipient() {
    let mut store = Store::new();
    let key = "key-1".to_string();
    let outcome = publish(
        &mut store,
        7,
        &key,
        "Hi".to_string(),
        "t".to_string(),
        "<p>h</p>".to_string(),
        &three_recipients(),
        100,
    );
    assert!(matches!(outcome, PublishOutcome::Accepted(_)));
    let response = response_of(outcome);
    assert_eq!(response.status, 200);
    assert_eq!(store.issues.len(), 1);
    assert_eq!(store.tasks.len(), 3);
    assert_eq!(store.records.len(), 1);
    assert_eq!(store.issues[0].title, "Hi");
    assert_eq!(store.issues[0].text_body, "t");
    assert_eq!(store.issues[0].html_body, "<p>h</p>");
    for (task, recipient) in store.tasks.iter().zip(["a@x.com", "b@x.com", "c@x.com"]) {
        assert_eq!(task.issue_id, store.issues[0].issue_id);
        assert_eq!(task.recipient, recipient);
        assert_eq!(task.retry_count, 0);
        assert_eq!(task.execute_after, 100);
        assert!(!task.claimed);
    }
}

#[test]
fn replay_returns_identical_response_and_creates_no_rows() {
    let mut store = Store::new();
    let key = "key-1".to_string();
    let first = publish(
        &mut store,
        7,
        &key,
        "Hi".to_string(),
        "t".to_string(),
        "<p>h</p>".to_string(),
        &three_recipients(),
        100,
    );
    let replay = publish(
        &mut store,
        7,
        &key,
        "Entirely different title".to_string(),
        "body".to_string(),
        "<p>other</p>".to_string(),
        &vec!["z@x.com".to_string()],
        999,
    );
    assert!(matches!(replay, PublishOutcome::Replayed(_)));
    let first_response = response_of(first);
    let replay_response = response_of(replay);
    assert_eq!(first_response.status, replay_response.status);
    assert_eq!(first_response.body, replay_response.body);
    assert_eq!(first_response.headers.len(), replay_response.headers.len());
    assert_eq!(store.issues.len(), 1);
    assert_eq!(store.tasks.len(), 3);
    assert_eq!(store.records.len(), 1);
}

#[test]
fn distinct_keys_publish_distinct_issues() {
    let mut store = Store::new();
    let recipients = vec!["a@x.com".to_string()];
    let first = publish(
        &mut store,
        7,
        &"key-1".to_string(),
        "Hi".to_string(),
        "t".to_string(),
        "<p>h</p>".to_string(),
        &recipients,
        100,
    );
    let second = publish(
        &mut store,
        7,
        &"key-2".to_string(),
        "Hi".to_string(),
        "t".to_string(),
        "<p>h</p>".to_string(),
        &recipients,
        100,
    );
    assert!(matches!(second, PublishOutcome::Accepted(_)));
    assert_eq!(store.issues.len(), 2);
    assert_ne!(store.issues[0].issue_id, store.issues[1].issue_id);
    // The response body is the issue identifier, least significant byte first.
    assert_eq!(response_of(first).body, encode_issue_id(store.issues[0].issue_id));
    assert_eq!(response_of(second).body, encode_issue_id(store.issues[1].issue_id));
    assert_eq!(response_of(publish(
        &mut store,
        7,
        &"key-1".to_string(),
        "x".to_string(),
        "y".to_string(),
        "z".to_string(),
        &recipients,
        500,
    )).body, encode_issue_id(store.issues[0].issue_id));
}

#[test]
fn issue_id_encoding_is_little_endian() {
    assert_eq!(encode_issue_id(0), vec![0, 0, 0, 0, 0, 0, 0, 0]);
    assert_eq!(encode_issue_id(1), vec![1, 0, 0, 0, 0, 0, 0, 0]);
    assert_eq!(encode_issue_id(0x0102030405060708), vec![8, 7, 6, 5, 4, 3, 2, 1]);
}

#[test]
fn empty_title_is_rejected_without_burning_the_key() {
    let mut store = Store::new();
    let key = "key-1".to_string();
    let rejected = publish(
        &mut store,
        7,
        &key,
        String::new(),
        "t".to_string(),
        "<p>h</p>".to_string(),
        &three_recipients(),
        100,
    );
    assert!(matches!(rejected, PublishOutcome::Rejected(ValidationError::EmptyTitle)));
    assert_eq!(store.issues.len(), 0);
    assert_eq!(store.tasks.len(), 0);
    assert_eq!(store.records.len(), 0);
    // The key is still fresh: a corrected request under the same key succeeds.
    let corrected = publish(
        &mut store,
        7,
        &key,
        "Hi".to_string(),
        "t".to_string(),
        "<p>h</p>".to_string(),
        &three_recipients(),
        100,
    );
    assert!(matches!(corrected, PublishOutcome::Accepted(_)));
}

#[test]
fn empty_text_body_is_rejected() {
    let mut store = Store::new();
    let rejected = publish(
        &mut store,
        7,
        &"key-1".to_string(),
        "Hi".to_string(),
        String::new(),
        "<p>h</p>".to_string(),
        &three_recipients(),
        100,
    );
    assert!(matches!(rejected, PublishOutcome::Rejected(ValidationError::EmptyTextBody)));
    assert_eq!(store.records.len(), 0);
}

#[test]
fn empty_html_body_is_rejected() {
    let mut store = Store::new();
    let rejected = publish(
        &mut store,
        7,
        &"key-1".to_string(),
        "Hi".to_string(),
        "t".to_string(),
        String::new(),
        &three_recipients(),
        100,
    );
    assert!(matches!(rejected, PublishOutcome::Rejected(ValidationError::EmptyHtmlBody)));
    assert_eq!(store.records.len(), 0);
}

#[test]
fn begin_hands_out_a_handle_then_replays_the_saved_response() {
    let mut store = Store::new();
    let key = "key-1".to_string();
    let handle = match begin(&store, 7, &key) {
        BeginOutcome::New(handle) => handle,
        BeginOutcome::Existing(_) => panic!("no record was saved yet"),
    };
    assert_eq!(handle.caller_id, 7);
    assert_eq!(handle.idempotency_key, "key-1");
    save(&mut store, handle, 204, Vec::new(), vec![1, 2, 3], 50);
    match begin(&store, 7, &key) {
        BeginOutcome::Existing(response) => {
            assert_eq!(response.status, 204);
            assert_eq!(response.body, vec![1, 2, 3]);
        },
        BeginOutcome::New(_) => panic!("the record should have been found"),
    }
    // A different caller identity under the same key is a fresh request.
    assert!(matches!(begin(&store, 8, &key), BeginOutcome::New(_)));
}
