use zero2prod::publish::{publish, PublishOutcome};
use zero2prod::store::Store;
use zero2prod::worker::{
    backoff_delay, claim_next, drain_due, resolve_claim, try_claim_and_process, PassOutcome,
    TaskOutcome, WorkerConfig,
};

fn cfg() -> WorkerConfig {
    WorkerConfig { max_retries: 3, backoff_base: 60 }
}

fn store_with_one_task(recipient: &str, now: u64) -> Store {
    let mut store = Store::new();
    let outcome = publish(
        &mut store,
        1,
        &"key-1".to_string(),
        "Hi".to_string(),
        "t".to_string(),
        "<p>h</p>".to_string(),
        &vec![recipient.to_string()],
        now,
    );
    assert!(matches!(outcome, PublishOutcome::Accepted(_)));
    store
}

#[test]
fn claim_hands_out_the_issue_content() {
    let mut store = store_with_one_task("a@x.com", 0);
    let ticket = claim_next(&mut store, 0).unwrap();
    assert_eq!(ticket.recipient, "a@x.com");
    assert_eq!(ticket.title, "Hi");
    assert_eq!(ticket.text_body, "t");
    assert_eq!(ticket.html_body, "<p>h</p>");
    assert_eq!(ticket.retry_count, 0);
    assert!(store.tasks[ticket.index].claimed);
}

#[test]
fn a_claimed_row_is_invisible_to_other_workers() {
    let mut store = store_with_one_task("a@x.com", 0);
    let first = claim_next(&mut store, 0);
    assert!(first.is_some());
    // A second worker instance polling now finds nothing claimable.
    assert!(claim_next(&mut store, 0).is_none());
    assert!(matches!(try_claim_and_process(&mut store, 0, true, cfg()), PassOutcome::QueueEmpty));
}

#[test]
fn a_task_is_invisible_before_its_not_before_time() {
    let mut store = store_with_one_task("a@x.com", 100);
    assert!(claim_next(&mut store, 99).is_none());
    assert!(claim_next(&mut store, 100).is_some());
}

#[test]
fn successful_send_deletes_the_task() {
    let mut store = store_with_one_task("a@x.com", 0);
    let outcome = try_claim_and_process(&mut store, 0, true, cfg());
    assert!(matches!(outcome, PassOutcome::TaskProcessed(TaskOutcome::Sent)));
    assert_eq!(store.tasks.len(), 0);
    assert_eq!(store.issues.len(), 1);
    assert!(matches!(try_claim_and_process(&mut store, 0, true, cfg()), PassOutcome::QueueEmpty));
}

#[test]
fn failure_within_budget_reschedules_with_backoff() {
    let mut store = store_with_one_task("a@x.com", 0);
    let outcome = try_claim_and_process(&mut store, 0, false, cfg());
    assert!(matches!(outcome, PassOutcome::TaskProcessed(TaskOutcome::Rescheduled)));
    assert_eq!(store.tasks.len(), 1);
    assert_eq!(store.tasks[0].retry_count, 1);
    assert!(!store.tasks[0].claimed);
    assert_eq!(store.tasks[0].execute_after, 0 + backoff_delay(60, 1));
}

#[test]
fn execute_after_strictly_increases_across_retries() {
    let mut store = store_with_one_task("a@x.com", 0);
    let mut now = 0;
    let mut last_execute_after = 0;
    for expected_retry in 1..=3 {
        let outcome = try_claim_and_process(&mut store, now, false, cfg());
        assert!(matches!(outcome, PassOutcome::TaskProcessed(TaskOutcome::Rescheduled)));
        assert_eq!(store.tasks[0].retry_count, expected_retry);
        assert!(store.tasks[0].execute_after > last_execute_after);
        last_execute_after = store.tasks[0].execute_after;
        now = store.tasks[0].execute_after;
    }
}

#[test]
fn transient_failures_within_budget_still_deliver() {
    // The transport fails twice for a@x.com, then succeeds on the third
    // attempt: the task is deleted, its retry counter having reached 2.
    let mut store = store_with_one_task("a@x.com", 0);

    let first = claim_next(&mut store, 0).unwrap();
    assert_eq!(first.retry_count, 0);
    resolve_claim(&mut store, first, false, 0, cfg());

    let mut now = store.tasks[0].execute_after;
    let second = claim_next(&mut store, now).unwrap();
    assert_eq!(second.retry_count, 1);
    resolve_claim(&mut store, second, false, now, cfg());

    now = store.tasks[0].execute_after;
    let third = claim_next(&mut store, now).unwrap();
    assert_eq!(third.retry_count, 2);
    assert_eq!(third.recipient, "a@x.com");
    let outcome = resolve_claim(&mut store, third, true, now, cfg());
    assert!(matches!(outcome, TaskOutcome::Sent));
    assert_eq!(store.tasks.len(), 0);
    assert_eq!(store.abandoned.len(), 0);
}

#[test]
fn permanent_failure_abandons_after_the_retry_budget() {
    // The transport always fails and the maximum is 3 retries: the task is
    // deleted after the fourth attempt, the failure is recorded, and no
    // fifth attempt is ever made.
    let mut store = store_with_one_task("a@x.com", 0);
    let mut now = 0;
    let mut attempts = 0;
    loop {
        match try_claim_and_process(&mut store, now, false, cfg()) {
            PassOutcome::TaskProcessed(outcome) => {
                attempts += 1;
                match outcome {
                    TaskOutcome::Rescheduled => now = store.tasks[0].execute_after,
                    TaskOutcome::Abandoned => break,
                    TaskOutcome::Sent => panic!("the send never succeeds"),
                }
            },
            PassOutcome::QueueEmpty => panic!("the task should stay visible until abandoned"),
        }
    }
    assert_eq!(attempts, 4);
    assert_eq!(store.tasks.len(), 0);
    assert_eq!(store.abandoned.len(), 1);
    assert_eq!(store.abandoned[0].recipient, "a@x.com");
    assert_eq!(store.abandoned[0].attempts_made, 4);
    assert!(matches!(try_claim_and_process(&mut store, u64::MAX, false, cfg()), PassOutcome::QueueEmpty));
}

#[test]
fn drain_processes_every_due_task_exactly_once() {
    let mut store = Store::new();
    publish(
        &mut store,
        1,
        &"key-1".to_string(),
        "Hi".to_string(),
        "t".to_string(),
        "<p>h</p>".to_string(),
        &vec!["a@x.com".to_string(), "b@x.com".to_string(), "c@x.com".to_string()],
        0,
    );
    // A second issue published later: its tasks are not yet due.
    publish(
        &mut store,
        1,
        &"key-2".to_string(),
        "Later".to_string(),
        "t".to_string(),
        "<p>h</p>".to_string(),
        &vec!["d@x.com".to_string()],
        500,
    );
    let processed = drain_due(&mut store, 0, cfg());
    assert_eq!(processed, 3);
    assert_eq!(store.tasks.len(), 1);
    assert_eq!(store.tasks[0].recipient, "d@x.com");
    assert!(matches!(try_claim_and_process(&mut store, 0, true, cfg()), PassOutcome::QueueEmpty));
    // At a later instant the remaining task becomes visible and drains too.
    assert_eq!(drain_due(&mut store, 500, cfg()), 1);
    assert_eq!(store.tasks.len(), 0);
}

#[test]
fn backoff_doubles_from_the_base_and_saturates() {
    assert_eq!(backoff_delay(60, 0), 60);
    assert_eq!(backoff_delay(60, 1), 120);
    assert_eq!(backoff_delay(60, 2), 240);
    assert_eq!(backoff_delay(60, 3), 480);
    assert_eq!(backoff_delay(1, 63), 1u64 << 63);
    assert_eq!(backoff_delay(1, 64), u64::MAX);
    assert_eq!(backoff_delay(u64::MAX, 5), u64::MAX);
}

#[test]
fn default_worker_config_is_three_retries_with_a_minute_of_backoff() {
    let cfg = WorkerConfig::default();
    assert_eq!(cfg.max_retries, 3);
    assert_eq!(cfg.backoff_base, 60);
}
