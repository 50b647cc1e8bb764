//! The delivery worker: claim one visible task exclusively, attempt the
//! send, and retire or reschedule the task by outcome — safe for any number
//! of concurrent worker instances.
use crate::store::{
    find_issue, issue_exists, issue_with_id, lemma_issue_with_id_unique, store_wf, task_keyed,
    AbandonModel,
    AbandonedDelivery, DeliveryTask, Store, StoreModel, TaskModel,
};
use vstd::pervasive::VecAdditionalExecFns;
use vstd::prelude::*;

verus! {

/// Worker policy: how many retries one task is granted before it is
/// abandoned, and the base delay its exponential backoff starts from.
#[derive(Clone, Copy, Debug, PartialEq, Eq, Structural)]
pub struct WorkerConfig {
    pub max_retries: u64,
    pub backoff_base: u64,
}

impl WorkerConfig {
    /// A usable policy: a positive base delay, and room to count one more
    /// attempt.
    pub open spec fn wf(&self) -> bool {
        1 <= self.backoff_base && self.max_retries < u64::MAX
    }
}

impl Default for WorkerConfig {
    /// The default policy: three retries, one minute of base backoff.
    fn default() -> (c: Self)
        ensures
            c.wf(),
            c == (WorkerConfig { max_retries: 3, backoff_base: 60 }),
    {
        WorkerConfig { max_retries: 3, backoff_base: 60 }
    }
}

/// A task is visible to workers when it is unclaimed and its not-before
/// time has passed.
pub open spec fn task_due(t: TaskModel, now: u64) -> bool {
    !t.claimed && t.execute_after <= now
}

/// No task in the relation is visible at this instant.
pub open spec fn no_due_task(ts: Seq<TaskModel>, now: u64) -> bool {
    forall|i: int| 0 <= i < ts.len() ==> !task_due(#[trigger] ts[i], now)
}

/// Index `i` holds the first visible task.
pub open spec fn is_first_due(ts: Seq<TaskModel>, now: u64, i: int) -> bool {
    &&& 0 <= i < ts.len()
    &&& task_due(ts[i], now)
    &&& forall|k: int| 0 <= k < i ==> !task_due(#[trigger] ts[k], now)
}

/// Addition on timestamps that pins at the top of the clock instead of
/// wrapping around.
pub open spec fn sat_add(a: u64, b: u64) -> u64 {
    if a + b > u64::MAX {
        u64::MAX
    } else {
        (a + b) as u64
    }
}

/// The backoff delay granted before retry `n`: the base delay, doubled for
/// every retry already spent, pinned at the top of the range once it would
/// overflow.
pub open spec fn backoff_delay_spec(base: u64, n: nat) -> u64
    decreases n,
{
    if n == 0 {
        base
    } else {
        let p = backoff_delay_spec(base, (n - 1) as nat);
        if p <= u64::MAX / 2 {
            (2 * p) as u64
        } else {
            u64::MAX
        }
    }
}

/// The backoff delay never falls below the base delay.
pub proof fn lemma_backoff_at_least_base(base: u64, n: nat)
    ensures
        backoff_delay_spec(base, n) >= base,
    decreases n,
{
    if n > 0 {
        lemma_backoff_at_least_base(base, (n - 1) as nat);
    }
}

/// Once the backoff delay has passed the halfway mark it pins at the top of
/// the range for every later retry.
pub proof fn lemma_backoff_saturated(base: u64, k: nat, m: nat)
    requires
        backoff_delay_spec(base, k) > u64::MAX / 2,
        k < m,
    ensures
        backoff_delay_spec(base, m) == u64::MAX,
    decreases m,
{
    if m - 1 > k {
        lemma_backoff_saturated(base, k, (m - 1) as nat);
    }
}

/// Compute the backoff delay granted before retry `n`.
pub fn backoff_delay(base: u64, n: u64) -> (d: u64)
    ensures
        d == backoff_delay_spec(base, n as nat),
{
    let mut d = base;
    let mut i: u64 = 0;
    while i < n
        invariant
            i <= n,
            d == backoff_delay_spec(base, i as nat),
        decreases n - i,
    {
        if d <= u64::MAX / 2 {
            d = 2 * d;
        } else {
            proof {
                lemma_backoff_saturated(base, i as nat, n as nat);
            }
            return u64::MAX;
        }
        i += 1;
    }
    d
}

/// What a worker holds after claiming a row: where the row sits, the
/// delivery's composite key, its retry count, and the parent issue's
/// content for the send.
pub struct ClaimedTask {
    pub index: usize,
    pub issue_id: u64,
    pub recipient: String,
    pub title: String,
    pub text_body: String,
    pub html_body: String,
    pub retry_count: u64,
}

#[verifier::ext_equal]
pub ghost struct ClaimModel {
    pub index: int,
    pub issue_id: u64,
    pub recipient: Seq<char>,
    pub title: Seq<char>,
    pub text_body: Seq<char>,
    pub html_body: Seq<char>,
    pub retry_count: u64,
}

impl View for ClaimedTask {
    type V = ClaimModel;

    open spec fn view(&self) -> ClaimModel {
        ClaimModel {
            index: self.index as int,
            issue_id: self.issue_id,
            recipient: self.recipient@,
            title: self.title@,
            text_body: self.text_body@,
            html_body: self.html_body@,
            retry_count: self.retry_count,
        }
    }
}

/// The exclusive claim a worker holds after a successful claim: the row was
/// the first visible one and is now marked as held; no other row, relation
/// or counter moved; the ticket carries the row's key, its retry count and
/// its parent issue's content.
pub open spec fn claim_post(pre: StoreModel, post: StoreModel, now: u64, c: ClaimModel) -> bool {
    &&& is_first_due(pre.tasks, now, c.index)
    &&& c.issue_id == pre.tasks[c.index].issue_id
    &&& c.recipient == pre.tasks[c.index].recipient
    &&& c.retry_count == pre.tasks[c.index].retry_count
    &&& c.title == issue_with_id(pre.issues, c.issue_id).title
    &&& c.text_body == issue_with_id(pre.issues, c.issue_id).text_body
    &&& c.html_body == issue_with_id(pre.issues, c.issue_id).html_body
    &&& post.tasks =~= pre.tasks.update(
        c.index,
        (TaskModel {
            issue_id: pre.tasks[c.index].issue_id,
            recipient: pre.tasks[c.index].recipient,
            retry_count: pre.tasks[c.index].retry_count,
            execute_after: pre.tasks[c.index].execute_after,
            created_at: pre.tasks[c.index].created_at,
            claimed: true,
        }),
    )
    &&& post.records == pre.records
    &&& post.issues == pre.issues
    &&& post.abandoned == pre.abandoned
    &&& post.next_issue_id == pre.next_issue_id
}

/// Find the first visible task, scanning rows in order.
fn find_due(tasks: &Vec<DeliveryTask>, now: u64) -> (r: Option<usize>)
    ensures
        match r {
            Some(i) => is_first_due(tasks@.map_values(|t: DeliveryTask| t@), now, i as int),
            None => no_due_task(tasks@.map_values(|t: DeliveryTask| t@), now),
        },
{
    let ghost m = tasks@.map_values(|t: DeliveryTask| t@);
    let n = tasks.len();
    for i in 0..n
        invariant
            n == tasks@.len(),
            m == tasks@.map_values(|t: DeliveryTask| t@),
            forall|k: int| 0 <= k < i ==> !task_due(#[trigger] m[k], now),
    {
        if !tasks[i].claimed && tasks[i].execute_after <= now {
            assert(task_due(m[i as int], now));
            return Some(i);
        }
        assert(!task_due(m[i as int], now));
    }
    None
}

/// Atomically claim the first visible task, if any: mark the row as
/// exclusively held and hand back the ticket the send needs. `None` means
/// no row is both due and unclaimed — the normal drained state, not a
/// failure.
pub fn claim_next(store: &mut Store, now: u64) -> (r: Option<ClaimedTask>)
    requires
        old(store).wf(),
    ensures
        final(store).wf(),
        match r {
            Some(c) => claim_post(old(store)@, final(store)@, now, c@),
            None => *final(store) == *old(store) && no_due_task(old(store)@.tasks, now),
        },
{
    let ghost pre = store@;
    let i = match find_due(&store.tasks, now) {
        Some(i) => i,
        None => {
            return None;
        },
    };
    let issue_id = store.tasks[i].issue_id;
    let recipient = store.tasks[i].recipient.clone();
    let retry_count = store.tasks[i].retry_count;
    let execute_after = store.tasks[i].execute_after;
    let created_at = store.tasks[i].created_at;
    proof {
        assert(pre.tasks[i as int] == store.tasks@[i as int]@);
        assert(issue_exists(pre.issues, issue_id));
    }
    let j = find_issue(&store.issues, issue_id);
    let title = store.issues[j].title.clone();
    let text_body = store.issues[j].text_body.clone();
    let html_body = store.issues[j].html_body.clone();
    proof {
        lemma_issue_with_id_unique(pre.issues, issue_id, j as int);
    }
    let held = DeliveryTask {
        issue_id,
        recipient: store.tasks[i].recipient.clone(),
        retry_count,
        execute_after,
        created_at,
        claimed: true,
    };
    store.tasks.set(i, held);
    proof {
        let post = store@;
        assert(post.tasks =~= pre.tasks.update(
            i as int,
            (TaskModel {
                issue_id: pre.tasks[i as int].issue_id,
                recipient: pre.tasks[i as int].recipient,
                retry_count: pre.tasks[i as int].retry_count,
                execute_after: pre.tasks[i as int].execute_after,
                created_at: pre.tasks[i as int].created_at,
                claimed: true,
            }),
        ));
        assert(post.records =~= pre.records);
        assert(post.issues =~= pre.issues);
        assert(post.abandoned =~= pre.abandoned);
        assert(post.tasks.len() == pre.tasks.len());
        assert forall|k: int| 0 <= k < post.tasks.len() implies ((#[trigger] post.tasks[k]).issue_id
            == pre.tasks[k].issue_id && post.tasks[k].recipient == pre.tasks[k].recipient
            && post.tasks[k].retry_count == pre.tasks[k].retry_count) by {}
        assert forall|a: int, b: int|
            #![trigger post.tasks[a], post.tasks[b]]
            0 <= a < b < post.tasks.len() implies !(post.tasks[a].issue_id
            == post.tasks[b].issue_id && post.tasks[a].recipient == post.tasks[b].recipient) by {
            assert(!(pre.tasks[a].issue_id == pre.tasks[b].issue_id && pre.tasks[a].recipient
                == pre.tasks[b].recipient));
        }
        assert forall|k: int| 0 <= k < post.tasks.len() implies issue_exists(
            post.issues,
            (#[trigger] post.tasks[k]).issue_id,
        ) by {
            assert(issue_exists(pre.issues, pre.tasks[k].issue_id));
        }
        assert forall|k: int| 0 <= k < post.tasks.len() implies (#[trigger] post.tasks[k]).retry_count
            < u64::MAX by {
            assert(pre.tasks[k].retry_count < u64::MAX);
        }
        assert(store.wf());
    }
    Some(ClaimedTask { index: i, issue_id, recipient, title, text_body, html_body, retry_count })
}

/// The terminal or rescheduling outcome of one claimed task.
#[derive(Clone, Copy, Debug, PartialEq, Eq, Structural)]
pub enum TaskOutcome {
    Sent,
    Rescheduled,
    Abandoned,
}

/// What one worker pass came to: it processed a task, or found the queue
/// drained.
#[derive(Clone, Copy, Debug, PartialEq, Eq, Structural)]
pub enum PassOutcome {
    TaskProcessed(TaskOutcome),
    QueueEmpty,
}

/// The task as it is put back after a failed send within the retry budget:
/// released, one more retry spent, and pushed forward by the exponential
/// backoff granted for that retry.
pub open spec fn rescheduled_task(t: TaskModel, now: u64, cfg: WorkerConfig) -> TaskModel {
    TaskModel {
        issue_id: t.issue_id,
        recipient: t.recipient,
        retry_count: (t.retry_count + 1) as u64,
        execute_after: sat_add(now, backoff_delay_spec(cfg.backoff_base, (t.retry_count + 1) as nat)),
        created_at: t.created_at,
        claimed: false,
    }
}

/// How resolving the claim on row `i` changes the store:
/// - the send succeeded: the row is deleted;
/// - it failed with the retry budget exhausted: the row is deleted and the
///   failure recorded with its total attempt count;
/// - it failed within budget: the row is released with one more retry spent
///   and its not-before time pushed forward.
/// Issues, idempotency records and the issue counter never move.
pub open spec fn task_resolution(
    pre: StoreModel,
    post: StoreModel,
    i: int,
    send_ok: bool,
    now: u64,
    cfg: WorkerConfig,
    outcome: TaskOutcome,
) -> bool {
    &&& 0 <= i < pre.tasks.len()
    &&& post.records == pre.records
    &&& post.issues == pre.issues
    &&& post.next_issue_id == pre.next_issue_id
    &&& if send_ok {
        &&& post.tasks =~= pre.tasks.remove(i)
        &&& post.abandoned == pre.abandoned
        &&& outcome == TaskOutcome::Sent
    } else if pre.tasks[i].retry_count >= cfg.max_retries {
        &&& post.tasks =~= pre.tasks.remove(i)
        &&& post.abandoned =~= pre.abandoned.push(
            (AbandonModel {
                issue_id: pre.tasks[i].issue_id,
                recipient: pre.tasks[i].recipient,
                attempts_made: (pre.tasks[i].retry_count + 1) as u64,
            }),
        )
        &&& outcome == TaskOutcome::Abandoned
    } else {
        &&& post.tasks =~= pre.tasks.update(i, rescheduled_task(pre.tasks[i], now, cfg))
        &&& post.abandoned == pre.abandoned
        &&& outcome == TaskOutcome::Rescheduled
    }
}

/// Removing a task row preserves the store invariants.
proof fn lemma_wf_after_task_remove(pre: StoreModel, post: StoreModel, i: int)
    requires
        store_wf(pre),
        0 <= i < pre.tasks.len(),
        post.tasks =~= pre.tasks.remove(i),
        post.records == pre.records,
        post.issues == pre.issues,
        post.next_issue_id == pre.next_issue_id,
    ensures
        store_wf(post),
{
    assert forall|a: int, b: int|
        #![trigger post.tasks[a], post.tasks[b]]
        0 <= a < b < post.tasks.len() implies !(post.tasks[a].issue_id == post.tasks[b].issue_id
        && post.tasks[a].recipient == post.tasks[b].recipient) by {
        let pa = if a < i {
            a
        } else {
            a + 1
        };
        let pb = if b < i {
            b
        } else {
            b + 1
        };
        assert(post.tasks[a] == pre.tasks[pa]);
        assert(post.tasks[b] == pre.tasks[pb]);
        assert(!(pre.tasks[pa].issue_id == pre.tasks[pb].issue_id && pre.tasks[pa].recipient
            == pre.tasks[pb].recipient));
    }
    assert forall|k: int| 0 <= k < post.tasks.len() implies issue_exists(
        post.issues,
        (#[trigger] post.tasks[k]).issue_id,
    ) by {
        let pk = if k < i {
            k
        } else {
            k + 1
        };
        assert(post.tasks[k] == pre.tasks[pk]);
        assert(issue_exists(pre.issues, pre.tasks[pk].issue_id));
    }
    assert forall|k: int| 0 <= k < post.tasks.len() implies (#[trigger] post.tasks[k]).retry_count
        < u64::MAX by {
        let pk = if k < i {
            k
        } else {
            k + 1
        };
        assert(post.tasks[k] == pre.tasks[pk]);
        assert(pre.tasks[pk].retry_count < u64::MAX);
    }
}

/// Replacing a task row with one carrying the same composite key and a
/// bounded retry counter preserves the store invariants.
proof fn lemma_wf_after_task_update(pre: StoreModel, post: StoreModel, i: int, t: TaskModel)
    requires
        store_wf(pre),
        0 <= i < pre.tasks.len(),
        t.issue_id == pre.tasks[i].issue_id,
        t.recipient == pre.tasks[i].recipient,
        t.retry_count < u64::MAX,
        post.tasks =~= pre.tasks.update(i, t),
        post.records == pre.records,
        post.issues == pre.issues,
        post.next_issue_id == pre.next_issue_id,
    ensures
        store_wf(post),
{
    assert forall|a: int, b: int|
        #![trigger post.tasks[a], post.tasks[b]]
        0 <= a < b < post.tasks.len() implies !(post.tasks[a].issue_id == post.tasks[b].issue_id
        && post.tasks[a].recipient == post.tasks[b].recipient) by {
        assert(post.tasks[a].issue_id == pre.tasks[a].issue_id && post.tasks[a].recipient
            == pre.tasks[a].recipient);
        assert(post.tasks[b].issue_id == pre.tasks[b].issue_id && post.tasks[b].recipient
            == pre.tasks[b].recipient);
        assert(!(pre.tasks[a].issue_id == pre.tasks[b].issue_id && pre.tasks[a].recipient
            == pre.tasks[b].recipient));
    }
    assert forall|k: int| 0 <= k < post.tasks.len() implies issue_exists(
        post.issues,
        (#[trigger] post.tasks[k]).issue_id,
    ) by {
        assert(post.tasks[k].issue_id == pre.tasks[k].issue_id);
        assert(issue_exists(pre.issues, pre.tasks[k].issue_id));
    }
    assert forall|k: int| 0 <= k < post.tasks.len() implies (#[trigger] post.tasks[k]).retry_count
        < u64::MAX by {
        if k != i {
            assert(post.tasks[k] == pre.tasks[k]);
            assert(pre.tasks[k].retry_count < u64::MAX);
        }
    }
}

/// Resolve the claim held on one row by the outcome of its send attempt:
/// delete it on success; on failure, abandon it if the retry budget is
/// spent, else release it with one more retry spent and backoff applied.
pub fn resolve_claim(
    store: &mut Store,
    ticket: ClaimedTask,
    send_ok: bool,
    now: u64,
    cfg: WorkerConfig,
) -> (outcome: TaskOutcome)
    requires
        old(store).wf(),
        cfg.wf(),
        ticket@.index < old(store)@.tasks.len(),
        old(store)@.tasks[ticket@.index].claimed,
        old(store)@.tasks[ticket@.index].issue_id == ticket@.issue_id,
        old(store)@.tasks[ticket@.index].recipient == ticket@.recipient,
        old(store)@.tasks[ticket@.index].retry_count == ticket@.retry_count,
    ensures
        final(store).wf(),
        task_resolution(old(store)@, final(store)@, ticket@.index, send_ok, now, cfg, outcome),
{
    let ghost pre = store@;
    let i = ticket.index;
    if send_ok {
        store.tasks.remove(i);
        proof {
            assert(store@.tasks =~= pre.tasks.remove(i as int));
            assert(store@.records =~= pre.records);
            assert(store@.issues =~= pre.issues);
            assert(store@.abandoned =~= pre.abandoned);
            lemma_wf_after_task_remove(pre, store@, i as int);
        }
        TaskOutcome::Sent
    } else if store.tasks[i].retry_count >= cfg.max_retries {
        let removed = store.tasks.remove(i);
        store.abandoned.push(
            AbandonedDelivery {
                issue_id: removed.issue_id,
                recipient: removed.recipient,
                attempts_made: removed.retry_count + 1,
            },
        );
        proof {
            assert(store@.tasks =~= pre.tasks.remove(i as int));
            assert(store@.records =~= pre.records);
            assert(store@.issues =~= pre.issues);
            assert(store@.abandoned =~= pre.abandoned.push(
                (AbandonModel {
                    issue_id: pre.tasks[i as int].issue_id,
                    recipient: pre.tasks[i as int].recipient,
                    attempts_made: (pre.tasks[i as int].retry_count + 1) as u64,
                }),
            ));
            lemma_wf_after_task_remove(pre, store@, i as int);
        }
        TaskOutcome::Abandoned
    } else {
        let retry_count = store.tasks[i].retry_count + 1;
        let delay = backoff_delay(cfg.backoff_base, retry_count);
        let execute_after = if now <= u64::MAX - delay {
            now + delay
        } else {
            u64::MAX
        };
        let released = DeliveryTask {
            issue_id: store.tasks[i].issue_id,
            recipient: store.tasks[i].recipient.clone(),
            retry_count,
            execute_after,
            created_at: store.tasks[i].created_at,
            claimed: false,
        };
        store.tasks.set(i, released);
        proof {
            assert(store@.tasks =~= pre.tasks.update(
                i as int,
                rescheduled_task(pre.tasks[i as int], now, cfg),
            ));
            assert(store@.records =~= pre.records);
            assert(store@.issues =~= pre.issues);
            assert(store@.abandoned =~= pre.abandoned);
            lemma_wf_after_task_update(
                pre,
                store@,
                i as int,
                rescheduled_task(pre.tasks[i as int], now, cfg),
            );
        }
        TaskOutcome::Rescheduled
    }
}

/// What one worker pass does to the store: either no row was both due and
/// unclaimed and nothing moved, or the first such row was claimed and then
/// resolved by the send outcome.
pub open spec fn pass_post(
    pre: StoreModel,
    post: StoreModel,
    now: u64,
    send_ok: bool,
    cfg: WorkerConfig,
    r: PassOutcome,
) -> bool {
    match r {
        PassOutcome::QueueEmpty => post == pre && no_due_task(pre.tasks, now),
        PassOutcome::TaskProcessed(t_out) => exists|i: int|
            is_first_due(pre.tasks, now, i) && #[trigger] task_resolution(
                pre,
                post,
                i,
                send_ok,
                now,
                cfg,
                t_out,
            ),
    }
}

/// One worker pass, with the send outcome injected: claim the first visible
/// task and resolve it. This is the single-pass entry point; the driving
/// loop performs the real send between claim and resolution.
pub fn try_claim_and_process(store: &mut Store, now: u64, send_ok: bool, cfg: WorkerConfig) -> (r:
    PassOutcome)
    requires
        old(store).wf(),
        cfg.wf(),
    ensures
        final(store).wf(),
        pass_post(old(store)@, final(store)@, now, send_ok, cfg, r),
{
    let ghost pre = store@;
    let ticket = match claim_next(store, now) {
        None => {
            return PassOutcome::QueueEmpty;
        },
        Some(t) => t,
    };
    let ghost mid = store@;
    let ghost i = ticket@.index;
    let out = resolve_claim(store, ticket, send_ok, now, cfg);
    proof {
        let post = store@;
        assert(mid.tasks[i].retry_count == pre.tasks[i].retry_count);
        if send_ok {
            assert(post.tasks =~= mid.tasks.remove(i));
            assert(post.tasks =~= pre.tasks.remove(i));
        } else if pre.tasks[i].retry_count >= cfg.max_retries {
            assert(post.tasks =~= pre.tasks.remove(i));
            assert(post.abandoned =~= pre.abandoned.push(
                (AbandonModel {
                    issue_id: pre.tasks[i].issue_id,
                    recipient: pre.tasks[i].recipient,
                    attempts_made: (pre.tasks[i].retry_count + 1) as u64,
                }),
            ));
        } else {
            assert(rescheduled_task(mid.tasks[i], now, cfg) == rescheduled_task(
                pre.tasks[i],
                now,
                cfg,
            ));
            assert(post.tasks =~= pre.tasks.update(i, rescheduled_task(pre.tasks[i], now, cfg)));
        }
        assert(task_resolution(pre, post, i, send_ok, now, cfg, out));
    }
    PassOutcome::TaskProcessed(out)
}

/// The rows a full drain leaves behind: those not yet due at this instant,
/// and those exclusively held by other workers.
pub open spec fn not_due_tasks(ts: Seq<TaskModel>, now: u64) -> Seq<TaskModel>
    decreases ts.len(),
{
    if ts.len() == 0 {
        Seq::empty()
    } else if task_due(ts.last(), now) {
        not_due_tasks(ts.drop_last(), now)
    } else {
        not_due_tasks(ts.drop_last(), now).push(ts.last())
    }
}

/// A relation with no visible task is left exactly as it is.
pub proof fn lemma_not_due_tasks_all(ts: Seq<TaskModel>, now: u64)
    requires
        no_due_task(ts, now),
    ensures
        not_due_tasks(ts, now) =~= ts,
    decreases ts.len(),
{
    if ts.len() > 0 {
        assert(!task_due(ts[ts.len() - 1], now));
        assert forall|k: int| 0 <= k < ts.drop_last().len() implies !task_due(
            #[trigger] ts.drop_last()[k],
            now,
        ) by {
            assert(ts.drop_last()[k] == ts[k]);
        }
        lemma_not_due_tasks_all(ts.drop_last(), now);
    }
}

/// Removing a visible row does not change what a drain leaves behind.
pub proof fn lemma_not_due_tasks_remove_due(ts: Seq<TaskModel>, now: u64, i: int)
    requires
        0 <= i < ts.len(),
        task_due(ts[i], now),
    ensures
        not_due_tasks(ts.remove(i), now) =~= not_due_tasks(ts, now),
    decreases ts.len(),
{
    if i == ts.len() - 1 {
        assert(ts.remove(i) =~= ts.drop_last());
    } else {
        let ts2 = ts.drop_last();
        assert(ts.remove(i).drop_last() =~= ts2.remove(i));
        assert(ts.remove(i).last() == ts.last());
        assert(ts2[i] == ts[i]);
        lemma_not_due_tasks_remove_due(ts2, now, i);
    }
}

/// What a drain leaves behind is made of rows of the relation it started
/// from that were not visible, and every row that was not visible is
/// still there.
pub proof fn lemma_not_due_tasks_membership(ts: Seq<TaskModel>, now: u64)
    ensures
        forall|k: int|
            0 <= k < not_due_tasks(ts, now).len() ==> !task_due(
                #[trigger] not_due_tasks(ts, now)[k],
                now,
            ) && ts.contains(not_due_tasks(ts, now)[k]),
        forall|k: int|
            0 <= k < ts.len() && !task_due(#[trigger] ts[k], now) ==> not_due_tasks(
                ts,
                now,
            ).contains(ts[k]),
    decreases ts.len(),
{
    if ts.len() > 0 {
        let prefix = ts.drop_last();
        let rest = not_due_tasks(prefix, now);
        let whole = not_due_tasks(ts, now);
        lemma_not_due_tasks_membership(prefix, now);
        assert forall|k: int| 0 <= k < whole.len() implies !task_due(#[trigger] whole[k], now)
            && ts.contains(whole[k]) by {
            if task_due(ts.last(), now) || k < rest.len() {
                assert(whole[k] == rest[k]);
                let i = choose|i: int| 0 <= i < prefix.len() && prefix[i] == rest[k];
                assert(ts[i] == whole[k]);
            } else {
                assert(whole[k] == ts.last());
                assert(ts[ts.len() - 1] == whole[k]);
            }
        }
        assert forall|k: int| 0 <= k < ts.len() && !task_due(#[trigger] ts[k], now) implies whole
            .contains(ts[k]) by {
            if k < ts.len() - 1 {
                assert(prefix[k] == ts[k]);
                let i = choose|i: int| 0 <= i < rest.len() && rest[i] == prefix[k];
                assert(whole[i] == ts[k]);
            } else {
                assert(whole.last() == ts[k]);
            }
        }
    }
}

/// Drain the queue at one instant: invoke the single-pass entry point until
/// it reports the queue empty, every send succeeding. Every row that was
/// due and unclaimed is processed and deleted exactly once; rows not yet
/// due, and rows held by other workers, are untouched; the pass after the
/// last deletion reports the queue empty. Returns how many tasks were
/// processed.
pub fn drain_due(store: &mut Store, now: u64, cfg: WorkerConfig) -> (n: usize)
    requires
        old(store).wf(),
        cfg.wf(),
    ensures
        final(store).wf(),
        final(store)@.tasks =~= not_due_tasks(old(store)@.tasks, now),
        no_due_task(final(store)@.tasks, now),
        n == old(store)@.tasks.len() - final(store)@.tasks.len(),
        final(store)@.records == old(store)@.records,
        final(store)@.issues == old(store)@.issues,
        final(store)@.abandoned == old(store)@.abandoned,
        final(store)@.next_issue_id == old(store)@.next_issue_id,
{
    let ghost pre = store@;
    let start_len = store.tasks.len();
    loop
        invariant
            pre == old(store)@,
            store.wf(),
            cfg.wf(),
            start_len == pre.tasks.len(),
            not_due_tasks(store@.tasks, now) =~= not_due_tasks(pre.tasks, now),
            store@.tasks.len() <= pre.tasks.len(),
            store@.records == pre.records,
            store@.issues == pre.issues,
            store@.abandoned == pre.abandoned,
            store@.next_issue_id == pre.next_issue_id,
        decreases store@.tasks.len(),
    {
        let ghost cur = store@;
        match try_claim_and_process(store, now, true, cfg) {
            PassOutcome::TaskProcessed(out) => {
                proof {
                    let i = choose|i: int|
                        is_first_due(cur.tasks, now, i) && #[trigger] task_resolution(
                            cur,
                            store@,
                            i,
                            true,
                            now,
                            cfg,
                            out,
                        );
                    lemma_not_due_tasks_remove_due(cur.tasks, now, i);
                    assert(store@.tasks.len() == cur.tasks.len() - 1);
                }
            },
            PassOutcome::QueueEmpty => {
                proof {
                    lemma_not_due_tasks_all(store@.tasks, now);
                }
                let remaining = store.tasks.len();
                return start_len - remaining;
            },
        }
    }
}

/// At-most-once claim law: a claim is granted only on a row not already
/// held, and two claims granted one after the other hold different rows —
/// no two worker instances ever hold the same delivery at the same time.
pub proof fn lemma_claims_exclusive(
    s0: StoreModel,
    s1: StoreModel,
    s2: StoreModel,
    now1: u64,
    now2: u64,
    c1: ClaimModel,
    c2: ClaimModel,
)
    requires
        store_wf(s0),
        claim_post(s0, s1, now1, c1),
        claim_post(s1, s2, now2, c2),
    ensures
        !s0.tasks[c1.index].claimed,
        s1.tasks[c1.index].claimed,
        c1.index != c2.index,
        !(c1.issue_id == c2.issue_id && c1.recipient == c2.recipient),
{
    assert(s1.tasks[c1.index].claimed);
    assert(task_due(s1.tasks[c2.index], now2));
    assert(c1.index != c2.index);
    assert(s1.tasks[c2.index] == s0.tasks[c2.index]);
    if c1.index < c2.index {
        assert(!(s0.tasks[c1.index].issue_id == s0.tasks[c2.index].issue_id
            && s0.tasks[c1.index].recipient == s0.tasks[c2.index].recipient));
    } else {
        assert(!(s0.tasks[c2.index].issue_id == s0.tasks[c1.index].issue_id
            && s0.tasks[c2.index].recipient == s0.tasks[c1.index].recipient));
    }
}

/// Retry-bound law, growth: resolving a claim never grows the task
/// relation; a failure with the retry budget spent deletes the task for
/// good and records the failure with its total attempt count; a failure
/// within budget raises the retry counter by exactly one.
pub proof fn lemma_retry_bound(
    pre: StoreModel,
    post: StoreModel,
    i: int,
    send_ok: bool,
    now: u64,
    cfg: WorkerConfig,
    outcome: TaskOutcome,
)
    requires
        task_resolution(pre, post, i, send_ok, now, cfg, outcome),
        pre.tasks[i].retry_count < u64::MAX,
    ensures
        post.tasks.len() <= pre.tasks.len(),
        (!send_ok && pre.tasks[i].retry_count >= cfg.max_retries) ==> (outcome
            == TaskOutcome::Abandoned && post.tasks.len() == pre.tasks.len() - 1
            && post.abandoned.len() == pre.abandoned.len() + 1 && post.abandoned.last().attempts_made
            == pre.tasks[i].retry_count + 1),
        (!send_ok && pre.tasks[i].retry_count < cfg.max_retries) ==> (outcome
            == TaskOutcome::Rescheduled && post.tasks.len() == pre.tasks.len()
            && post.tasks[i].retry_count == pre.tasks[i].retry_count + 1),
{
}

/// Engine of the whole-run retry-bound law: follow one delivery, starting
/// wherever its retry counter stands, through a chain of resolutions that
/// all fail.
proof fn lemma_failing_run_from(
    states: Seq<StoreModel>,
    rows: Seq<int>,
    nows: Seq<u64>,
    outcomes: Seq<TaskOutcome>,
    cfg: WorkerConfig,
    issue_id: u64,
    recipient: Seq<char>,
)
    requires
        cfg.wf(),
        states.len() == rows.len() + 1,
        nows.len() == rows.len(),
        outcomes.len() == rows.len(),
        rows.len() >= 1,
        forall|k: int| 0 <= k < states.len() ==> store_wf(#[trigger] states[k]),
        forall|k: int|
            0 <= k < rows.len() ==> 0 <= #[trigger] rows[k] < states[k].tasks.len() && task_keyed(
                states[k].tasks[rows[k]],
                issue_id,
                recipient,
            ),
        forall|k: int|
            0 <= k < rows.len() ==> task_resolution(
                #[trigger] states[k],
                states[k + 1],
                rows[k],
                false,
                nows[k],
                cfg,
                outcomes[k],
            ),
        states[0].tasks[rows[0]].retry_count <= cfg.max_retries,
    ensures
        rows.len() + states[0].tasks[rows[0]].retry_count <= cfg.max_retries + 1,
        forall|k: int|
            0 <= k < rows.len() ==> (#[trigger] states[k]).tasks[rows[k]].retry_count == states[0].tasks[rows[0]].retry_count
                + k,
        rows.len() + states[0].tasks[rows[0]].retry_count == cfg.max_retries + 1 ==> ({
            &&& outcomes.last() == TaskOutcome::Abandoned
            &&& forall|i: int|
                0 <= i < states.last().tasks.len() ==> !task_keyed(
                    #[trigger] states.last().tasks[i],
                    issue_id,
                    recipient,
                )
            &&& states.last().abandoned =~= states[rows.len() - 1].abandoned.push(
                (AbandonModel {
                    issue_id,
                    recipient,
                    attempts_made: (cfg.max_retries + 1) as u64,
                }),
            )
        }),
    decreases rows.len(),
{
    let n = rows.len();
    let s0 = states[0];
    let s1 = states[1];
    let r = rows[0];
    let r0 = s0.tasks[r].retry_count;
    assert(task_resolution(s0, s1, r, false, nows[0], cfg, outcomes[0]));
    if r0 >= cfg.max_retries {
        // The first attempt already exhausts the budget: the row is deleted
        // and no row for this delivery remains, so the chain ends here.
        assert forall|i: int| 0 <= i < s1.tasks.len() implies !task_keyed(
            #[trigger] s1.tasks[i],
            issue_id,
            recipient,
        ) by {
            let pa = if i < r {
                i
            } else {
                i + 1
            };
            assert(s1.tasks[i] == s0.tasks[pa]);
            if task_keyed(s0.tasks[pa], issue_id, recipient) {
                if pa < r {
                    assert(!(s0.tasks[pa].issue_id == s0.tasks[r].issue_id && s0.tasks[pa].recipient
                        == s0.tasks[r].recipient));
                } else {
                    assert(!(s0.tasks[r].issue_id == s0.tasks[pa].issue_id && s0.tasks[r].recipient
                        == s0.tasks[pa].recipient));
                }
            }
        }
        if n >= 2 {
            assert(0 <= rows[1] < states[1].tasks.len() && task_keyed(
                states[1].tasks[rows[1]],
                issue_id,
                recipient,
            ));
            assert(false);
        }
        assert(states.last() == s1);
        assert(states[n - 1] == s0);
        assert(s1.abandoned =~= s0.abandoned.push(
            (AbandonModel { issue_id, recipient, attempts_made: (cfg.max_retries + 1) as u64 }),
        ));
    } else {
        // Within budget: the row is released with one more retry spent, and
        // the rest of the chain continues from there.
        let resched = rescheduled_task(s0.tasks[r], nows[0], cfg);
        assert(s1.tasks =~= s0.tasks.update(r, resched));
        assert(task_keyed(s1.tasks[r], issue_id, recipient));
        assert(s1.tasks[r].retry_count == r0 + 1);
        if n == 1 {
            assert(n + r0 <= cfg.max_retries + 1);
        } else {
            // The next attempt's row must be this same row: the composite
            // key is unique in the released state.
            let r1 = rows[1];
            assert(task_keyed(s1.tasks[r1], issue_id, recipient));
            if r1 != r {
                if r1 < r {
                    assert(!(s1.tasks[r1].issue_id == s1.tasks[r].issue_id && s1.tasks[r1].recipient
                        == s1.tasks[r].recipient));
                } else {
                    assert(!(s1.tasks[r].issue_id == s1.tasks[r1].issue_id && s1.tasks[r].recipient
                        == s1.tasks[r1].recipient));
                }
            }
            assert(r1 == r);
            let states2 = states.drop_first();
            let rows2 = rows.drop_first();
            let nows2 = nows.drop_first();
            let outcomes2 = outcomes.drop_first();
            assert forall|k: int| 0 <= k < states2.len() implies store_wf(#[trigger] states2[k]) by {
                assert(states2[k] == states[k + 1]);
            }
            assert forall|k: int| 0 <= k < rows2.len() implies 0 <= #[trigger] rows2[k]
                < states2[k].tasks.len() && task_keyed(
                states2[k].tasks[rows2[k]],
                issue_id,
                recipient,
            ) by {
                assert(rows2[k] == rows[k + 1]);
                assert(states2[k] == states[k + 1]);
            }
            assert forall|k: int| 0 <= k < rows2.len() implies task_resolution(
                #[trigger] states2[k],
                states2[k + 1],
                rows2[k],
                false,
                nows2[k],
                cfg,
                outcomes2[k],
            ) by {
                assert(states2[k] == states[k + 1]);
                assert(states2[k + 1] == states[k + 2]);
                assert(rows2[k] == rows[k + 1]);
                assert(nows2[k] == nows[k + 1]);
                assert(outcomes2[k] == outcomes[k + 1]);
            }
            assert(states2[0].tasks[rows2[0]].retry_count == r0 + 1);
            lemma_failing_run_from(states2, rows2, nows2, outcomes2, cfg, issue_id, recipient);
            assert forall|k: int| 0 <= k < rows.len() implies (
            #[trigger] states[k]).tasks[rows[k]].retry_count == r0 + k by {
                if k >= 1 {
                    assert(states2[k - 1].tasks[rows2[k - 1]].retry_count == (r0 + 1) + (k - 1));
                    assert(states2[k - 1] == states[k]);
                    assert(rows2[k - 1] == rows[k]);
                }
            }
            assert(states.last() == states2.last());
            assert(outcomes.last() == outcomes2.last());
            if n + r0 == cfg.max_retries + 1 {
                assert(rows2.len() + (r0 + 1) == cfg.max_retries + 1);
                assert(states2[rows2.len() - 1] == states[n - 1]);
            }
        }
    }
}

/// Retry-bound law, whole run: a delivery whose send always fails is
/// resolved at most 1 + max_retries times; a chain of exactly that many
/// failing attempts raises the retry counter by one per attempt from zero,
/// ends with the row deleted and the failure recorded with its total
/// attempt count, and leaves no row for that delivery behind — so no
/// further attempt can ever be made.
pub proof fn lemma_failing_run_abandons(
    states: Seq<StoreModel>,
    rows: Seq<int>,
    nows: Seq<u64>,
    outcomes: Seq<TaskOutcome>,
    cfg: WorkerConfig,
    issue_id: u64,
    recipient: Seq<char>,
)
    requires
        cfg.wf(),
        states.len() == rows.len() + 1,
        nows.len() == rows.len(),
        outcomes.len() == rows.len(),
        rows.len() >= 1,
        forall|k: int| 0 <= k < states.len() ==> store_wf(#[trigger] states[k]),
        forall|k: int|
            0 <= k < rows.len() ==> 0 <= #[trigger] rows[k] < states[k].tasks.len() && task_keyed(
                states[k].tasks[rows[k]],
                issue_id,
                recipient,
            ),
        forall|k: int|
            0 <= k < rows.len() ==> task_resolution(
                #[trigger] states[k],
                states[k + 1],
                rows[k],
                false,
                nows[k],
                cfg,
                outcomes[k],
            ),
        states[0].tasks[rows[0]].retry_count == 0,
    ensures
        rows.len() <= cfg.max_retries + 1,
        forall|k: int|
            0 <= k < rows.len() ==> (#[trigger] states[k]).tasks[rows[k]].retry_count == k,
        rows.len() == cfg.max_retries + 1 ==> ({
            &&& outcomes.last() == TaskOutcome::Abandoned
            &&& forall|i: int|
                0 <= i < states.last().tasks.len() ==> !task_keyed(
                    #[trigger] states.last().tasks[i],
                    issue_id,
                    recipient,
                )
            &&& states.last().abandoned =~= states[rows.len() - 1].abandoned.push(
                (AbandonModel {
                    issue_id,
                    recipient,
                    attempts_made: (cfg.max_retries + 1) as u64,
                }),
            )
        }),
{
    lemma_failing_run_from(states, rows, nows, outcomes, cfg, issue_id, recipient);
}

/// Retry-bound law, backoff: releasing a failed task pushes its not-before
/// time strictly forward whenever the clock itself has room left, so the
/// retries of one task run at strictly increasing times.
pub proof fn lemma_backoff_strictly_increases(t: TaskModel, now: u64, cfg: WorkerConfig)
    requires
        cfg.wf(),
        t.retry_count < u64::MAX,
        t.execute_after <= now,
        now < u64::MAX,
    ensures
        rescheduled_task(t, now, cfg).execute_after > t.execute_after,
{
    lemma_backoff_at_least_base(cfg.backoff_base, (t.retry_count + 1) as nat);
}

} // verus!
