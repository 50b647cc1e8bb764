//! The issue publisher: validate the input, create the issue row, fan it out
//! into one delivery task per confirmed recipient, and save the synthesized
//! response under the caller's idempotency key — all as one atomic unit.
use crate::idempotency::{begin, save, BeginOutcome};
use crate::response::{encode_issue_id, make_success_response, success_response_model};
use crate::store::{
    has_record, issue_exists, record_for, record_keyed, store_wf, task_keyed, tasks_unique,
    DeliveryTask, Issue, IssueModel, RecordModel, ResponseModel, Store, StoreModel,
    StoredResponse, TaskModel,
};
use vstd::prelude::*;
use vstd::string::StrSliceExecFns;

verus! {

/// Rejections of a publish request; a rejected request burns no idempotency
/// key and persists nothing.
#[derive(Clone, Copy, Debug, PartialEq, Eq, Structural)]
pub enum ValidationError {
    EmptyTitle,
    EmptyTextBody,
    EmptyHtmlBody,
}

/// What a publish request came to: a fresh issue was created, a saved
/// response was replayed, or the input was rejected.
pub enum PublishOutcome {
    Accepted(StoredResponse),
    Replayed(StoredResponse),
    Rejected(ValidationError),
}

/// The saved or synthesized response an outcome carries.
pub open spec fn response_of(o: PublishOutcome) -> ResponseModel {
    match o {
        PublishOutcome::Accepted(r) => r@,
        PublishOutcome::Replayed(r) => r@,
        PublishOutcome::Rejected(_) => arbitrary(),
    }
}

/// A publish request is acceptable when the title and both bodies are
/// non-empty.
pub open spec fn valid_issue_input(title: Seq<char>, text: Seq<char>, html: Seq<char>) -> bool {
    title.len() > 0 && text.len() > 0 && html.len() > 0
}

/// The rejection an invalid request earns: the first empty field, checked in
/// the order title, text body, html body.
pub open spec fn expected_rejection(title: Seq<char>, text: Seq<char>, html: Seq<char>) -> ValidationError {
    if title.len() == 0 {
        ValidationError::EmptyTitle
    } else if text.len() == 0 {
        ValidationError::EmptyTextBody
    } else {
        ValidationError::EmptyHtmlBody
    }
}

/// The recipient set holds no address twice.
pub open spec fn recipients_distinct(rs: Seq<Seq<char>>) -> bool {
    forall|i: int, j: int| #![trigger rs[i], rs[j]] 0 <= i < j < rs.len() ==> rs[i] != rs[j]
}

/// Some task in the relation carries this (issue, recipient) pair.
pub open spec fn recipient_has_task(tasks: Seq<TaskModel>, issue_id: u64, r: Seq<char>) -> bool {
    exists|i: int| 0 <= i < tasks.len() && task_keyed(#[trigger] tasks[i], issue_id, r)
}

/// The fan-out of one issue: one fresh task per recipient, due immediately.
pub open spec fn fanout_tasks(issue_id: u64, recipients: Seq<Seq<char>>, now: u64) -> Seq<
    TaskModel,
> {
    Seq::new(
        recipients.len(),
        |i: int|
            TaskModel {
                issue_id,
                recipient: recipients[i],
                retry_count: 0,
                execute_after: now,
                created_at: now,
                claimed: false,
            },
    )
}

/// Everything `publish` does to the store, by case:
/// - a record already sits under the key: the store is untouched and the
///   saved response is replayed verbatim;
/// - the input is invalid: the store is untouched and the request rejected;
/// - otherwise one issue row, one task per recipient, and one idempotency
///   record carrying the success response are appended, as one unit.
pub open spec fn publish_post(
    pre: StoreModel,
    post: StoreModel,
    caller_id: u64,
    key: Seq<char>,
    title: Seq<char>,
    text: Seq<char>,
    html: Seq<char>,
    recipients: Seq<Seq<char>>,
    now: u64,
    outcome: PublishOutcome,
) -> bool {
    if has_record(pre.records, caller_id, key) {
        &&& post == pre
        &&& outcome matches PublishOutcome::Replayed(r) && r@ == record_for(
            pre.records,
            caller_id,
            key,
        ).response
    } else if !valid_issue_input(title, text, html) {
        &&& post == pre
        &&& outcome == PublishOutcome::Rejected(expected_rejection(title, text, html))
    } else {
        &&& post.next_issue_id == pre.next_issue_id + 1
        &&& post.issues =~= pre.issues.push(
            IssueModel {
                issue_id: pre.next_issue_id,
                title,
                text_body: text,
                html_body: html,
                published_at: now,
            },
        )
        &&& post.tasks =~= pre.tasks + fanout_tasks(pre.next_issue_id, recipients, now)
        &&& post.records =~= pre.records.push(
            RecordModel {
                caller_id,
                idempotency_key: key,
                response: success_response_model(pre.next_issue_id),
                created_at: now,
            },
        )
        &&& post.abandoned == pre.abandoned
        &&& outcome matches PublishOutcome::Accepted(r) && r@ == success_response_model(
            pre.next_issue_id,
        )
    }
}

/// Publish an issue to every confirmed recipient, guarded by the idempotency
/// store: validate, create the issue, fan out one task per recipient, save
/// the success response — or replay, or reject, leaving the store untouched.
pub fn publish(
    store: &mut Store,
    caller_id: u64,
    idempotency_key: &String,
    title: String,
    text_body: String,
    html_body: String,
    recipients: &Vec<String>,
    now: u64,
) -> (outcome: PublishOutcome)
    requires
        old(store).wf(),
        old(store).next_issue_id < u64::MAX,
        recipients_distinct(recipients@.map_values(|r: String| r@)),
    ensures
        final(store).wf(),
        publish_post(
            old(store)@,
            final(store)@,
            caller_id,
            idempotency_key@,
            title@,
            text_body@,
            html_body@,
            recipients@.map_values(|r: String| r@),
            now,
            outcome,
        ),
{
    let ghost pre = store@;
    let ghost recips = recipients@.map_values(|r: String| r@);
    let ghost title_v = title@;
    let ghost text_v = text_body@;
    let ghost html_v = html_body@;

    let handle = match begin(store, caller_id, idempotency_key) {
        BeginOutcome::Existing(resp) => {
            return PublishOutcome::Replayed(resp);
        },
        BeginOutcome::New(h) => h,
    };

    if title.as_str().unicode_len() == 0 {
        return PublishOutcome::Rejected(ValidationError::EmptyTitle);
    }
    if text_body.as_str().unicode_len() == 0 {
        return PublishOutcome::Rejected(ValidationError::EmptyTextBody);
    }
    if html_body.as_str().unicode_len() == 0 {
        return PublishOutcome::Rejected(ValidationError::EmptyHtmlBody);
    }

    let issue_id = store.next_issue_id;
    store.next_issue_id = issue_id + 1;
    store.issues.push(Issue { issue_id, title, text_body, html_body, published_at: now });

    proof {
        assert(store@.issues =~= pre.issues.push(
            IssueModel {
                issue_id,
                title: title_v,
                text_body: text_v,
                html_body: html_v,
                published_at: now,
            },
        ));
        assert(store@.records =~= pre.records);
        assert(store@.tasks =~= pre.tasks);
        assert(store@.abandoned =~= pre.abandoned);
        assert forall|i: int| 0 <= i < store@.tasks.len() implies issue_exists(
            store@.issues,
            (#[trigger] store@.tasks[i]).issue_id,
        ) by {
            let t = store@.tasks[i];
            assert(pre.tasks[i] == t);
            assert(issue_exists(pre.issues, t.issue_id));
            let j = choose|j: int|
                0 <= j < pre.issues.len() && (#[trigger] pre.issues[j]).issue_id == t.issue_id;
            assert(store@.issues[j].issue_id == t.issue_id);
        }
        assert forall|i: int| 0 <= i < pre.tasks.len() implies (#[trigger] pre.tasks[i]).issue_id
            != issue_id by {
            let t = pre.tasks[i];
            assert(issue_exists(pre.issues, t.issue_id));
            let j = choose|j: int|
                0 <= j < pre.issues.len() && (#[trigger] pre.issues[j]).issue_id == t.issue_id;
            assert(pre.issues[j].issue_id < pre.next_issue_id);
        }
        assert(store.wf());
    }

    let ghost s1 = store@;
    let n = recipients.len();
    let mut k: usize = 0;
    while k < n
        invariant
            k <= n,
            n == recipients@.len(),
            recips == recipients@.map_values(|r: String| r@),
            recipients_distinct(recips),
            store@.records == s1.records,
            store@.issues == s1.issues,
            store@.abandoned == s1.abandoned,
            store@.next_issue_id == s1.next_issue_id,
            store@.tasks =~= s1.tasks + fanout_tasks(issue_id, recips, now).take(k as int),
            s1.tasks == pre.tasks,
            forall|i: int| 0 <= i < pre.tasks.len() ==> (#[trigger] pre.tasks[i]).issue_id
                != issue_id,
            0 < s1.issues.len() && s1.issues.last().issue_id == issue_id,
            store.wf(),
        decreases n - k,
    {
        let recipient = recipients[k].clone();
        let ghost before = store@;
        store.tasks.push(
            DeliveryTask {
                issue_id,
                recipient,
                retry_count: 0,
                execute_after: now,
                created_at: now,
                claimed: false,
            },
        );
        proof {
            let ghost fo = fanout_tasks(issue_id, recips, now);
            assert(store@.tasks =~= before.tasks.push(fo[k as int]));
            assert(fo.take(k as int + 1) =~= fo.take(k as int).push(fo[k as int]));
            assert(store@.tasks =~= s1.tasks + fo.take(k as int + 1));
            assert(store@.records =~= before.records);
            assert(store@.issues =~= before.issues);
            assert(store@.abandoned =~= before.abandoned);
            let m = store@.tasks.len() - 1;
            assert forall|i: int, j: int|
                #![trigger store@.tasks[i], store@.tasks[j]]
                0 <= i < j < store@.tasks.len() implies !(store@.tasks[i].issue_id
                == store@.tasks[j].issue_id && store@.tasks[i].recipient
                == store@.tasks[j].recipient) by {
                if j == m {
                    if i < s1.tasks.len() {
                        assert(store@.tasks[i] == pre.tasks[i]);
                        assert(store@.tasks[i].issue_id != issue_id);
                    } else {
                        let a = i - s1.tasks.len();
                        assert(store@.tasks[i] == fo[a]);
                        assert(fo[a].recipient == recips[a]);
                        assert(recips[a] != recips[k as int]);
                    }
                }
            }
            assert forall|i: int| 0 <= i < store@.tasks.len() implies (
            #[trigger] store@.tasks[i]).retry_count < u64::MAX by {
                if i < before.tasks.len() {
                    assert(store@.tasks[i] == before.tasks[i]);
                }
            }
            assert forall|i: int| 0 <= i < store@.tasks.len() implies issue_exists(
                store@.issues,
                (#[trigger] store@.tasks[i]).issue_id,
            ) by {
                if i < before.tasks.len() {
                    assert(store@.tasks[i] == before.tasks[i]);
                    assert(issue_exists(before.issues, before.tasks[i].issue_id));
                    assert(store@.issues == before.issues);
                } else {
                    let j = store@.issues.len() - 1;
                    assert(store@.issues[j].issue_id == issue_id);
                    assert(issue_exists(store@.issues, issue_id));
                }
            }
            assert(store.wf());
        }
        k += 1;
    }

    proof {
        assert(fanout_tasks(issue_id, recips, now).take(n as int) =~= fanout_tasks(
            issue_id,
            recips,
            now,
        ));
        assert(store@.tasks =~= pre.tasks + fanout_tasks(issue_id, recips, now));
    }

    let body = encode_issue_id(issue_id);
    save(store, handle, 200, Vec::new(), body, now);

    let resp = make_success_response(issue_id);
    proof {
        assert(store@.records.last().response =~= success_response_model(issue_id));
        assert(store@.records =~= pre.records.push(
            RecordModel {
                caller_id,
                idempotency_key: idempotency_key@,
                response: success_response_model(issue_id),
                created_at: now,
            },
        ));
    }
    PublishOutcome::Accepted(resp)
}

/// Idempotency law: once a publish under a key has gone through — fresh or
/// replayed — a second publish under the same key, whatever payload it
/// carries, changes nothing and returns the identical saved response; at
/// most one issue row ever exists for the key.
pub proof fn lemma_publish_idempotent(
    pre: StoreModel,
    mid: StoreModel,
    post: StoreModel,
    caller_id: u64,
    key: Seq<char>,
    title1: Seq<char>,
    text1: Seq<char>,
    html1: Seq<char>,
    recips1: Seq<Seq<char>>,
    now1: u64,
    o1: PublishOutcome,
    title2: Seq<char>,
    text2: Seq<char>,
    html2: Seq<char>,
    recips2: Seq<Seq<char>>,
    now2: u64,
    o2: PublishOutcome,
)
    requires
        store_wf(pre),
        store_wf(mid),
        publish_post(pre, mid, caller_id, key, title1, text1, html1, recips1, now1, o1),
        publish_post(mid, post, caller_id, key, title2, text2, html2, recips2, now2, o2),
        !(o1 is Rejected),
    ensures
        post == mid,
        o2 is Replayed,
        response_of(o2) == response_of(o1),
        o1 is Accepted ==> mid.issues.len() == pre.issues.len() + 1,
        o1 is Replayed ==> mid == pre,
{
    if o1 is Accepted {
        let rec = RecordModel {
            caller_id,
            idempotency_key: key,
            response: success_response_model(pre.next_issue_id),
            created_at: now1,
        };
        let i = pre.records.len() as int;
        assert(mid.records[i] == rec);
        assert(record_keyed(mid.records[i], caller_id, key));
        crate::store::lemma_record_for_is_unique(mid.records, caller_id, key, i);
        assert(has_record(mid.records, caller_id, key));
    } else {
        assert(has_record(pre.records, caller_id, key));
        assert(mid == pre);
    }
}

/// Fan-out completeness law: a fresh publish grows the task relation by
/// exactly the size of the recipient set, every recipient's
/// (issue, recipient) pair is present, and no pair appears twice.
pub proof fn lemma_fanout_complete(
    pre: StoreModel,
    post: StoreModel,
    caller_id: u64,
    key: Seq<char>,
    title: Seq<char>,
    text: Seq<char>,
    html: Seq<char>,
    recipients: Seq<Seq<char>>,
    now: u64,
    o: PublishOutcome,
)
    requires
        store_wf(pre),
        store_wf(post),
        publish_post(pre, post, caller_id, key, title, text, html, recipients, now, o),
        o is Accepted,
    ensures
        post.tasks.len() == pre.tasks.len() + recipients.len(),
        forall|k: int|
            0 <= k < recipients.len() ==> recipient_has_task(
                post.tasks,
                pre.next_issue_id,
                #[trigger] recipients[k],
            ),
        tasks_unique(post.tasks),
{
    assert(!has_record(pre.records, caller_id, key));
    assert forall|k: int| 0 <= k < recipients.len() implies recipient_has_task(
        post.tasks,
        pre.next_issue_id,
        #[trigger] recipients[k],
    ) by {
        let i = pre.tasks.len() + k;
        assert(post.tasks[i] == fanout_tasks(pre.next_issue_id, recipients, now)[k]);
        assert(task_keyed(post.tasks[i], pre.next_issue_id, recipients[k]));
    }
}

} // verus!
