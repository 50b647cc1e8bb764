//! The three persisted relations of the delivery core — idempotency records,
//! newsletter issues, and per-recipient delivery tasks — held as one
//! in-memory store with the uniqueness invariants that the design relies on.
use vstd::prelude::*;

verus! {

/// One response header: a name/value pair.
pub struct Header {
    pub name: String,
    pub value: String,
}

/// A saved response: what the caller of a side-effecting request received,
/// kept so that a retry with the same idempotency key can be answered
/// verbatim without re-running the action.
pub struct StoredResponse {
    pub status: u16,
    pub headers: Vec<Header>,
    pub body: Vec<u8>,
}

/// The recorded outcome of one side-effecting request, keyed by
/// (caller identity, client-supplied idempotency key). Immutable once written.
pub struct IdempotencyRecord {
    pub caller_id: u64,
    pub idempotency_key: String,
    pub response: StoredResponse,
    pub created_at: u64,
}

/// One published newsletter issue. Immutable once written.
pub struct Issue {
    pub issue_id: u64,
    pub title: String,
    pub text_body: String,
    pub html_body: String,
    pub published_at: u64,
}

/// One pending delivery: issue `issue_id` still owes an email to `recipient`.
/// `claimed` marks the row as exclusively held by one worker instance;
/// a claimed row is invisible to every other worker.
pub struct DeliveryTask {
    pub issue_id: u64,
    pub recipient: String,
    pub retry_count: u64,
    pub execute_after: u64,
    pub created_at: u64,
    pub claimed: bool,
}

/// The recorded failure of a delivery whose retry budget ran out:
/// the task was removed and a human/ops channel is expected to follow up.
pub struct AbandonedDelivery {
    pub issue_id: u64,
    pub recipient: String,
    pub attempts_made: u64,
}

/// The durable store of the delivery core: the three relations plus the
/// counter that mints fresh issue identifiers, and the log of abandoned
/// deliveries.
pub struct Store {
    pub records: Vec<IdempotencyRecord>,
    pub issues: Vec<Issue>,
    pub tasks: Vec<DeliveryTask>,
    pub abandoned: Vec<AbandonedDelivery>,
    pub next_issue_id: u64,
}

#[verifier::ext_equal]
pub ghost struct HeaderModel {
    pub name: Seq<char>,
    pub value: Seq<char>,
}

#[verifier::ext_equal]
pub ghost struct ResponseModel {
    pub status: u16,
    pub headers: Seq<HeaderModel>,
    pub body: Seq<u8>,
}

#[verifier::ext_equal]
pub ghost struct RecordModel {
    pub caller_id: u64,
    pub idempotency_key: Seq<char>,
    pub response: ResponseModel,
    pub created_at: u64,
}

#[verifier::ext_equal]
pub ghost struct IssueModel {
    pub issue_id: u64,
    pub title: Seq<char>,
    pub text_body: Seq<char>,
    pub html_body: Seq<char>,
    pub published_at: u64,
}

#[verifier::ext_equal]
pub ghost struct TaskModel {
    pub issue_id: u64,
    pub recipient: Seq<char>,
    pub retry_count: u64,
    pub execute_after: u64,
    pub created_at: u64,
    pub claimed: bool,
}

#[verifier::ext_equal]
pub ghost struct AbandonModel {
    pub issue_id: u64,
    pub recipient: Seq<char>,
    pub attempts_made: u64,
}

#[verifier::ext_equal]
pub ghost struct StoreModel {
    pub records: Seq<RecordModel>,
    pub issues: Seq<IssueModel>,
    pub tasks: Seq<TaskModel>,
    pub abandoned: Seq<AbandonModel>,
    pub next_issue_id: u64,
}

impl View for Header {
    type V = HeaderModel;

    open spec fn view(&self) -> HeaderModel {
        HeaderModel { name: self.name@, value: self.value@ }
    }
}

impl View for StoredResponse {
    type V = ResponseModel;

    open spec fn view(&self) -> ResponseModel {
        ResponseModel {
            status: self.status,
            headers: self.headers@.map_values(|h: Header| h@),
            body: self.body@,
        }
    }
}

impl View for IdempotencyRecord {
    type V = RecordModel;

    open spec fn view(&self) -> RecordModel {
        RecordModel {
            caller_id: self.caller_id,
            idempotency_key: self.idempotency_key@,
            response: self.response@,
            created_at: self.created_at,
        }
    }
}

impl View for Issue {
    type V = IssueModel;

    open spec fn view(&self) -> IssueModel {
        IssueModel {
            issue_id: self.issue_id,
            title: self.title@,
            text_body: self.text_body@,
            html_body: self.html_body@,
            published_at: self.published_at,
        }
    }
}

impl View for DeliveryTask {
    type V = TaskModel;

    open spec fn view(&self) -> TaskModel {
        TaskModel {
            issue_id: self.issue_id,
            recipient: self.recipient@,
            retry_count: self.retry_count,
            execute_after: self.execute_after,
            created_at: self.created_at,
            claimed: self.claimed,
        }
    }
}

impl View for AbandonedDelivery {
    type V = AbandonModel;

    open spec fn view(&self) -> AbandonModel {
        AbandonModel {
            issue_id: self.issue_id,
            recipient: self.recipient@,
            attempts_made: self.attempts_made,
        }
    }
}

impl View for Store {
    type V = StoreModel;

    open spec fn view(&self) -> StoreModel {
        StoreModel {
            records: self.records@.map_values(|r: IdempotencyRecord| r@),
            issues: self.issues@.map_values(|i: Issue| i@),
            tasks: self.tasks@.map_values(|t: DeliveryTask| t@),
            abandoned: self.abandoned@.map_values(|a: AbandonedDelivery| a@),
            next_issue_id: self.next_issue_id,
        }
    }
}

impl Clone for Header {
    fn clone(&self) -> (r: Self)
        ensures
            r == *self,
    {
        Header { name: self.name.clone(), value: self.value.clone() }
    }
}

impl Clone for StoredResponse {
    fn clone(&self) -> (r: Self)
        ensures
            r@ == self@,
    {
        let r = StoredResponse {
            status: self.status,
            headers: self.headers.clone(),
            body: self.body.clone(),
        };
        proof {
            assert forall|i: int| 0 <= i < self.headers@.len() implies r.headers@[i]
                == self.headers@[i] by {
                assert(cloned::<Header>(self.headers@[i], r.headers@[i]));
            }
            assert(r.headers@.map_values(|h: Header| h@) =~= self.headers@.map_values(
                |h: Header| h@,
            ));
            assert forall|i: int| 0 <= i < self.body@.len() implies r.body@[i]
                == self.body@[i] by {
                assert(cloned::<u8>(self.body@[i], r.body@[i]));
            }
            assert(r.body@ =~= self.body@);
            assert(r@ =~= self@);
        }
        r
    }
}

/// A record answers a request when it carries that request's caller identity
/// and idempotency key.
pub open spec fn record_keyed(r: RecordModel, caller_id: u64, key: Seq<char>) -> bool {
    r.caller_id == caller_id && r.idempotency_key == key
}

/// Whether some record is already stored under (caller_id, key).
pub open spec fn has_record(records: Seq<RecordModel>, caller_id: u64, key: Seq<char>) -> bool {
    exists|i: int| 0 <= i < records.len() && record_keyed(#[trigger] records[i], caller_id, key)
}

/// The record stored under (caller_id, key); well defined whenever the store
/// invariant holds, since at most one record carries a given key.
pub open spec fn record_for(records: Seq<RecordModel>, caller_id: u64, key: Seq<char>) -> RecordModel {
    records[choose|i: int| 0 <= i < records.len() && record_keyed(#[trigger] records[i], caller_id, key)]
}

/// The composite key that makes a delivery unique: which issue, to whom.
pub open spec fn task_keyed(t: TaskModel, issue_id: u64, recipient: Seq<char>) -> bool {
    t.issue_id == issue_id && t.recipient == recipient
}

/// At most one idempotency record per (caller identity, idempotency key).
pub open spec fn records_unique(rs: Seq<RecordModel>) -> bool {
    forall|i: int, j: int|
        #![trigger rs[i], rs[j]]
        0 <= i < j < rs.len() ==> !(rs[i].caller_id == rs[j].caller_id && rs[i].idempotency_key
            == rs[j].idempotency_key)
}

/// Issue identifiers are unique.
pub open spec fn issues_unique(is: Seq<IssueModel>) -> bool {
    forall|i: int, j: int|
        #![trigger is[i], is[j]]
        0 <= i < j < is.len() ==> is[i].issue_id != is[j].issue_id
}

/// At most one delivery task per (issue, recipient) pair.
pub open spec fn tasks_unique(ts: Seq<TaskModel>) -> bool {
    forall|i: int, j: int|
        #![trigger ts[i], ts[j]]
        0 <= i < j < ts.len() ==> !(ts[i].issue_id == ts[j].issue_id && ts[i].recipient
            == ts[j].recipient)
}

/// Some issue in the relation carries this identifier.
pub open spec fn issue_exists(is: Seq<IssueModel>, issue_id: u64) -> bool {
    exists|j: int| 0 <= j < is.len() && (#[trigger] is[j]).issue_id == issue_id
}

/// Every task points at an existing issue.
pub open spec fn tasks_have_issue(ts: Seq<TaskModel>, is: Seq<IssueModel>) -> bool {
    forall|i: int| 0 <= i < ts.len() ==> issue_exists(is, (#[trigger] ts[i]).issue_id)
}

/// Retry counters sit strictly below the machine bound, so one more retry
/// can always be counted.
pub open spec fn tasks_retry_bounded(ts: Seq<TaskModel>) -> bool {
    forall|i: int| 0 <= i < ts.len() ==> (#[trigger] ts[i]).retry_count < u64::MAX
}

/// Every issue identifier lies below the minting counter.
pub open spec fn issue_ids_below(is: Seq<IssueModel>, next_issue_id: u64) -> bool {
    forall|j: int| 0 <= j < is.len() ==> (#[trigger] is[j]).issue_id < next_issue_id
}

/// The invariants the store maintains at all times.
pub open spec fn store_wf(s: StoreModel) -> bool {
    &&& records_unique(s.records)
    &&& issues_unique(s.issues)
    &&& tasks_unique(s.tasks)
    &&& tasks_have_issue(s.tasks, s.issues)
    &&& tasks_retry_bounded(s.tasks)
    &&& issue_ids_below(s.issues, s.next_issue_id)
}

/// The issue stored under an identifier; well defined whenever the store
/// invariant holds, since issue identifiers are unique.
pub open spec fn issue_with_id(is: Seq<IssueModel>, issue_id: u64) -> IssueModel {
    is[choose|j: int| 0 <= j < is.len() && (#[trigger] is[j]).issue_id == issue_id]
}

/// Under the uniqueness invariant, any issue found under an identifier is
/// the one `issue_with_id` denotes.
pub proof fn lemma_issue_with_id_unique(is: Seq<IssueModel>, issue_id: u64, j: int)
    requires
        issues_unique(is),
        0 <= j < is.len(),
        is[j].issue_id == issue_id,
    ensures
        issue_exists(is, issue_id),
        issue_with_id(is, issue_id) == is[j],
{
    assert(issue_exists(is, issue_id));
    let k = choose|k: int| 0 <= k < is.len() && (#[trigger] is[k]).issue_id == issue_id;
    if j < k {
        assert(is[j].issue_id != is[k].issue_id);
    } else if k < j {
        assert(is[k].issue_id != is[j].issue_id);
    }
}

/// Under the uniqueness invariant, any record found under a key is the one
/// `record_for` denotes.
pub proof fn lemma_record_for_is_unique(
    rs: Seq<RecordModel>,
    caller_id: u64,
    key: Seq<char>,
    i: int,
)
    requires
        records_unique(rs),
        0 <= i < rs.len(),
        record_keyed(rs[i], caller_id, key),
    ensures
        has_record(rs, caller_id, key),
        record_for(rs, caller_id, key) == rs[i],
{
    assert(has_record(rs, caller_id, key));
    let j = choose|j: int| 0 <= j < rs.len() && record_keyed(#[trigger] rs[j], caller_id, key);
    if i < j {
        assert(!(rs[i].caller_id == rs[j].caller_id && rs[i].idempotency_key
            == rs[j].idempotency_key));
    } else if j < i {
        assert(!(rs[j].caller_id == rs[i].caller_id && rs[j].idempotency_key
            == rs[i].idempotency_key));
    }
}

impl Store {
    /// Well-formedness of the store, stated over its mathematical model.
    pub open spec fn wf(&self) -> bool {
        store_wf(self@)
    }

    /// A store with no records, no issues and no tasks, minting issue
    /// identifiers from zero.
    pub fn new() -> (s: Store)
        ensures
            s.wf(),
            s@.records == Seq::<RecordModel>::empty(),
            s@.issues == Seq::<IssueModel>::empty(),
            s@.tasks == Seq::<TaskModel>::empty(),
            s@.abandoned == Seq::<AbandonModel>::empty(),
            s@.next_issue_id == 0,
    {
        let s = Store {
            records: Vec::new(),
            issues: Vec::new(),
            tasks: Vec::new(),
            abandoned: Vec::new(),
            next_issue_id: 0,
        };
        proof {
            assert(s@.records =~= Seq::<RecordModel>::empty());
            assert(s@.issues =~= Seq::<IssueModel>::empty());
            assert(s@.tasks =~= Seq::<TaskModel>::empty());
            assert(s@.abandoned =~= Seq::<AbandonModel>::empty());
        }
        s
    }
}

/// Find the index of the record stored under (caller_id, key), if any.
pub fn find_record(records: &Vec<IdempotencyRecord>, caller_id: u64, key: &String) -> (r: Option<
    usize,
>)
    ensures
        match r {
            Some(i) => i < records@.len() && record_keyed(records@[i as int]@, caller_id, key@),
            None => !has_record(records@.map_values(|r: IdempotencyRecord| r@), caller_id, key@),
        },
{
    let ghost m = records@.map_values(|r: IdempotencyRecord| r@);
    let n = records.len();
    for i in 0..n
        invariant
            n == records@.len(),
            m == records@.map_values(|r: IdempotencyRecord| r@),
            forall|k: int| 0 <= k < i ==> !record_keyed(#[trigger] m[k], caller_id, key@),
    {
        if records[i].caller_id == caller_id && records[i].idempotency_key == *key {
            assert(record_keyed(m[i as int], caller_id, key@));
            return Some(i);
        }
        assert(!record_keyed(m[i as int], caller_id, key@));
    }
    return None;
}

/// Find the index of the issue with the given identifier; the store
/// invariant guarantees one exists for every task's parent.
pub fn find_issue(issues: &Vec<Issue>, issue_id: u64) -> (r: usize)
    requires
        issue_exists(issues@.map_values(|iss: Issue| iss@), issue_id),
    ensures
        r < issues@.len(),
        issues@[r as int]@.issue_id == issue_id,
{
    let ghost m = issues@.map_values(|iss: Issue| iss@);
    let n = issues.len();
    for i in 0..n
        invariant
            n == issues@.len(),
            m == issues@.map_values(|iss: Issue| iss@),
            issue_exists(m, issue_id),
            forall|k: int| 0 <= k < i ==> (#[trigger] m[k]).issue_id != issue_id,
    {
        if issues[i].issue_id == issue_id {
            return i;
        }
        assert(m[i as int].issue_id != issue_id);
    }
    proof {
        let j = choose|j: int| 0 <= j < m.len() && (#[trigger] m[j]).issue_id == issue_id;
        assert(false);
    }
    unreached()
}

} // verus!
