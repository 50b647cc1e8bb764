//! The idempotency store: record the outcome of a side-effecting request
//! under (caller identity, idempotency key), and answer replays with the
//! saved response instead of re-running the action.
use crate::store::{
    find_record, has_record, record_for, record_keyed, Header, IdempotencyRecord, RecordModel,
    ResponseModel, Store, StoredResponse,
};
use vstd::prelude::*;

verus! {

/// Proof that no record exists yet under (caller identity, idempotency key):
/// the token through which the protected action must save its response
/// before committing.
pub struct TransactionHandle {
    pub caller_id: u64,
    pub idempotency_key: String,
}

/// What `begin` found under the key: a saved response to replay, or leave to
/// run the action once and save its outcome.
pub enum BeginOutcome {
    Existing(StoredResponse),
    New(TransactionHandle),
}

/// Look the key up before any side effect: if a record exists, hand back the
/// saved response — the caller must not re-run the action. Otherwise hand
/// back the handle through which the caller must `save` its response inside
/// the same atomic unit as the action itself.
pub fn begin(store: &Store, caller_id: u64, idempotency_key: &String) -> (r: BeginOutcome)
    requires
        store.wf(),
    ensures
        match r {
            BeginOutcome::Existing(resp) => has_record(store@.records, caller_id, idempotency_key@)
                && resp@ == record_for(store@.records, caller_id, idempotency_key@).response,
            BeginOutcome::New(h) => !has_record(store@.records, caller_id, idempotency_key@)
                && h.caller_id == caller_id && h.idempotency_key@ == idempotency_key@,
        },
{
    match find_record(&store.records, caller_id, idempotency_key) {
        Some(i) => {
            let resp = store.records[i].response.clone();
            proof {
                crate::store::lemma_record_for_is_unique(
                    store@.records,
                    caller_id,
                    idempotency_key@,
                    i as int,
                );
            }
            BeginOutcome::Existing(resp)
        },
        None => BeginOutcome::New(
            TransactionHandle { caller_id, idempotency_key: idempotency_key.clone() },
        ),
    }
}

/// Persist the response of the action the handle guards. Called inside the
/// same atomic unit as the action's own writes, so either both or neither
/// become visible.
pub fn save(
    store: &mut Store,
    handle: TransactionHandle,
    status: u16,
    headers: Vec<Header>,
    body: Vec<u8>,
    now: u64,
)
    requires
        old(store).wf(),
        !has_record(old(store)@.records, handle.caller_id, handle.idempotency_key@),
    ensures
        final(store).wf(),
        final(store)@.records =~= old(store)@.records.push(
            RecordModel {
                caller_id: handle.caller_id,
                idempotency_key: handle.idempotency_key@,
                response: ResponseModel {
                    status,
                    headers: headers@.map_values(|h: Header| h@),
                    body: body@,
                },
                created_at: now,
            },
        ),
        final(store)@.issues == old(store)@.issues,
        final(store)@.tasks == old(store)@.tasks,
        final(store)@.abandoned == old(store)@.abandoned,
        final(store)@.next_issue_id == old(store)@.next_issue_id,
{
    let ghost pre = store@;
    store.records.push(
        IdempotencyRecord {
            caller_id: handle.caller_id,
            idempotency_key: handle.idempotency_key,
            response: StoredResponse { status, headers, body },
            created_at: now,
        },
    );
    proof {
        assert(store@.records =~= pre.records.push(store@.records.last()));
        assert(store@.issues =~= pre.issues);
        assert(store@.tasks =~= pre.tasks);
        assert(store@.abandoned =~= pre.abandoned);
        assert forall|i: int, j: int|
            #![trigger store@.records[i], store@.records[j]]
            0 <= i < j < store@.records.len() implies !(store@.records[i].caller_id
            == store@.records[j].caller_id && store@.records[i].idempotency_key
            == store@.records[j].idempotency_key) by {
            if j == store@.records.len() - 1 {
                assert(!record_keyed(pre.records[i], handle.caller_id, handle.idempotency_key@));
            }
        }
    }
}

} // verus!
