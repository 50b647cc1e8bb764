//! The success response that `publish` synthesizes for a fresh issue and
//! saves under the caller's idempotency key.
use crate::store::{ResponseModel, StoredResponse};
use vstd::prelude::*;

verus! {

/// The eight bytes of `n`, least significant first.
pub open spec fn u64_le_bytes(n: u64) -> Seq<u8> {
    seq![
        (n & 0xff) as u8,
        ((n >> 8) & 0xff) as u8,
        ((n >> 16) & 0xff) as u8,
        ((n >> 24) & 0xff) as u8,
        ((n >> 32) & 0xff) as u8,
        ((n >> 40) & 0xff) as u8,
        ((n >> 48) & 0xff) as u8,
        ((n >> 56) & 0xff) as u8,
    ]
}

/// The response a fresh publish saves and returns: success, no headers,
/// the new issue's identifier as the body.
pub open spec fn success_response_model(issue_id: u64) -> ResponseModel {
    ResponseModel { status: 200, headers: Seq::empty(), body: u64_le_bytes(issue_id) }
}

/// The body of the success response: the issue identifier, least
/// significant byte first.
pub fn encode_issue_id(issue_id: u64) -> (body: Vec<u8>)
    ensures
        body@ == u64_le_bytes(issue_id),
{
    let mut body: Vec<u8> = Vec::new();
    body.push((issue_id & 0xff) as u8);
    body.push(((issue_id >> 8) & 0xff) as u8);
    body.push(((issue_id >> 16) & 0xff) as u8);
    body.push(((issue_id >> 24) & 0xff) as u8);
    body.push(((issue_id >> 32) & 0xff) as u8);
    body.push(((issue_id >> 40) & 0xff) as u8);
    body.push(((issue_id >> 48) & 0xff) as u8);
    body.push(((issue_id >> 56) & 0xff) as u8);
    proof {
        assert(body@ =~= u64_le_bytes(issue_id));
    }
    body
}

/// Build the success response for the issue that was just created.
pub fn make_success_response(issue_id: u64) -> (r: StoredResponse)
    ensures
        r@ == success_response_model(issue_id),
{
    let r = StoredResponse { status: 200, headers: Vec::new(), body: encode_issue_id(issue_id) };
    proof {
        assert(r@ =~= success_response_model(issue_id));
    }
    r
}

} // verus!
