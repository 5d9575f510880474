//! The result mapper: assembles the response envelope from the decoded
//! records of one store page and the optional continuation key.

use vstd::prelude::*;

use serde_json::Value;

use crate::text::dec_str;
use crate::text::push_decimal;

verus! {

/// Page metadata: how many records the page holds, and — only when the store
/// indicated that more data may exist — the continuation cursor to resume
/// from. `None` means the field is absent from the serialized envelope, not
/// null.
pub struct Pagination {
    pub count: usize,
    pub last_record_keys: Option<Value>,
}

/// The response envelope of a fully successful call.
pub struct ResponseEnvelope {
    pub message: String,
    pub data: Vec<Value>,
    pub pagination: Pagination,
}

/// The human-readable success message for a page of `n` records.
pub open spec fn success_message(n: nat) -> Seq<char> {
    "Successfully retrieved "@ + dec_str(n) + " records"@
}

/// Assembles the response envelope for one page.
///
/// The records are passed through unchanged and counted; the continuation
/// cursor is present in the pagination exactly when the store returned one.
pub fn build_response(records: Vec<Value>, last_record_keys: Option<Value>) -> (r:
    ResponseEnvelope)
    ensures
        r.data == records,
        r.pagination.count == records@.len(),
        r.pagination.last_record_keys == last_record_keys,
        r.pagination.last_record_keys is Some <==> last_record_keys is Some,
        r.message@ == success_message(records@.len() as nat),
{
    let count = records.len();
    let mut message = String::new();
    message.append("Successfully retrieved ");
    push_decimal(&mut message, count as u64);
    message.append(" records");
    proof {
        assert(message@ =~= success_message(records@.len() as nat));
    }
    ResponseEnvelope {
        message,
        data: records,
        pagination: Pagination { count, last_record_keys },
    }
}

/// The record count of an assembled envelope never exceeds the requested
/// page size, provided the store honoured the bound it was given for the
/// page it returned.
pub proof fn lemma_count_within_limit(records: Seq<Value>, limit: int, count: nat)
    requires
        records.len() <= limit,
        count == records.len(),
    ensures
        count <= limit,
{
}

} // verus!
