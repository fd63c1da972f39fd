//! Database queries through the `host_db_query` import, waiting for the
//! host's answer.

use crate::host::{HostCall, HostImport};
use crate::proto::{
    db_query_request_bytes, db_query_request_wire, db_query_response_or_default, DbQueryRequest,
    DbQueryResponse,
};
use vstd::prelude::*;

verus! {

/// The call that runs `operation` on `model`, with no conditions, no field
/// list, no limit and no offset.
pub fn query(model: &str, operation: &str) -> (call: HostCall)
    ensures
        call.import == HostImport::DbQuery,
        call.request@ == db_query_request_wire(model@, operation@, None, None, 0, 0),
{
    let req = DbQueryRequest {
        model: model.to_owned(),
        operation: operation.to_owned(),
        conditions: None,
        fields: None,
        limit: 0,
        offset: 0,
    };
    HostCall { import: HostImport::DbQuery, request: req.encode_to_vec() }
}

/// The call that runs the query `req` as given.
pub fn query_raw(req: &DbQueryRequest) -> (call: HostCall)
    ensures
        call.import == HostImport::DbQuery,
        call.request@ == db_query_request_bytes(*req),
{
    HostCall { import: HostImport::DbQuery, request: req.encode_to_vec() }
}

/// Reads the reply to a query: always `Ok`, with the default response where
/// the reply does not decode.
pub fn query_reply(reply: &[u8]) -> (res: Result<DbQueryResponse, String>)
    ensures
        res matches Ok(r) && r@ == db_query_response_or_default(reply@),
{
    Ok(DbQueryResponse::decode_or_default(reply))
}

} // verus!
