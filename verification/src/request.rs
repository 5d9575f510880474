//! The per-call input and the fully planned query handed to the store
//! executor. The store session itself lives outside this crate; the executor
//! reports here whether one is available, and a missing session fails the
//! call before any planning occurs.

use vstd::prelude::*;

use serde_json::Value;

use crate::errors::Error;
use crate::plan::plan_query;
use crate::plan::spec_plan;
use crate::plan::PlannedQuery;
use crate::schema::SchemaContext;
use crate::values::entry_views;

verus! {

/// The caller's input: a positive page size, an optional opaque continuation
/// cursor passed through unchanged, and the equality filter.
pub struct FilterRequest {
    pub limit: i32,
    pub start_key: Option<Vec<(String, Value)>>,
    pub filter: Vec<(String, Value)>,
}

/// Everything the store executor needs for the single bounded query it
/// issues: target table, page size, pass-through cursor, and the plan.
pub struct QueryRequest {
    pub table_name: String,
    pub limit: i32,
    pub start_key: Option<Vec<(String, Value)>>,
    pub plan: PlannedQuery,
}

/// Plans the single query of a call, after checking its one precondition.
///
/// When no store session is available the call fails with `NoSdkConfig`
/// before any planning, whatever the filter holds. Otherwise the request is
/// planned; on success the returned query carries the schema's table name,
/// the requested limit, the caller's cursor unchanged, and exactly the plan
/// that `spec_plan` assigns to (schema, filter).
pub fn prepare_query(schema: &SchemaContext, request: FilterRequest, session_available: bool) -> (r:
    Result<QueryRequest, Error>)
    requires
        request.limit >= 1,
    ensures
        !session_available ==> r == Err::<QueryRequest, Error>(Error::NoSdkConfig),
        session_available ==> match r {
            Ok(q) => spec_plan(schema@, entry_views(request.filter@)) == Ok::<_, Error>(q.plan@)
                && q.table_name == schema.table_name && q.limit == request.limit && q.start_key
                == request.start_key,
            Err(e) => e != Error::NoSdkConfig && spec_plan(schema@, entry_views(request.filter@))
                == Err::<crate::plan::PlanModel, Error>(e),
        },
{
    if !session_available {
        return Err(Error::NoSdkConfig);
    }
    match plan_query(schema, &request.filter) {
        Ok(plan) => Ok(
            QueryRequest {
                table_name: schema.table_name.clone(),
                limit: request.limit,
                start_key: request.start_key,
                plan,
            },
        ),
        Err(e) => Err(e),
    }
}

} // verus!
