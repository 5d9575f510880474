use record_query::errors::Error;
use record_query::request::prepare_query;
use record_query::request::FilterRequest;
use record_query::response::build_response;
use record_query::schema::SchemaContext;
use serde_json::Value;

fn s(x: &str) -> String {
    x.to_string()
}

fn v(x: &str) -> Value {
    Value::String(x.to_string())
}

#[test]
fn missing_session_fails_before_planning() {
    let schema = SchemaContext::new(s("functions"), s("id"), vec![]);
    // The filter is empty, so planning would also fail; the session check
    // still comes first.
    let request = FilterRequest { limit: 1, start_key: None, filter: vec![] };
    match prepare_query(&schema, request, false) {
        Ok(_) => panic!("the call should fail"),
        Err(e) => {
            assert_eq!(e, Error::NoSdkConfig);
            assert_eq!(e.code(), "NO_SDK_CONFIG");
        }
    }
}

#[test]
fn prepared_query_carries_table_limit_and_cursor() {
    let schema = SchemaContext::new(s("functions"), s("id"), vec![]);
    let cursor = vec![(s("id"), v("last-seen"))];
    let request = FilterRequest {
        limit: 25,
        start_key: Some(cursor.clone()),
        filter: vec![(s("id"), v("abc"))],
    };
    match prepare_query(&schema, request, true) {
        Ok(q) => {
            assert_eq!(q.table_name, "functions");
            assert_eq!(q.limit, 25);
            assert_eq!(q.start_key, Some(cursor));
            assert_eq!(q.plan.key_condition, "#id_key = :id_val");
        }
        Err(_) => panic!("the call should succeed"),
    }
}

#[test]
fn planning_failure_passes_through_when_session_present() {
    let schema = SchemaContext::new(s("functions"), s("id"), vec![]);
    let request = FilterRequest { limit: 1, start_key: None, filter: vec![] };
    match prepare_query(&schema, request, true) {
        Ok(_) => panic!("the call should fail"),
        Err(e) => assert_eq!(e, Error::NoKeyCondition),
    }
}

#[test]
fn one_record_with_continuation_key() {
    let record = v("record-1");
    let cursor = v("cursor");
    let envelope = build_response(vec![record.clone()], Some(cursor.clone()));
    assert_eq!(envelope.data.len(), 1);
    assert_eq!(envelope.data[0], record);
    assert_eq!(envelope.pagination.count, 1);
    assert_eq!(envelope.pagination.last_record_keys, Some(cursor));
    assert_eq!(envelope.message, "Successfully retrieved 1 records");
}

#[test]
fn no_continuation_key_means_no_cursor_field() {
    let records = vec![v("a"), v("b"), v("c")];
    let envelope = build_response(records, None);
    assert_eq!(envelope.pagination.count, 3);
    assert_eq!(envelope.pagination.last_record_keys, None);
    assert_eq!(envelope.message, "Successfully retrieved 3 records");
}

#[test]
fn empty_page_counts_zero() {
    let envelope = build_response(vec![], None);
    assert_eq!(envelope.pagination.count, 0);
    assert_eq!(envelope.data.len(), 0);
    assert_eq!(envelope.message, "Successfully retrieved 0 records");
}

#[test]
fn multi_digit_counts_render_in_decimal() {
    let records = vec![Value::Null; 12];
    let envelope = build_response(records, None);
    assert_eq!(envelope.pagination.count, 12);
    assert_eq!(envelope.message, "Successfully retrieved 12 records");
}

#[test]
fn three_digit_counts_render_in_decimal() {
    let records = vec![Value::Null; 105];
    let envelope = build_response(records, None);
    assert_eq!(envelope.pagination.count, 105);
    assert_eq!(envelope.message, "Successfully retrieved 105 records");
}

#[test]
fn error_codes_and_messages_are_stable() {
    assert_eq!(Error::NoSdkConfig.code(), "NO_SDK_CONFIG");
    assert_eq!(
        Error::NoSdkConfig.message(),
        "No store sdk config found in handler context"
    );
    assert_eq!(Error::NoKeyCondition.code(), "NO_KEY_CONDITION");
    assert_eq!(
        Error::NoKeyCondition.message(),
        "Please provide at least a primary key or an index field to be able to query"
    );
    assert_eq!(
        Error::AmbiguousFilterAttribute.code(),
        "AMBIGUOUS_FILTER_ATTRIBUTE"
    );
    assert_eq!(
        Error::AmbiguousFilterAttribute.message(),
        "Two filter attributes map to the same placeholder name"
    );
}
