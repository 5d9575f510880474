use record_query::errors::Error;
use record_query::plan::plan_query;
use record_query::schema::SchemaContext;
use serde_json::Value;

fn s(x: &str) -> String {
    x.to_string()
}

fn v(x: &str) -> Value {
    Value::String(x.to_string())
}

fn schema_with_team_index() -> SchemaContext {
    SchemaContext::new(
        s("functions"),
        s("id"),
        vec![(s("team_id"), s("team_id-index"))],
    )
}

#[test]
fn primary_key_filter_plans_key_condition_only() {
    let schema = SchemaContext::new(s("functions"), s("id"), vec![]);
    let filter = vec![(s("id"), v("abc"))];
    match plan_query(&schema, &filter) {
        Ok(p) => {
            assert_eq!(p.key_attribute, "id");
            assert!(!p.uses_index);
            assert_eq!(p.index_name, None);
            assert_eq!(p.key_condition, "#id_key = :id_val");
            assert_eq!(p.filter_condition, "deleted_at != :deleted_at_val");
            assert_eq!(p.bindings.len(), 1);
            assert_eq!(p.bindings[0].0, ":id_val");
            assert_eq!(p.bindings[0].1, v("abc"));
            assert_eq!(p.name_aliases.len(), 1);
            assert_eq!(p.name_aliases[0].0, "#id_key");
            assert_eq!(p.name_aliases[0].1, "id");
        }
        Err(_) => panic!("planning should succeed"),
    }
}

#[test]
fn index_filter_plans_index_and_residual_condition() {
    let schema = schema_with_team_index();
    let filter = vec![(s("team_id"), v("t1")), (s("name"), v("create_function"))];
    match plan_query(&schema, &filter) {
        Ok(p) => {
            assert_eq!(p.key_attribute, "team_id");
            assert!(p.uses_index);
            assert_eq!(p.index_name, Some(s("team_id-index")));
            assert_eq!(p.key_condition, "#team_id_key = :team_id_val");
            assert_eq!(
                p.filter_condition,
                "#name_key = :name_val and deleted_at != :deleted_at_val"
            );
            assert_eq!(p.bindings.len(), 2);
            assert_eq!(p.bindings[0].0, ":team_id_val");
            assert_eq!(p.bindings[0].1, v("t1"));
            assert_eq!(p.bindings[1].0, ":name_val");
            assert_eq!(p.bindings[1].1, v("create_function"));
            assert_eq!(p.name_aliases.len(), 2);
            assert_eq!(p.name_aliases[0].0, "#team_id_key");
            assert_eq!(p.name_aliases[0].1, "team_id");
            assert_eq!(p.name_aliases[1].0, "#name_key");
            assert_eq!(p.name_aliases[1].1, "name");
        }
        Err(_) => panic!("planning should succeed"),
    }
}

#[test]
fn empty_filter_fails_with_no_key_condition() {
    let schema = schema_with_team_index();
    let filter: Vec<(String, Value)> = vec![];
    match plan_query(&schema, &filter) {
        Ok(_) => panic!("planning should fail"),
        Err(e) => {
            assert_eq!(e, Error::NoKeyCondition);
            assert_eq!(e.code(), "NO_KEY_CONDITION");
        }
    }
}

#[test]
fn unindexed_filter_fails_with_no_key_condition() {
    let schema = schema_with_team_index();
    let filter = vec![(s("name"), v("create_function"))];
    match plan_query(&schema, &filter) {
        Ok(_) => panic!("planning should fail"),
        Err(e) => assert_eq!(e, Error::NoKeyCondition),
    }
}

#[test]
fn primary_key_wins_over_index_attribute() {
    let schema = schema_with_team_index();
    let filter = vec![(s("team_id"), v("t1")), (s("id"), v("abc"))];
    match plan_query(&schema, &filter) {
        Ok(p) => {
            assert_eq!(p.key_attribute, "id");
            assert!(!p.uses_index);
            assert_eq!(p.index_name, None);
            assert_eq!(
                p.filter_condition,
                "#team_id_key = :team_id_val and deleted_at != :deleted_at_val"
            );
        }
        Err(_) => panic!("planning should succeed"),
    }
}

#[test]
fn index_tie_break_is_lexicographic() {
    let schema = SchemaContext::new(
        s("functions"),
        s("id"),
        vec![(s("zeta"), s("zeta-index")), (s("alpha"), s("alpha-index"))],
    );
    let filter = vec![(s("zeta"), v("z")), (s("alpha"), v("a"))];
    match plan_query(&schema, &filter) {
        Ok(p) => {
            assert_eq!(p.key_attribute, "alpha");
            assert!(p.uses_index);
            assert_eq!(p.index_name, Some(s("alpha-index")));
        }
        Err(_) => panic!("planning should succeed"),
    }
}

#[test]
fn tie_break_handles_prefix_and_non_ascii_names() {
    // "grad" precedes "grade", and both precede "gräd" ('ä' > 'r' by scalar
    // value after the shared prefix "gr").
    let schema = SchemaContext::new(
        s("functions"),
        s("id"),
        vec![
            (s("gräd"), s("umlaut-index")),
            (s("grade"), s("grade-index")),
            (s("grad"), s("grad-index")),
        ],
    );
    let filter = vec![(s("gräd"), v("x")), (s("grade"), v("y")), (s("grad"), v("z"))];
    match plan_query(&schema, &filter) {
        Ok(p) => {
            assert_eq!(p.key_attribute, "grad");
            assert_eq!(p.index_name, Some(s("grad-index")));
            assert_eq!(p.key_condition, "#grad_key = :grad_val");
        }
        Err(_) => panic!("planning should succeed"),
    }
}

#[test]
fn duplicate_attribute_fails_with_ambiguous_filter_attribute() {
    let schema = schema_with_team_index();
    let filter = vec![(s("id"), v("a")), (s("id"), v("b"))];
    match plan_query(&schema, &filter) {
        Ok(_) => panic!("planning should fail"),
        Err(e) => {
            assert_eq!(e, Error::AmbiguousFilterAttribute);
            assert_eq!(e.code(), "AMBIGUOUS_FILTER_ATTRIBUTE");
        }
    }
}

#[test]
fn replanning_the_same_pair_is_byte_identical() {
    let schema = schema_with_team_index();
    let filter = vec![(s("team_id"), v("t1")), (s("name"), v("create_function"))];
    let first = plan_query(&schema, &filter);
    let second = plan_query(&schema, &filter);
    match (first, second) {
        (Ok(a), Ok(b)) => {
            assert_eq!(a.key_attribute, b.key_attribute);
            assert_eq!(a.uses_index, b.uses_index);
            assert_eq!(a.index_name, b.index_name);
            assert_eq!(a.key_condition, b.key_condition);
            assert_eq!(a.filter_condition, b.filter_condition);
            assert_eq!(a.bindings, b.bindings);
            assert_eq!(a.name_aliases, b.name_aliases);
        }
        _ => panic!("both plans should succeed"),
    }
}

#[test]
fn soft_delete_conjunct_is_always_last() {
    let schema = schema_with_team_index();
    let with_residual = vec![(s("id"), v("x")), (s("name"), v("y"))];
    let without_residual = vec![(s("id"), v("x"))];
    for filter in [with_residual, without_residual] {
        match plan_query(&schema, &filter) {
            Ok(p) => assert!(p.filter_condition.ends_with("deleted_at != :deleted_at_val")),
            Err(_) => panic!("planning should succeed"),
        }
    }
}
