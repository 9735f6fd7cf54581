use syntaqlite::catalog::{AritySpec, FunctionCategory, FunctionCheckResult};
use syntaqlite::catalog_core::{CatalogChain, CatalogLayer};

#[test]
fn function_shadowing_uses_first_layer_only() {
    let mut high = CatalogLayer::default();
    high.insert_function_overload("abs", FunctionCategory::Scalar, AritySpec::Exact(2));

    let mut low = CatalogLayer::default();
    low.insert_function_overload("abs", FunctionCategory::Scalar, AritySpec::Exact(1));

    let chain = CatalogChain::with_layers(vec![&high, &low]);

    assert_eq!(chain.check_function("abs", 2), FunctionCheckResult::Accepted);
    assert_eq!(chain.check_function("abs", 1), FunctionCheckResult::WrongArity { expected: vec![2] });
}

#[test]
fn function_lookup_supports_more_than_three_layers() {
    let empty_a = CatalogLayer::default();
    let empty_b = CatalogLayer::default();
    let empty_c = CatalogLayer::default();
    let mut fourth = CatalogLayer::default();
    fourth.insert_function_overload("sum", FunctionCategory::Aggregate, AritySpec::Any);
    fourth.insert_function_overload("rank", FunctionCategory::Window, AritySpec::Exact(0));

    let mut chain = CatalogChain::new();
    chain.push_layer(&empty_a);
    chain.push_layer(&empty_b);
    chain.push_layer(&empty_c);
    chain.push_layer(&fourth);
    assert_eq!(chain.check_function("sum", 0), FunctionCheckResult::Accepted);
    assert_eq!(chain.check_function("sum", 12), FunctionCheckResult::Accepted);
    assert_eq!(chain.all_function_names(), vec!["rank".to_string(), "sum".to_string()]);
}

#[test]
fn encoded_arities_handle_at_least_correctly() {
    let mut layer = CatalogLayer::default();
    layer.insert_function_arities("printf", FunctionCategory::Scalar, &[-2]);
    let chain = CatalogChain::with_layers(vec![&layer]);

    assert_eq!(chain.check_function("printf", 0), FunctionCheckResult::WrongArity { expected: Vec::new() });
    assert_eq!(chain.check_function("printf", 1), FunctionCheckResult::Accepted);
}

#[test]
fn relation_lookup_uses_layer_precedence() {
    let mut high = CatalogLayer::default();
    high.insert_relation("users", vec!["id".into()]);
    let mut low = CatalogLayer::default();
    low.insert_relation("users", vec!["id".into(), "email".into()]);

    let chain = CatalogChain::with_layers(vec![&high, &low]);
    let users = chain.relation("users").expect("users relation should exist");
    assert_eq!(users.columns, vec!["id"]);
}

#[test]
fn relation_names_deduplicate_in_precedence_order() {
    let mut high = CatalogLayer::default();
    high.insert_relation("Users", vec![]);
    high.insert_relation("Orders", vec![]);
    let mut low = CatalogLayer::default();
    low.insert_relation("users", vec![]);
    low.insert_relation("items", vec![]);

    let chain = CatalogChain::with_layers(vec![&high, &low]);
    assert_eq!(
        chain.all_relation_names(),
        vec!["items".to_string(), "Orders".to_string(), "Users".to_string()]
    );
}

#[test]
fn table_functions_are_first_class_layered_objects() {
    let mut high = CatalogLayer::default();
    high.insert_table_function_overload("json_each", AritySpec::Exact(1), vec!["value".into()]);
    let mut low = CatalogLayer::default();
    low.insert_table_function_overload("json_each", AritySpec::Exact(2), vec!["value".into(), "type".into()]);

    let chain = CatalogChain::with_layers(vec![&high, &low]);
    let tf = chain.table_function("json_each").expect("table function should resolve");
    assert_eq!(tf.output_columns, vec!["value"]);
    assert_eq!(chain.all_table_function_names(), vec!["json_each".to_string()]);
}

#[test]
fn chain_lookups_ignore_case_and_report_unknown() {
    let mut layer = CatalogLayer::default();
    layer.insert_relation("Users", vec!["id".into()]);
    layer.insert_relation("USERS", vec!["id".into(), "name".into()]);
    layer.insert_function_overload("Lower", FunctionCategory::Scalar, AritySpec::Exact(1));
    let chain = CatalogChain::with_layers(vec![&layer]);
    let users = chain.relation("users").expect("users");
    assert_eq!(users.name, "USERS");
    assert_eq!(users.columns, vec!["id", "name"]);
    assert!(chain.relation("orders").is_none());
    assert!(chain.table_function("users").is_none());
    assert_eq!(chain.check_function("nope", 1), FunctionCheckResult::Unknown);
    assert_eq!(chain.all_function_names(), vec!["Lower".to_string()]);
    assert!(layer.function("LOWER").is_some());
    assert!(layer.table_function("lower").is_none());
    assert!(layer.relation("uSeRs").is_some());
}

#[test]
fn chain_encoded_arities() {
    let mut layer = CatalogLayer::default();
    layer.insert_function_arities("substr", FunctionCategory::Scalar, &[3, 2, 3]);
    layer.insert_function_arities("nothing", FunctionCategory::Scalar, &[]);
    layer.insert_function_arities("any", FunctionCategory::Scalar, &[-1]);
    let chain = CatalogChain::with_layers(vec![&layer]);
    assert_eq!(chain.check_function("substr", 1), FunctionCheckResult::WrongArity { expected: vec![2, 3] });
    assert_eq!(chain.check_function("nothing", 7), FunctionCheckResult::Accepted);
    assert_eq!(chain.check_function("any", 0), FunctionCheckResult::Accepted);
}
