use syntaqlite::catalog::{AritySpec, Catalog, CatalogLayer, ColumnResolution, FunctionCategory, FunctionCheckResult};
use syntaqlite::dialect::{BuiltinFunction, Dialect, DialectFunctionCategory};
use syntaqlite::schema::{FunctionInput, SchemaInput, TableInput};

fn sqlite_catalog() -> Catalog {
    Catalog::new(&Dialect::new(Vec::new()))
}

fn builtin(name: &str, category: DialectFunctionCategory, arities: &[i16]) -> BuiltinFunction {
    BuiltinFunction { name: name.to_string(), category, arities: arities.to_vec() }
}

#[test]
fn catalog_add_table_and_resolve() {
    let mut cat = sqlite_catalog();
    cat.layer_mut(CatalogLayer::Database).insert_table(
        "users",
        Some(vec!["id".to_string(), "name".to_string()]),
        false,
    );
    assert!(cat.resolve_relation("users"));
    assert!(cat.resolve_relation("USERS")); // case-insensitive
    assert!(!cat.resolve_relation("orders"));
}

#[test]
fn catalog_add_view_and_resolve() {
    let mut cat = sqlite_catalog();
    cat.layer_mut(CatalogLayer::Database).insert_view("active_users", Some(vec!["id".to_string()]));
    assert!(cat.resolve_relation("active_users"));
}

#[test]
fn catalog_add_function_and_check() {
    let mut cat = sqlite_catalog();
    cat.layer_mut(CatalogLayer::Database).insert_function_overload("my_func", FunctionCategory::Scalar, AritySpec::Exact(2));
    assert!(matches!(cat.check_function("my_func", 2), FunctionCheckResult::Accepted));
    assert!(matches!(cat.check_function("my_func", 1), FunctionCheckResult::WrongArity { .. }));
}

#[test]
fn catalog_add_variadic_function() {
    let mut cat = sqlite_catalog();
    cat.layer_mut(CatalogLayer::Database).insert_function_overload("variadic_fn", FunctionCategory::Scalar, AritySpec::Any);
    assert!(matches!(cat.check_function("variadic_fn", 0), FunctionCheckResult::Accepted));
    assert!(matches!(cat.check_function("variadic_fn", 100), FunctionCheckResult::Accepted));
}

#[test]
fn catalog_clear_database() {
    let mut cat = sqlite_catalog();
    cat.layer_mut(CatalogLayer::Database).insert_table("tmp", Some(vec!["id".to_string()]), false);
    assert!(cat.resolve_relation("tmp"));
    cat.new_database();
    assert!(!cat.resolve_relation("tmp"));
}

#[test]
fn catalog_is_view() {
    let mut cat = sqlite_catalog();
    cat.layer_mut(CatalogLayer::Database).insert_table("users", Some(vec!["id".into()]), false);
    cat.layer_mut(CatalogLayer::Database).insert_view("active_users", Some(vec!["id".into()]));

    assert!(!cat.is_view("users"));
    assert!(cat.is_view("active_users"));
    assert!(!cat.is_view("nonexistent"));
}

#[test]
fn connection_layer_survives_new_document() {
    let mut cat = sqlite_catalog();
    cat.layer_mut(CatalogLayer::Connection).insert_table("session_tbl", Some(vec!["a".into()]), false);
    assert!(cat.resolve_relation("session_tbl"));
    cat.new_document();
    assert!(cat.resolve_relation("session_tbl"));
    cat.new_connection();
    assert!(!cat.resolve_relation("session_tbl"));
}

#[test]
fn document_layer_shadows_connection_and_database() {
    let mut cat = sqlite_catalog();
    cat.layer_mut(CatalogLayer::Database).insert_table("t", Some(vec!["db_col".into()]), false);
    cat.layer_mut(CatalogLayer::Connection).insert_table("t", Some(vec!["conn_col".into()]), false);
    assert_eq!(cat.columns_for_table_source("t"), Some(vec!["conn_col".to_string()]));
    cat.layer_mut(CatalogLayer::Document).insert_table("T", Some(vec!["doc_col".into()]), false);
    assert_eq!(cat.columns_for_table_source("t"), Some(vec!["doc_col".to_string()]));
    cat.new_document();
    assert_eq!(cat.columns_for_table_source("t"), Some(vec!["conn_col".to_string()]));
}

#[test]
fn query_scope_shadows_and_pops() {
    let mut cat = sqlite_catalog();
    cat.layer_mut(CatalogLayer::Database).insert_table("t", Some(vec!["a".into()]), false);
    cat.add_query_table("ignored", None); // no query scope open: nothing happens
    assert!(!cat.resolve_relation("ignored"));
    cat.push_query_scope();
    cat.add_query_table("t", Some(vec!["b".into()]));
    assert_eq!(cat.columns_for_table_source("t"), Some(vec!["b".to_string()]));
    cat.pop_query_scope();
    assert_eq!(cat.columns_for_table_source("t"), Some(vec!["a".to_string()]));
    // Popping with no query scope open leaves the fixed layers alone.
    cat.pop_query_scope();
    assert!(cat.resolve_relation("t"));
}

#[test]
fn qualified_column_resolution() {
    let mut cat = sqlite_catalog();
    let db = cat.layer_mut(CatalogLayer::Database);
    db.insert_table("users", Some(vec!["id".into(), "Name".into()]), false);
    db.insert_table("kv", Some(vec!["key".into()]), true);
    db.insert_table("blob", None, false);
    assert_eq!(
        cat.resolve_column(Some("USERS"), "name"),
        ColumnResolution::Found { table: "users".into(), all_columns: vec!["id".into(), "Name".into()] }
    );
    assert_eq!(
        cat.resolve_column(Some("users"), "rowid"),
        ColumnResolution::Found { table: "users".into(), all_columns: vec!["id".into(), "Name".into()] }
    );
    assert_eq!(cat.resolve_column(Some("kv"), "rowid"), ColumnResolution::TableFoundColumnMissing);
    assert_eq!(cat.resolve_column(Some("users"), "email"), ColumnResolution::TableFoundColumnMissing);
    assert_eq!(cat.resolve_column(Some("nope"), "id"), ColumnResolution::TableNotFound);
    assert_eq!(
        cat.resolve_column(Some("blob"), "anything"),
        ColumnResolution::Found { table: "blob".into(), all_columns: vec![] }
    );
}

#[test]
fn unqualified_column_resolution() {
    let mut cat = sqlite_catalog();
    cat.layer_mut(CatalogLayer::Database).insert_table("users", Some(vec!["id".into()]), false);
    assert_eq!(
        cat.resolve_column(None, "ID"),
        ColumnResolution::Found { table: "users".into(), all_columns: vec!["id".into()] }
    );
    assert_eq!(cat.resolve_column(None, "missing"), ColumnResolution::NotFound);
    cat.layer_mut(CatalogLayer::Document).insert_view("v", None);
    assert_eq!(cat.resolve_column(None, "missing"), ColumnResolution::Found { table: String::new(), all_columns: vec![] });
}

#[test]
fn wrong_arity_lists_sorted_fixed_arities() {
    let mut cat = sqlite_catalog();
    let db = cat.layer_mut(CatalogLayer::Database);
    db.insert_function_overload("f", FunctionCategory::Scalar, AritySpec::Exact(3));
    db.insert_function_overload("F", FunctionCategory::Scalar, AritySpec::Exact(1));
    db.insert_function_overload("f", FunctionCategory::Scalar, AritySpec::Exact(3));
    db.insert_function_overload("f", FunctionCategory::Scalar, AritySpec::AtLeast(5));
    assert_eq!(cat.check_function("f", 2), FunctionCheckResult::WrongArity { expected: vec![1, 3] });
    assert_eq!(cat.check_function("f", 7), FunctionCheckResult::Accepted);
    assert_eq!(cat.check_function("g", 0), FunctionCheckResult::Unknown);
    assert_eq!(
        cat.function_signature("F"),
        Some((FunctionCategory::Scalar, vec![AritySpec::Exact(3), AritySpec::Exact(1), AritySpec::Exact(3), AritySpec::AtLeast(5)]))
    );
    assert_eq!(cat.function_signature("g"), None);
}

#[test]
fn dialect_builtins_are_loaded() {
    let dialect = Dialect::new(vec![
        builtin("abs", DialectFunctionCategory::Scalar, &[1]),
        builtin("printf", DialectFunctionCategory::Scalar, &[-2]),
        builtin("count", DialectFunctionCategory::Aggregate, &[0, 1]),
        builtin("json_each", DialectFunctionCategory::TableValued, &[1, 2]),
        builtin("random", DialectFunctionCategory::Scalar, &[]),
    ]);
    let cat = Catalog::new(&dialect);
    assert_eq!(cat.check_function("ABS", 1), FunctionCheckResult::Accepted);
    assert_eq!(cat.check_function("abs", 2), FunctionCheckResult::WrongArity { expected: vec![1] });
    assert_eq!(cat.check_function("printf", 0), FunctionCheckResult::WrongArity { expected: vec![] });
    assert_eq!(cat.check_function("printf", 1), FunctionCheckResult::Accepted);
    assert_eq!(cat.check_function("random", 9), FunctionCheckResult::Accepted);
    assert_eq!(
        cat.function_signature("count"),
        Some((FunctionCategory::Aggregate, vec![AritySpec::Exact(0), AritySpec::Exact(1)]))
    );
    assert!(cat.resolve_table_function("JSON_EACH"));
    assert_eq!(cat.check_function("json_each", 1), FunctionCheckResult::Unknown);
    assert_eq!(cat.columns_for_table_source("json_each"), None);
    assert_eq!(cat.all_function_names(), vec!["abs", "count", "printf", "random"]);
    assert_eq!(cat.all_table_function_names(), vec!["json_each"]);
    assert!(!cat.resolve_relation("json_each"));
}

#[test]
fn enumeration_dedups_by_priority() {
    let mut cat = sqlite_catalog();
    cat.layer_mut(CatalogLayer::Database).insert_table("Users", Some(vec!["ID".into(), "Email".into()]), false);
    cat.layer_mut(CatalogLayer::Database).insert_table("items", None, false);
    cat.layer_mut(CatalogLayer::Document).insert_table("users", Some(vec!["id".into(), "name".into()]), false);
    assert_eq!(cat.all_relation_names(), vec!["items", "users"]);
    assert_eq!(cat.all_column_names(None), vec!["email", "id", "name"]);
    assert_eq!(cat.all_column_names(Some("USERS")), vec!["email", "id", "name"]);
    assert_eq!(cat.all_column_names(Some("items")), Vec::<String>::new());
}

#[test]
fn table_function_columns_are_table_source_columns() {
    let mut cat = sqlite_catalog();
    cat.layer_mut(CatalogLayer::Database).insert_table_function("series", AritySpec::Exact(2), vec!["value".into()]);
    cat.layer_mut(CatalogLayer::Database).insert_table_function("SERIES", AritySpec::Exact(3), vec!["other".into()]);
    assert_eq!(cat.columns_for_table_source("series"), Some(vec!["value".to_string()]));
    assert!(cat.resolve_table_function("Series"));
}

#[test]
fn promote_document_to_connection_keeps_ddl() {
    let mut cat = sqlite_catalog();
    cat.layer_mut(CatalogLayer::Connection).insert_table("t", Some(vec!["old".into()]), false);
    cat.layer_mut(CatalogLayer::Document).insert_table("T", Some(vec!["new".into()]), false);
    cat.layer_mut(CatalogLayer::Document).insert_view("v", None);
    cat.promote_document_to_connection();
    cat.new_document();
    assert_eq!(cat.columns_for_table_source("t"), Some(vec!["new".to_string()]));
    assert!(cat.is_view("V"));
}

#[test]
fn copy_layers_between_catalogs() {
    let mut src = sqlite_catalog();
    src.layer_mut(CatalogLayer::Database).insert_table("db_t", None, false);
    src.layer_mut(CatalogLayer::Connection).insert_table("conn_t", None, false);
    let mut dst = sqlite_catalog();
    dst.layer_mut(CatalogLayer::Connection).insert_table("mine", None, false);
    dst.copy_database_from(&src);
    assert!(dst.resolve_relation("db_t"));
    assert!(dst.resolve_relation("mine"));
    assert!(!dst.resolve_relation("conn_t"));
    dst.copy_schema_layers_from(&src);
    assert!(dst.resolve_relation("conn_t"));
    assert!(!dst.resolve_relation("mine"));
}

#[test]
fn encoded_arities_register_overloads() {
    let mut cat = sqlite_catalog();
    cat.layer_mut(CatalogLayer::Database).insert_function_arities("substr", FunctionCategory::Scalar, &[2, 3]);
    cat.layer_mut(CatalogLayer::Database).insert_function_arities("anything", FunctionCategory::Scalar, &[]);
    assert_eq!(cat.check_function("substr", 4), FunctionCheckResult::WrongArity { expected: vec![2, 3] });
    assert_eq!(cat.check_function("anything", 4), FunctionCheckResult::Accepted);
    assert_eq!(cat.function_signature("anything"), Some((FunctionCategory::Scalar, vec![AritySpec::Any])));
}

#[test]
fn from_schema_fills_database_layer() {
    let schema = SchemaInput {
        tables: vec![
            TableInput { name: "Users".into(), columns: vec!["ID".into(), "Name".into()] },
            TableInput { name: "logs".into(), columns: vec![] },
        ],
        views: vec![TableInput { name: "active".into(), columns: vec!["id".into()] }],
        functions: vec![
            FunctionInput { name: "my_func".into(), args: Some(2) },
            FunctionInput { name: "any_func".into(), args: None },
        ],
    };
    let cat = Catalog::from_schema(&Dialect::new(Vec::new()), &schema);
    assert_eq!(cat.columns_for_table_source("users"), Some(vec!["id".to_string(), "name".to_string()]));
    assert_eq!(cat.columns_for_table_source("logs"), None);
    assert!(cat.resolve_relation("logs"));
    assert!(cat.is_view("active"));
    assert!(!cat.is_view("users"));
    assert_eq!(cat.resolve_column(Some("active"), "rowid"), ColumnResolution::TableFoundColumnMissing);
    assert_eq!(cat.check_function("my_func", 1), FunctionCheckResult::WrongArity { expected: vec![2] });
    assert_eq!(cat.check_function("any_func", 5), FunctionCheckResult::Accepted);
}
