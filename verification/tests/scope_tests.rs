use syntaqlite::analyzer::{format_arity, QueryScope, RowIdPolicy, SemanticAnalyzer};
use syntaqlite::catalog::{AritySpec, CatalogLayer, ColumnResolution};
use syntaqlite::config::AnalysisMode;
use syntaqlite::dialect::{BuiltinFunction, Dialect, DialectFunctionCategory};

#[test]
fn unknown_columns_table_blocks_outer_scope_leaking() {
    // If the inner scope has a table with unknown columns (None), unqualified
    // column resolution must NOT leak through to a matching column in an outer
    // scope.
    let mut scope = QueryScope::default();
    // Outer scope: simulates a correlated outer query with known columns.
    scope.push();
    scope.add_table("a", Some(vec!["id".into(), "name".into()]), RowIdPolicy::WithRowId);
    // Inner scope: "users" with unknown columns.
    scope.push();
    scope.add_table("users", None, RowIdPolicy::WithRowId);

    // Resolving "name" should NOT return table="a".
    let res = scope.resolve_column(None, "name");
    match res {
        ColumnResolution::Found { ref table, .. } => {
            assert_ne!(
                table, "a",
                "column 'name' should NOT resolve to outer scope's 'a'; \
                 inner scope has unknown-columns table that should block leaking"
            );
        }
        _ => panic!("expected Found, got {res:?}"),
    }

    scope.pop();
    scope.pop();
}

#[test]
fn anonymous_source_columns_resolve_unqualified() {
    // Anonymous sources (unaliased subqueries) should participate in
    // unqualified column resolution.
    let mut scope = QueryScope::default();
    scope.push();
    scope.add_anonymous(Some(vec!["x".into(), "y".into()]));

    let res = scope.resolve_column(None, "x");
    assert!(matches!(res, ColumnResolution::Found { .. }), "anonymous source column 'x' should resolve: {res:?}");

    // Unknown column should NOT resolve.
    let res = scope.resolve_column(None, "missing");
    assert!(matches!(res, ColumnResolution::NotFound), "column 'missing' should not resolve: {res:?}");

    scope.pop();
}

#[test]
fn anonymous_source_unknown_columns_blocks_leaking() {
    // An anonymous source with None columns (compound subquery) should
    // accept any column and block leaking to outer scopes.
    let mut scope = QueryScope::default();
    scope.push();
    scope.add_table("outer_tbl", Some(vec!["id".into()]), RowIdPolicy::WithRowId);
    scope.push();
    scope.add_anonymous(None); // unknown columns

    let res = scope.resolve_column(None, "anything");
    match res {
        ColumnResolution::Found { ref table, .. } => {
            assert_ne!(table, "outer_tbl", "should not leak to outer scope through anonymous unknown-columns source");
        }
        _ => panic!("expected Found, got {res:?}"),
    }

    scope.pop();
    scope.pop();
}

#[test]
fn anonymous_source_not_in_qualified_lookup() {
    // Anonymous sources should NOT be found by qualified (table.column) lookup.
    let mut scope = QueryScope::default();
    scope.push();
    scope.add_anonymous(Some(vec!["x".into()]));

    let res = scope.resolve_column(Some("sq"), "x");
    assert!(matches!(res, ColumnResolution::TableNotFound), "anonymous source should not match qualified lookup: {res:?}");

    scope.pop();
}

#[test]
fn correlated_subquery_sees_outer_columns() {
    let mut scope = QueryScope::default();
    assert!(!scope.has_frames());
    scope.push();
    scope.add_table("Outer", Some(vec!["a".into()]), RowIdPolicy::WithRowId);
    scope.push();
    scope.add_table("inner", Some(vec!["b".into()]), RowIdPolicy::WithRowId);
    assert!(scope.has_frames());
    assert_eq!(
        scope.resolve_column(None, "A"),
        ColumnResolution::Found { table: "outer".into(), all_columns: vec!["a".into()] }
    );
    assert_eq!(
        scope.resolve_column(Some("OUTER"), "a"),
        ColumnResolution::Found { table: "OUTER".into(), all_columns: vec!["a".into()] }
    );
    assert_eq!(scope.resolve_column(Some("inner"), "a"), ColumnResolution::TableFoundColumnMissing);
    assert_eq!(scope.resolve_column(None, "zzz"), ColumnResolution::NotFound);
    scope.pop();
    assert_eq!(scope.resolve_column(Some("inner"), "b"), ColumnResolution::TableNotFound);
}

#[test]
fn rowid_policy_controls_implicit_rowid() {
    let mut scope = QueryScope::default();
    scope.push();
    scope.add_table("t", Some(vec!["k".into()]), RowIdPolicy::from(false));
    scope.add_table("w", Some(vec!["k".into()]), RowIdPolicy::from(true));
    assert_eq!(
        scope.resolve_column(Some("t"), "ROWID"),
        ColumnResolution::Found { table: "t".into(), all_columns: vec!["k".into()] }
    );
    assert_eq!(scope.resolve_column(Some("w"), "_rowid_"), ColumnResolution::TableFoundColumnMissing);
    assert_eq!(RowIdPolicy::from(true), RowIdPolicy::WithoutRowId);
}

#[test]
fn scope_without_frames_ignores_tables() {
    let mut scope = QueryScope::default();
    scope.add_table("t", Some(vec!["a".into()]), RowIdPolicy::WithRowId);
    scope.add_anonymous(Some(vec!["a".into()]));
    scope.pop();
    assert_eq!(scope.resolve_column(None, "a"), ColumnResolution::NotFound);
    assert_eq!(scope.all_column_names(None), Vec::<String>::new());
}

#[test]
fn scope_column_names_sorted_and_filtered() {
    let mut scope = QueryScope::default();
    scope.push();
    scope.add_table("a", Some(vec!["Zed".into(), "id".into()]), RowIdPolicy::WithRowId);
    scope.push();
    scope.add_table("b", Some(vec!["ID".into(), "beta".into()]), RowIdPolicy::WithRowId);
    scope.add_anonymous(Some(vec!["anon".into()]));
    assert_eq!(scope.all_column_names(None), vec!["anon", "beta", "id", "zed"]);
    assert_eq!(scope.all_column_names(Some("A")), vec!["id", "zed"]);
}

#[test]
fn format_arity_renders_signatures() {
    assert_eq!(format_arity("abs", AritySpec::Exact(1)), "abs(arg1)");
    assert_eq!(format_arity("substr", AritySpec::Exact(3)), "substr(arg1, arg2, arg3)");
    assert_eq!(format_arity("random", AritySpec::Exact(0)), "random()");
    assert_eq!(format_arity("printf", AritySpec::AtLeast(1)), "printf(arg1, ...)");
    assert_eq!(format_arity("f", AritySpec::AtLeast(0)), "f(...)");
    assert_eq!(format_arity("coalesce", AritySpec::Any), "coalesce(...)");
    assert_eq!(format_arity("g", AritySpec::Exact(10)).len(), "g(arg1, arg2, arg3, arg4, arg5, arg6, arg7, arg8, arg9, arg10)".len());
}

#[test]
fn analyzer_builders() {
    let dialect = Dialect::new(vec![BuiltinFunction {
        name: "abs".into(),
        category: DialectFunctionCategory::Scalar,
        arities: vec![1],
    }]);
    let mut az = SemanticAnalyzer::with_dialect(dialect).with_mode(AnalysisMode::Execute).with_macro_fallback(true);
    assert_eq!(az.dialect().builtin_functions().len(), 1);
    assert!(az.catalog().resolve_relation("x") == false);
    az.set_mode(AnalysisMode::Document);
    assert_eq!(
        az.catalog().check_function("ABS", 1),
        syntaqlite::catalog::FunctionCheckResult::Accepted
    );
    assert!(az.catalog().all_relation_names().is_empty());
    let _ = CatalogLayer::Database;
}
