use syntaqlite::diagnostics::{DiagnosticMessage, Help, Severity};
use syntaqlite::dialect::{BuiltinFunction, Dialect, DialectFunctionCategory};
use syntaqlite::relations::{ColumnDef, RelationDef, RelationKind};
use syntaqlite::schema::{FunctionInput, SchemaInput, TableInput};
use syntaqlite::validation::{
    check_column_ref, check_function_call, check_table_ref, expand_function_info, make_diagnostic, ColumnResolution,
    DocumentContext, FunctionCatalog, FunctionDef, ScopeStack, SessionContext, ValidationConfig,
};

fn col(name: &str) -> ColumnDef {
    ColumnDef { name: name.to_string(), declared_type: None, is_primary_key: false, is_nullable: true }
}

fn rel(name: &str, cols: &[&str], kind: RelationKind) -> RelationDef {
    RelationDef { name: name.to_string(), columns: cols.iter().map(|c| col(c)).collect(), kind }
}

fn func(name: &str, args: Option<usize>) -> FunctionDef {
    FunctionDef { name: name.to_string(), args, description: None }
}

fn session() -> SessionContext {
    SessionContext {
        relations: vec![
            rel("users", &["id", "email"], RelationKind::Table),
            rel("active", &["id"], RelationKind::View),
            rel("empty", &[], RelationKind::Table),
        ],
        functions: vec![func("my_func", Some(2))],
    }
}

#[test]
fn session_tables_and_views() {
    let s = session();
    let tables: Vec<&str> = s.tables().map(|r| r.name.as_str()).collect();
    let views: Vec<&str> = s.views().map(|r| r.name.as_str()).collect();
    assert_eq!(tables, vec!["users", "empty"]);
    assert_eq!(views, vec!["active"]);
    let doc = DocumentContext::new();
    assert_eq!(doc.tables().count(), 0);
    assert_eq!(DocumentContext::default().views().count(), 0);
}

#[test]
fn scope_stack_resolves_tables_and_columns() {
    let s = session();
    let mut doc = DocumentContext::new();
    doc.relations.push(rel("Orders", &["total"], RelationKind::Table));
    let mut scope = ScopeStack::new(Some(&s), Some(&doc));
    assert!(scope.resolve_table("USERS"));
    assert!(scope.resolve_table("orders"));
    assert!(!scope.resolve_table("t"));
    scope.add_table("T", Some(vec!["a".into()]));
    assert!(scope.resolve_table("t"));
    assert_eq!(scope.resolve_column(Some("t"), "A"), ColumnResolution::Found);
    assert_eq!(scope.resolve_column(Some("t"), "b"), ColumnResolution::TableFoundColumnMissing);
    assert_eq!(scope.resolve_column(Some("x"), "a"), ColumnResolution::TableNotFound);
    assert_eq!(scope.resolve_column(None, "EMAIL"), ColumnResolution::Found);
    assert_eq!(scope.resolve_column(None, "nope"), ColumnResolution::NotFound);
    scope.push();
    scope.add_table("u", None);
    assert_eq!(scope.resolve_column(None, "nope"), ColumnResolution::Found);
    assert_eq!(scope.resolve_column(Some("u"), "nope"), ColumnResolution::Found);
    scope.pop();
    scope.pop(); // the outermost scope stays
    assert!(scope.resolve_table("t"));
    assert_eq!(scope.ambient_columns_for_table("USERS"), Some(vec!["id".to_string(), "email".to_string()]));
    assert_eq!(scope.ambient_columns_for_table("empty"), None);
    assert_eq!(scope.all_table_names(), vec!["active", "empty", "orders", "t", "users"]);
    assert_eq!(scope.all_column_names(None), vec!["a", "email", "id", "total"]);
    assert_eq!(scope.all_column_names(Some("Users")), vec!["email", "id"]);
}

#[test]
fn check_table_ref_reports_with_suggestion() {
    let s = session();
    let scope = ScopeStack::new(Some(&s), None);
    let config = ValidationConfig::default();
    assert!(check_table_ref("users", 0, 5, &scope, &config).is_none());
    assert!(check_table_ref("", 0, 0, &scope, &config).is_none());
    let d = check_table_ref("usres", 7, 5, &scope, &config).expect("diagnostic");
    assert_eq!(d.start_offset, 7);
    assert_eq!(d.end_offset, 12);
    assert_eq!(d.severity, Severity::Warning);
    assert!(matches!(d.message, DiagnosticMessage::UnknownTable { ref name } if name == "usres"));
    assert!(matches!(d.help, Some(Help::Suggestion(ref s)) if s == "users"));
    let strict = ValidationConfig { strict_schema: true, suggestion_threshold: 2 };
    let d = check_table_ref("zzzzzz", 0, 1, &scope, &strict).expect("diagnostic");
    assert_eq!(d.severity, Severity::Error);
    assert!(d.help.is_none());
}

#[test]
fn check_column_ref_cases() {
    let s = session();
    let mut scope = ScopeStack::new(Some(&s), None);
    scope.add_table("t", Some(vec!["alpha".into(), "beta".into()]));
    let config = ValidationConfig::default();
    assert!(check_column_ref(None, "", 0, 0, &scope, &config).is_none());
    assert!(check_column_ref(Some("t"), "alpha", 0, 5, &scope, &config).is_none());
    assert!(check_column_ref(Some("nope"), "alpha", 0, 5, &scope, &config).is_none());
    let d = check_column_ref(Some("t"), "alpah", 3, 5, &scope, &config).expect("diagnostic");
    assert!(matches!(d.message, DiagnosticMessage::UnknownColumn { ref column, table: Some(ref t) } if column == "alpah" && t == "t"));
    assert!(matches!(d.help, Some(Help::Suggestion(ref s)) if s == "alpha"));
    let d = check_column_ref(None, "emial", 0, 5, &scope, &config).expect("diagnostic");
    assert!(matches!(d.message, DiagnosticMessage::UnknownColumn { table: None, .. }));
    assert!(matches!(d.help, Some(Help::Suggestion(ref s)) if s == "email"));
}

#[test]
fn check_function_call_cases() {
    let fs = vec![func("Round", Some(1)), func("round", Some(2)), func("coalesce", None)];
    let config = ValidationConfig::default();
    assert!(check_function_call("", 0, 0, 0, &fs, &config).is_none());
    assert!(check_function_call("ROUND", 2, 0, 5, &fs, &config).is_none());
    assert!(check_function_call("coalesce", 9, 0, 8, &fs, &config).is_none());
    let d = check_function_call("round", 3, 0, 5, &fs, &config).expect("diagnostic");
    assert!(matches!(d.message, DiagnosticMessage::FunctionArity { ref name, ref expected, got: 3 } if name == "round" && *expected == vec![1, 2]));
    assert!(d.help.is_none());
    let d = check_function_call("rond", 1, 4, 4, &fs, &config).expect("diagnostic");
    assert!(matches!(d.message, DiagnosticMessage::UnknownFunction { ref name } if name == "rond"));
    assert!(matches!(d.help, Some(Help::Suggestion(ref s)) if s == "Round"));
    assert_eq!(d.end_offset, 8);
}

#[test]
fn function_catalog_expands_and_merges() {
    let dialect = Dialect::new(vec![
        BuiltinFunction { name: "abs".into(), category: DialectFunctionCategory::Scalar, arities: vec![1] },
        BuiltinFunction { name: "printf".into(), category: DialectFunctionCategory::Scalar, arities: vec![-2, 1] },
        BuiltinFunction { name: "random".into(), category: DialectFunctionCategory::Scalar, arities: vec![] },
    ])
    .with_extensions(vec![BuiltinFunction { name: "abs".into(), category: DialectFunctionCategory::Scalar, arities: vec![2] }]);
    let cat = FunctionCatalog::for_dialect(&dialect).with_session(&session());
    let got: Vec<(String, Option<usize>)> = cat.functions().iter().map(|f| (f.name.clone(), f.args)).collect();
    assert_eq!(
        got,
        vec![
            ("abs".to_string(), Some(1)),
            ("printf".to_string(), None),
            ("printf".to_string(), Some(1)),
            ("random".to_string(), None),
            ("abs".to_string(), Some(2)),
            ("my_func".to_string(), Some(2)),
        ]
    );
    let names: Vec<&str> = cat.unique_names().collect();
    assert_eq!(names, vec!["abs", "printf", "random", "my_func"]);
    let expanded = expand_function_info(&BuiltinFunction { name: "x".into(), category: DialectFunctionCategory::Window, arities: vec![] });
    assert_eq!(expanded.len(), 1);
    assert_eq!(expanded[0].args, None);
}

#[test]
fn session_from_schema_builds_relations_and_functions() {
    let schema = SchemaInput {
        tables: vec![TableInput { name: "t".into(), columns: vec!["a".into(), "B".into()] }],
        views: vec![TableInput { name: "v".into(), columns: vec![] }],
        functions: vec![FunctionInput { name: "f".into(), args: None }],
    };
    let s = SessionContext::from_schema(&schema);
    assert_eq!(s.relations.len(), 2);
    assert_eq!(s.relations[0].kind, RelationKind::Table);
    assert_eq!(s.relations[0].columns[1].name, "B");
    assert!(s.relations[0].columns[1].is_nullable);
    assert_eq!(s.relations[1].kind, RelationKind::View);
    assert_eq!(s.functions[0].name, "f");
    assert_eq!(s.functions[0].args, None);
}

#[test]
fn make_diagnostic_places_span() {
    let config = ValidationConfig { strict_schema: true, suggestion_threshold: 1 };
    let d = make_diagnostic(10, 3, DiagnosticMessage::Other("x".into()), None, &config);
    assert_eq!(d.start_offset, 10);
    assert_eq!(d.end_offset, 13);
    assert_eq!(d.severity, Severity::Error);
    assert_eq!(config.severity(), Severity::Error);
    assert_eq!(ValidationConfig::default().severity(), Severity::Warning);
}
