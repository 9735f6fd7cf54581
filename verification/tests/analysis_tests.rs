use syntaqlite::analyzer::SemanticAnalyzer;
use syntaqlite::catalog::{AritySpec, Catalog, CatalogLayer, FunctionCategory};
use syntaqlite::config::{AnalysisMode, CheckConfig, CheckLevel, ValidationConfig};
use syntaqlite::diagnostics::{Diagnostic, DiagnosticMessage, Help, Severity};
use syntaqlite::dialect::{BuiltinFunction, Dialect, DialectFunctionCategory};
use syntaqlite::model::{DefinitionLocation, ResolvedSymbol, SemanticModel};
use syntaqlite::pass::parse_error_span;
use syntaqlite::tree::{Node, ParseItem, Span};

// ── Building statements by hand ─────────────────────────────────────────────

/// The span of `text` inside the first occurrence of `anchor` in `src`.
fn sp(src: &str, anchor: &str, text: &str) -> Span {
    let a = src.find(anchor).expect("anchor occurs in source");
    let i = a + anchor.find(text).expect("text occurs in anchor");
    Span { offset: i, text: text.to_string() }
}

fn absent() -> Span {
    Span { offset: 0, text: String::new() }
}

fn col(column: Span) -> Node {
    Node::ColumnRef { column, table: absent() }
}

fn qcol(table: Span, column: Span) -> Node {
    Node::ColumnRef { column, table }
}

fn lit(text: Span) -> Node {
    Node::Plain { spans: vec![text], children: vec![] }
}

fn result(expr: Node) -> Node {
    Node::ResultColumn { star: false, alias: absent(), expr: Some(Box::new(expr)) }
}

fn result_as(expr: Node, alias: Span) -> Node {
    Node::ResultColumn { star: false, alias, expr: Some(Box::new(expr)) }
}

fn star() -> Node {
    Node::ResultColumn { star: true, alias: absent(), expr: None }
}

fn table(name: Span) -> Node {
    Node::SourceRef { name, alias: absent() }
}

fn select(results: Vec<Node>, from: Option<Node>, clauses: Vec<Node>) -> Node {
    Node::Query { from: from.map(Box::new), results: Some(results), clauses }
}

fn call(name: Span, args: Vec<Node>) -> Node {
    Node::Call { name, args, rest: vec![] }
}

fn create_table(name: Span, columns: Vec<Span>) -> Node {
    Node::CreateTable { name, columns, select: None, without_rowid: false, temporary: false }
}

fn create_table_as(name: Span, body: Node) -> Node {
    Node::CreateTable { name, columns: vec![], select: Some(Box::new(body)), without_rowid: false, temporary: false }
}

fn with(bindings: Vec<Node>, body: Node) -> Node {
    Node::CteScope { recursive: false, bindings, body: Some(Box::new(body)) }
}

fn cte(name: Span, columns: Vec<Span>, body: Node) -> Node {
    Node::CteBinding { name, columns, body: Some(Box::new(body)) }
}

fn statements(nodes: Vec<Node>) -> Vec<ParseItem> {
    nodes.into_iter().map(ParseItem::Statement).collect()
}

// ── Fixtures ────────────────────────────────────────────────────────────────

fn builtin(name: &str, category: DialectFunctionCategory, arities: &[i16]) -> BuiltinFunction {
    BuiltinFunction { name: name.to_string(), category, arities: arities.to_vec() }
}

fn dialect() -> Dialect {
    Dialect::new(vec![
        builtin("abs", DialectFunctionCategory::Scalar, &[1]),
        builtin("count", DialectFunctionCategory::Aggregate, &[0, 1]),
        builtin("round", DialectFunctionCategory::Scalar, &[1, 2]),
    ])
}

fn users_catalog() -> Catalog {
    let mut cat = Catalog::new(&dialect());
    cat.layer_mut(CatalogLayer::Database).insert_table(
        "users",
        Some(vec!["id".to_string(), "name".to_string()]),
        false,
    );
    cat
}

fn analyze(src: &str, nodes: Vec<Node>, catalog: &Catalog, config: &ValidationConfig) -> SemanticModel {
    let mut analyzer = SemanticAnalyzer::with_dialect(dialect());
    analyzer.analyze(src, &statements(nodes), catalog, config)
}

fn unknown_columns(model: &SemanticModel) -> Vec<&Diagnostic> {
    model
        .diagnostics()
        .iter()
        .filter(|d| matches!(d.message, DiagnosticMessage::UnknownColumn { .. }))
        .collect()
}

// ── Tables and columns ──────────────────────────────────────────────────────

#[test]
fn known_table_and_columns_have_no_diagnostics() {
    let src = "SELECT id, name FROM users;";
    let q = select(
        vec![result(col(sp(src, "id,", "id"))), result(col(sp(src, "name ", "name")))],
        Some(table(sp(src, "users", "users"))),
        vec![],
    );
    let model = analyze(src, vec![q], &users_catalog(), &ValidationConfig::default());
    assert!(model.diagnostics().is_empty());
    assert_eq!(model.source(), src);
}

#[test]
fn unknown_table_is_an_error_in_strict_mode_with_a_suggestion() {
    let src = "SELECT * FROM usres";
    let q = select(vec![star()], Some(table(sp(src, "usres", "usres"))), vec![]);
    let config = ValidationConfig::default().with_strict_schema();
    let model = analyze(src, vec![q], &users_catalog(), &config);
    assert_eq!(model.diagnostics().len(), 1);
    let d = &model.diagnostics()[0];
    assert!(matches!(d.message, DiagnosticMessage::UnknownTable { ref name } if name == "usres"));
    assert_eq!(d.severity, Severity::Error);
    assert_eq!((d.start_offset, d.end_offset), (14, 19));
    assert!(matches!(d.help, Some(Help::Suggestion(ref s)) if s == "users"));
}

#[test]
fn unknown_table_is_a_warning_by_default() {
    let src = "SELECT * FROM missing_table";
    let q = select(vec![star()], Some(table(sp(src, "missing_table", "missing_table"))), vec![]);
    let model = analyze(src, vec![q], &users_catalog(), &ValidationConfig::default());
    assert_eq!(model.diagnostics().len(), 1);
    assert_eq!(model.diagnostics()[0].severity, Severity::Warning);
    assert!(model.diagnostics()[0].help.is_none());
}

#[test]
fn unknown_column_is_reported_with_a_suggestion() {
    let src = "SELECT id, nme FROM users";
    let q = select(
        vec![result(col(sp(src, "id,", "id"))), result(col(sp(src, "nme", "nme")))],
        Some(table(sp(src, "users", "users"))),
        vec![],
    );
    let model = analyze(src, vec![q], &users_catalog(), &ValidationConfig::default());
    let errs = unknown_columns(&model);
    assert_eq!(errs.len(), 1);
    assert!(matches!(errs[0].message, DiagnosticMessage::UnknownColumn { ref column, table: None } if column == "nme"));
    assert!(matches!(errs[0].help, Some(Help::Suggestion(ref s)) if s == "name"));
    assert_eq!(errs[0].severity, Severity::Warning);
    assert_eq!((errs[0].start_offset, errs[0].end_offset), (11, 14));
}

#[test]
fn columns_of_an_unknown_table_are_not_flagged() {
    let src = "SELECT id, name, email FROM people WHERE age >= 0";
    let cond = Node::Plain { spans: vec![sp(src, ">= 0", "0")], children: vec![col(sp(src, "age", "age"))] };
    let q = select(
        vec![
            result(col(sp(src, "id,", "id"))),
            result(col(sp(src, "name,", "name"))),
            result(col(sp(src, "email", "email"))),
        ],
        Some(table(sp(src, "people", "people"))),
        vec![cond],
    );
    let model = analyze(src, vec![q], &users_catalog(), &ValidationConfig::default());
    assert_eq!(model.diagnostics().len(), 1);
    assert!(matches!(model.diagnostics()[0].message, DiagnosticMessage::UnknownTable { ref name } if name == "people"));
}

#[test]
fn qualified_column_missing_from_its_table_is_reported() {
    let src = "SELECT users.email FROM users";
    let q = select(
        vec![result(qcol(sp(src, "users.", "users"), sp(src, "email", "email")))],
        Some(table(sp(src, "FROM users", "users"))),
        vec![],
    );
    let model = analyze(src, vec![q], &users_catalog(), &ValidationConfig::default());
    let errs = unknown_columns(&model);
    assert_eq!(errs.len(), 1);
    assert!(matches!(errs[0].message, DiagnosticMessage::UnknownColumn { ref column, table: Some(ref t) } if column == "email" && t == "users"));
}

#[test]
fn bare_true_and_false_are_literals() {
    let src = "SELECT TRUE, false;";
    let q = select(vec![result(col(sp(src, "TRUE", "TRUE"))), result(col(sp(src, "false", "false")))], None, vec![]);
    let model = analyze(src, vec![q], &users_catalog(), &ValidationConfig::default());
    assert!(model.diagnostics().is_empty());
}

#[test]
fn column_reference_outside_a_query_is_not_checked() {
    let src = "ATTACH ':memory:' AS scratch";
    let stmt = Node::Plain {
        spans: vec![sp(src, "':memory:'", "':memory:'")],
        children: vec![col(sp(src, "scratch", "scratch"))],
    };
    let model = analyze(src, vec![stmt], &users_catalog(), &ValidationConfig::default());
    assert!(model.diagnostics().is_empty());
}

#[test]
fn order_by_may_use_a_select_alias() {
    let src = "SELECT COUNT(*) AS cnt FROM users ORDER BY cnt";
    let q = select(
        vec![result_as(call(sp(src, "COUNT", "COUNT"), vec![]), sp(src, "AS cnt", "cnt"))],
        Some(table(sp(src, "users", "users"))),
        vec![col(sp(src, "BY cnt", "cnt"))],
    );
    let model = analyze(src, vec![q], &users_catalog(), &ValidationConfig::default());
    assert!(model.diagnostics().is_empty(), "{:?}", model.diagnostics());
}

#[test]
fn analysis_resolves_correlated_outer_column() {
    let src = "SELECT id FROM users WHERE EXISTS (SELECT 1 FROM t2 WHERE t2.x = name)";
    let mut cat = users_catalog();
    cat.layer_mut(CatalogLayer::Database).insert_table("t2", Some(vec!["x".to_string()]), false);
    let inner = select(
        vec![result(lit(sp(src, "SELECT 1", "1")))],
        Some(table(sp(src, "FROM t2", "t2"))),
        vec![Node::Plain {
            spans: vec![],
            children: vec![qcol(sp(src, "t2.x", "t2"), sp(src, "t2.x", "x")), col(sp(src, "= name", "name"))],
        }],
    );
    let q = select(vec![result(col(sp(src, "id", "id")))], Some(table(sp(src, "users", "users"))), vec![inner]);
    let model = analyze(src, vec![q], &cat, &ValidationConfig::default());
    assert!(model.diagnostics().is_empty(), "{:?}", model.diagnostics());
}

#[test]
fn unaliased_subquery_columns_are_visible() {
    let src = "SELECT a FROM (SELECT 1 AS a)";
    let sub = select(vec![result_as(lit(sp(src, "1 AS", "1")), sp(src, "AS a", "a"))], None, vec![]);
    let q = select(
        vec![result(col(sp(src, "SELECT a", "a")))],
        Some(Node::ScopedSource { body: Some(Box::new(sub)), alias: absent() }),
        vec![],
    );
    let model = analyze(src, vec![q], &users_catalog(), &ValidationConfig::default());
    assert!(model.diagnostics().is_empty(), "{:?}", model.diagnostics());
}

#[test]
fn trigger_body_sees_old_and_new() {
    let src = "CREATE TRIGGER tr AFTER UPDATE ON users BEGIN SELECT OLD.id, NEW.id; END";
    let body = select(
        vec![
            result(qcol(sp(src, "OLD.id", "OLD"), sp(src, "OLD.id", "id"))),
            result(qcol(sp(src, "NEW.id", "NEW"), sp(src, "NEW.id", "id"))),
        ],
        None,
        vec![],
    );
    let trigger = Node::TriggerScope { when: None, body: Some(Box::new(body)) };
    let model = analyze(src, vec![trigger], &users_catalog(), &ValidationConfig::default());
    assert!(model.diagnostics().is_empty(), "{:?}", model.diagnostics());
}

// ── Definitions ─────────────────────────────────────────────────────────────

#[test]
fn created_table_is_visible_to_later_statements() {
    let src = "CREATE TABLE t (id INTEGER); SELECT id FROM t;";
    let ddl = create_table(sp(src, "TABLE t", "t"), vec![sp(src, "(id", "id")]);
    let q = select(vec![result(col(sp(src, "SELECT id", "id")))], Some(table(sp(src, "FROM t", "t"))), vec![]);
    let model = analyze(src, vec![ddl, q], &Catalog::new(&dialect()), &ValidationConfig::default());
    assert!(model.diagnostics().is_empty(), "{:?}", model.diagnostics());
    // The reference to `t` points at its definition.
    let def = model.definition_at(sp(src, "FROM t", "t").offset).expect("definition");
    assert_eq!(def, DefinitionLocation { start: 13, end: 14 });
    // The column `id` points at its declaration.
    let cdef = model.definition_at(sp(src, "SELECT id", "id").offset).expect("column definition");
    assert_eq!(cdef, DefinitionLocation { start: 16, end: 18 });
}

#[test]
fn unknown_column_of_a_created_table_is_flagged() {
    let src = "CREATE TABLE t (id INTEGER); SELECT missing FROM t;";
    let ddl = create_table(sp(src, "TABLE t", "t"), vec![sp(src, "(id", "id")]);
    let q = select(vec![result(col(sp(src, "missing", "missing")))], Some(table(sp(src, "FROM t", "t"))), vec![]);
    let model = analyze(src, vec![ddl, q], &Catalog::new(&dialect()), &ValidationConfig::default());
    assert_eq!(unknown_columns(&model).len(), 1);
    assert!(model.definition_at(sp(src, "missing", "missing").offset).is_none());
}

#[test]
fn table_created_from_an_unaliased_literal_is_named_by_its_text() {
    let src = "CREATE TABLE t AS SELECT 1; SELECT t.order_id FROM t;";
    let body = select(vec![result(lit(sp(src, "SELECT 1", "1")))], None, vec![]);
    let ddl = create_table_as(sp(src, "TABLE t", "t"), body);
    let q = select(
        vec![result(qcol(sp(src, "t.order_id", "t"), sp(src, "order_id", "order_id")))],
        Some(table(sp(src, "FROM t", "t"))),
        vec![],
    );
    let model = analyze(src, vec![ddl, q], &Catalog::new(&dialect()), &ValidationConfig::default());
    let errs = unknown_columns(&model);
    assert_eq!(errs.len(), 1);
    assert!(matches!(errs[0].message, DiagnosticMessage::UnknownColumn { ref column, .. } if column == "order_id"));
    // The column is named "1" after its source text, so `t."1"` resolves.
    let src2 = "CREATE TABLE t AS SELECT 1; SELECT t.\"1\" FROM t;";
    let body2 = select(vec![result(lit(sp(src2, "SELECT 1", "1")))], None, vec![]);
    let ddl2 = create_table_as(sp(src2, "TABLE t", "t"), body2);
    let col_one = Span { offset: sp(src2, "\"1\"", "\"1\"").offset, text: "1".to_string() };
    let q2 = select(vec![result(qcol(sp(src2, "t.\"", "t"), col_one))], Some(table(sp(src2, "FROM t", "t"))), vec![]);
    let model2 = analyze(src2, vec![ddl2, q2], &Catalog::new(&dialect()), &ValidationConfig::default());
    assert!(model2.diagnostics().is_empty(), "{:?}", model2.diagnostics());
}

#[test]
fn cte_reference_points_to_the_cte_name() {
    let src = "WITH cte AS (SELECT 1 AS x) SELECT x FROM cte";
    let body = select(vec![result_as(lit(sp(src, "1 AS", "1")), sp(src, "AS x", "x"))], None, vec![]);
    let q = select(vec![result(col(sp(src, ") SELECT x", "x"))), ], Some(table(sp(src, "FROM cte", "cte"))), vec![]);
    let stmt = with(vec![cte(sp(src, "WITH cte", "cte"), vec![], body)], q);
    let model = analyze(src, vec![stmt], &Catalog::new(&dialect()), &ValidationConfig::default());
    assert!(model.diagnostics().is_empty(), "{:?}", model.diagnostics());
    let def = model.definition_at(sp(src, "FROM cte", "cte").offset).expect("definition");
    assert_eq!(def, DefinitionLocation { start: 5, end: 8 });
    let cdef = model.definition_at(sp(src, ") SELECT x", "x").offset).expect("column definition");
    assert_eq!(cdef, DefinitionLocation { start: 25, end: 26 });
}

#[test]
fn cte_column_count_mismatch_is_an_error() {
    let src = "WITH cte(a) AS (SELECT 1, 2) SELECT a FROM cte";
    let body = select(vec![result(lit(sp(src, "1,", "1"))), result(lit(sp(src, "2)", "2")))], None, vec![]);
    let q = select(vec![result(col(sp(src, "SELECT a", "a")))], Some(table(sp(src, "FROM cte", "cte"))), vec![]);
    let stmt = with(vec![cte(sp(src, "cte(", "cte"), vec![sp(src, "(a)", "a")], body)], q);
    let model = analyze(src, vec![stmt], &Catalog::new(&dialect()), &ValidationConfig::default().with_strict_schema());
    assert_eq!(model.diagnostics().len(), 1);
    let d = &model.diagnostics()[0];
    assert!(matches!(d.message, DiagnosticMessage::CteColumnCountMismatch { ref name, declared: 1, actual: 2 } if name == "cte"));
    assert_eq!(d.severity, Severity::Error);
    assert_eq!((d.start_offset, d.end_offset), (5, 8));
    assert_eq!(d.message.to_display_string(), "table 'cte' has 2 values for 1 columns");
}

#[test]
fn cte_declared_columns_replace_the_body_names() {
    let src = "WITH cte(x, y) AS (SELECT 1, 2) SELECT z FROM cte";
    let body = select(vec![result(lit(sp(src, "1,", "1"))), result(lit(sp(src, "2)", "2")))], None, vec![]);
    let q = select(vec![result(col(sp(src, "z", "z")))], Some(table(sp(src, "FROM cte", "cte"))), vec![]);
    let stmt = with(vec![cte(sp(src, "cte(", "cte"), vec![sp(src, "(x", "x"), sp(src, " y)", "y")], body)], q);
    let model = analyze(src, vec![stmt], &Catalog::new(&dialect()), &ValidationConfig::default());
    let errs = unknown_columns(&model);
    assert_eq!(errs.len(), 1);
    assert!(matches!(errs[0].message, DiagnosticMessage::UnknownColumn { ref column, .. } if column == "z"));
}

#[test]
fn cte_with_star_body_accepts_any_column() {
    let src = "WITH cte AS (SELECT * FROM users) SELECT anything FROM cte";
    let body = select(vec![star()], Some(table(sp(src, "users", "users"))), vec![]);
    let q = select(vec![result(col(sp(src, "anything", "anything")))], Some(table(sp(src, "FROM cte", "cte"))), vec![]);
    let stmt = with(vec![cte(sp(src, "WITH cte", "cte"), vec![], body)], q);
    let model = analyze(src, vec![stmt], &users_catalog(), &ValidationConfig::default());
    assert!(model.diagnostics().is_empty(), "{:?}", model.diagnostics());
}

// ── Functions ───────────────────────────────────────────────────────────────

#[test]
fn unknown_function_is_reported_with_a_suggestion() {
    let src = "SELECT rond(1)";
    let q = select(vec![result(call(sp(src, "rond", "rond"), vec![lit(sp(src, "1", "1"))]))], None, vec![]);
    let model = analyze(src, vec![q], &users_catalog(), &ValidationConfig::default());
    assert_eq!(model.diagnostics().len(), 1);
    let d = &model.diagnostics()[0];
    assert!(matches!(d.message, DiagnosticMessage::UnknownFunction { ref name } if name == "rond"));
    assert!(matches!(d.help, Some(Help::Suggestion(ref s)) if s == "round"));
}

#[test]
fn wrong_argument_count_lists_the_accepted_counts() {
    let src = "SELECT round(1, 2, 3)";
    let args = vec![lit(sp(src, "1", "1")), lit(sp(src, "2", "2")), lit(sp(src, "3", "3"))];
    let q = select(vec![result(call(sp(src, "round", "round"), args))], None, vec![]);
    let model = analyze(src, vec![q], &users_catalog(), &ValidationConfig::default());
    assert_eq!(model.diagnostics().len(), 1);
    let d = &model.diagnostics()[0];
    assert!(matches!(d.message, DiagnosticMessage::FunctionArity { ref name, ref expected, got: 3 } if name == "round" && *expected == vec![1, 2]));
    assert!(d.help.is_none());
}

#[test]
fn accepted_call_is_recorded_with_its_signatures() {
    let src = "SELECT abs(-1)";
    let q = select(vec![result(call(sp(src, "abs", "abs"), vec![lit(sp(src, "-1", "-1"))]))], None, vec![]);
    let model = analyze(src, vec![q], &users_catalog(), &ValidationConfig::default());
    assert!(model.diagnostics().is_empty());
    match model.resolution_at(8) {
        Some(ResolvedSymbol::Function { category, arities }) => {
            assert_eq!(category, "scalar function");
            assert_eq!(arities, &vec!["abs(arg1)".to_string()]);
        },
        other => panic!("expected a function resolution, got {other:?}"),
    }
    assert!(model.resolution_at(3).is_none());
}

#[test]
fn session_function_is_known_to_the_analysis() {
    let src = "SELECT my_func(1, 2)";
    let mut cat = users_catalog();
    cat.layer_mut(CatalogLayer::Database).insert_function_overload("my_func", FunctionCategory::Scalar, AritySpec::Exact(2));
    let q = select(
        vec![result(call(sp(src, "my_func", "my_func"), vec![lit(sp(src, "1", "1")), lit(sp(src, "2", "2"))]))],
        None,
        vec![],
    );
    let model = analyze(src, vec![q], &cat, &ValidationConfig::default());
    assert!(model.diagnostics().is_empty(), "{:?}", model.diagnostics());
}

// ── Documents and modes ─────────────────────────────────────────────────────

#[test]
fn parse_error_is_reported_at_its_range() {
    let src = "SELECT FROM;";
    let items = vec![ParseItem::Error { message: "syntax error".to_string(), offset: Some(7), length: Some(4) }];
    let mut analyzer = SemanticAnalyzer::with_dialect(dialect());
    let model = analyzer.analyze(src, &items, &users_catalog(), &ValidationConfig::default());
    assert_eq!(model.diagnostics().len(), 1);
    let d = &model.diagnostics()[0];
    assert!(d.message.is_parse_error());
    assert_eq!((d.start_offset, d.end_offset), (7, 11));
    assert_eq!(d.severity, Severity::Error);
}

#[test]
fn parse_error_spans_fall_back_to_one_byte() {
    assert_eq!(parse_error_span(Some(3), Some(2), 10), (3, 5));
    assert_eq!(parse_error_span(Some(3), Some(0), 10), (3, 4));
    assert_eq!(parse_error_span(Some(10), None, 10), (9, 10));
    assert_eq!(parse_error_span(Some(12), None, 10), (9, 10));
    assert_eq!(parse_error_span(None, None, 10), (9, 10));
    assert_eq!(parse_error_span(None, None, 0), (0, 0));
    assert_eq!(parse_error_span(Some(0), None, 0), (0, 0));
}

#[test]
fn execute_mode_keeps_definitions_across_calls() {
    let src1 = "CREATE TABLE t(x)";
    let ddl = || create_table(sp(src1, "TABLE t", "t"), vec![sp(src1, "(x", "x")]);
    let src2 = "SELECT x FROM t";
    let q = || select(vec![result(col(sp(src2, "x", "x")))], Some(table(sp(src2, "FROM t", "t"))), vec![]);
    let user = Catalog::new(&dialect());
    let config = ValidationConfig::default();

    let mut exec = SemanticAnalyzer::with_dialect(dialect()).with_mode(AnalysisMode::Execute);
    exec.analyze(src1, &statements(vec![ddl()]), &user, &config);
    let model = exec.analyze(src2, &statements(vec![q()]), &user, &config);
    assert!(model.diagnostics().is_empty(), "DDL should persist in execute mode");

    let mut doc = SemanticAnalyzer::with_dialect(dialect());
    doc.analyze(src1, &statements(vec![ddl()]), &user, &config);
    let model = doc.analyze(src2, &statements(vec![q()]), &user, &config);
    assert_eq!(model.diagnostics().len(), 1, "DDL should not persist in document mode");
}

#[test]
fn allowing_every_category_silences_the_analysis() {
    let src = "SELECT nothing FROM nowhere";
    let q = select(vec![result(col(sp(src, "nothing", "nothing")))], Some(table(sp(src, "nowhere", "nowhere"))), vec![]);
    let config = ValidationConfig::default().with_checks(CheckConfig::default().with_all(CheckLevel::Allow));
    let model = analyze(src, vec![q], &users_catalog(), &config);
    assert!(model.diagnostics().is_empty());
}

#[test]
fn from_ddl_collects_definitions_and_errors() {
    let src = "CREATE TABLE users (id INTEGER, name TEXT); CREATE VIEW v AS SELECT id FROM users; oops";
    let t = create_table(sp(src, "TABLE users", "users"), vec![sp(src, "(id", "id"), sp(src, "name TEXT", "name")]);
    let body = select(vec![result(col(sp(src, "SELECT id", "id")))], Some(table(sp(src, "FROM users", "users"))), vec![]);
    let v = Node::CreateView { name: sp(src, "VIEW v", "v"), columns: vec![], select: Some(Box::new(body)), temporary: false };
    let items = vec![
        ParseItem::Statement(t),
        ParseItem::Statement(v),
        ParseItem::Error { message: "near \"oops\": syntax error".to_string(), offset: Some(83), length: Some(4) },
    ];
    let (cat, errors) = Catalog::from_ddl(&dialect(), src, &items);
    assert!(cat.resolve_relation("users"));
    assert!(cat.resolve_relation("V"));
    assert!(cat.is_view("v"));
    assert_eq!(cat.columns_for_table_source("v"), Some(vec!["id".to_string()]));
    assert_eq!(errors, vec!["near \"oops\": syntax error".to_string()]);
}
