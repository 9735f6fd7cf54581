//! Analyzer scenarios. Each statement is given as the tree the parser makes
//! of the SQL text shown beside it.

use syntaqlite::analyzer::SemanticAnalyzer;
use syntaqlite::catalog::{Catalog, CatalogLayer};
use syntaqlite::config::ValidationConfig;
use syntaqlite::diagnostics::{Diagnostic, DiagnosticMessage, Help, Severity};
use syntaqlite::dialect::{BuiltinFunction, Dialect, DialectFunctionCategory};
use syntaqlite::model::SemanticModel;
use syntaqlite::tree::{Node, ParseItem, Span};

// ── Building statements by hand ─────────────────────────────────────────────

/// The span of `text` inside the first occurrence of `anchor` in `src`.
fn sp(src: &str, anchor: &str, text: &str) -> Span {
    let a = src.find(anchor).expect("anchor occurs in source");
    let i = a + anchor.find(text).expect("text occurs in anchor");
    Span { offset: i, text: text.to_string() }
}

/// The span of `text` inside the last occurrence of `anchor` in `src`.
fn last_sp(src: &str, anchor: &str, text: &str) -> Span {
    let a = src.rfind(anchor).expect("anchor occurs in source");
    let i = a + anchor.find(text).expect("text occurs in anchor");
    Span { offset: i, text: text.to_string() }
}

fn absent() -> Span {
    Span { offset: 0, text: String::new() }
}

fn col(column: Span) -> Node {
    Node::ColumnRef { column, table: absent() }
}

fn qcol(table: Span, column: Span) -> Node {
    Node::ColumnRef { column, table }
}

fn lit(text: Span) -> Node {
    Node::Plain { spans: vec![text], children: vec![] }
}

/// An expression made of other expressions (a comparison, a sum, ...).
fn expr(parts: Vec<Node>) -> Node {
    Node::Plain { spans: vec![], children: parts }
}

fn result(e: Node) -> Node {
    Node::ResultColumn { star: false, alias: absent(), expr: Some(Box::new(e)) }
}

fn result_as(e: Node, alias: Span) -> Node {
    Node::ResultColumn { star: false, alias, expr: Some(Box::new(e)) }
}

fn star() -> Node {
    Node::ResultColumn { star: true, alias: absent(), expr: None }
}

fn table(name: Span) -> Node {
    Node::SourceRef { name, alias: absent() }
}

fn table_as(name: Span, alias: Span) -> Node {
    Node::SourceRef { name, alias }
}

fn subquery(body: Node, alias: Span) -> Node {
    Node::ScopedSource { body: Some(Box::new(body)), alias }
}

/// A join: its sources and its ON condition, in source order.
fn join(parts: Vec<Node>) -> Node {
    Node::Plain { spans: vec![], children: parts }
}

fn select(results: Vec<Node>, from: Option<Node>, clauses: Vec<Node>) -> Node {
    Node::Query { from: from.map(Box::new), results: Some(results), clauses }
}

fn call(name: Span, args: Vec<Node>) -> Node {
    Node::Call { name, args, rest: vec![] }
}

fn create_table(name: Span, columns: Vec<Span>) -> Node {
    Node::CreateTable { name, columns, select: None, without_rowid: false, temporary: false }
}

fn create_table_as(name: Span, body: Node) -> Node {
    Node::CreateTable { name, columns: vec![], select: Some(Box::new(body)), without_rowid: false, temporary: false }
}

fn create_view_as(name: Span, body: Node) -> Node {
    Node::CreateView { name, columns: vec![], select: Some(Box::new(body)), temporary: false }
}

fn with(bindings: Vec<Node>, body: Node) -> Node {
    Node::CteScope { recursive: false, bindings, body: Some(Box::new(body)) }
}

fn cte(name: Span, columns: Vec<Span>, body: Node) -> Node {
    Node::CteBinding { name, columns, body: Some(Box::new(body)) }
}

fn statements(nodes: Vec<Node>) -> Vec<ParseItem> {
    nodes.into_iter().map(ParseItem::Statement).collect()
}

// ── Fixtures ────────────────────────────────────────────────────────────────

fn builtin(name: &str, category: DialectFunctionCategory, arities: &[i16]) -> BuiltinFunction {
    BuiltinFunction { name: name.to_string(), category, arities: arities.to_vec() }
}

/// The built-in functions of the default configuration, as far as these
/// scenarios call them.
fn sqlite_functions() -> Vec<BuiltinFunction> {
    vec![
        builtin("abs", DialectFunctionCategory::Scalar, &[1]),
        builtin("coalesce", DialectFunctionCategory::Scalar, &[-3]),
        builtin("count", DialectFunctionCategory::Aggregate, &[0, 1]),
        builtin("sum", DialectFunctionCategory::Aggregate, &[1]),
    ]
}

fn sqlite_dialect() -> Dialect {
    Dialect::new(sqlite_functions())
}

fn sqlite_analyzer() -> SemanticAnalyzer {
    SemanticAnalyzer::with_dialect(sqlite_dialect())
}

fn sqlite_catalog() -> Catalog {
    Catalog::new(&sqlite_dialect())
}

fn strict() -> ValidationConfig {
    ValidationConfig::default().with_strict_schema()
}

fn lenient() -> ValidationConfig {
    ValidationConfig::default()
}

fn analyze(src: &str, nodes: Vec<Node>, cat: &Catalog, config: &ValidationConfig) -> SemanticModel {
    sqlite_analyzer().analyze(src, &statements(nodes), cat, config)
}

fn unknown_columns(model: &SemanticModel) -> Vec<&Diagnostic> {
    model.diagnostics().iter().filter(|d| matches!(d.message, DiagnosticMessage::UnknownColumn { .. })).collect()
}

fn unknown_columns_named<'a>(model: &'a SemanticModel, name: &str) -> Vec<&'a Diagnostic> {
    model
        .diagnostics()
        .iter()
        .filter(|d| matches!(&d.message, DiagnosticMessage::UnknownColumn { column, .. } if column == name))
        .collect()
}

fn unknown_tables(model: &SemanticModel) -> Vec<&Diagnostic> {
    model.diagnostics().iter().filter(|d| matches!(d.message, DiagnosticMessage::UnknownTable { .. })).collect()
}

fn unknown_tables_named<'a>(model: &'a SemanticModel, name: &str) -> Vec<&'a Diagnostic> {
    model
        .diagnostics()
        .iter()
        .filter(|d| matches!(&d.message, DiagnosticMessage::UnknownTable { name: n } if n == name))
        .collect()
}

fn cte_mismatches(model: &SemanticModel) -> Vec<&Diagnostic> {
    model.diagnostics().iter().filter(|d| matches!(d.message, DiagnosticMessage::CteColumnCountMismatch { .. })).collect()
}

fn insert_table(cat: &mut Catalog, layer: CatalogLayer, name: &str, columns: &[&str], without_rowid: bool) {
    cat.layer_mut(layer).insert_table(name, Some(columns.iter().map(|c| c.to_string()).collect()), without_rowid);
}

/// A catalog holding what `ddl`, given as `items`, defines.
fn catalog_from_ddl(ddl: &str, items: Vec<Node>) -> Catalog {
    Catalog::from_ddl(&sqlite_dialect(), ddl, &statements(items)).0
}

/// `CREATE TABLE name (c1 T, c2 T, ...)` inside `src`, found at `anchor`.
fn ddl_table(src: &str, anchor: &str, name: &str, columns: &[&str]) -> Node {
    let a = src.find(anchor).expect("anchor occurs in source");
    let part = &src[a..];
    let name_at = a + part.find(name).expect("name occurs");
    let mut spans = Vec::new();
    let mut from = name_at + name.len();
    for c in columns {
        let at = from + src[from..].find(c).expect("column occurs");
        spans.push(Span { offset: at, text: c.to_string() });
        from = at + c.len();
    }
    create_table(Span { offset: name_at, text: name.to_string() }, spans)
}

// ── Catalog built from DDL ──────────────────────────────────────────────────

#[test]
fn catalog_from_ddl_populates_tables() {
    let ddl = "CREATE TABLE users (id INTEGER, name TEXT);";
    let cat = catalog_from_ddl(ddl, vec![ddl_table(ddl, "TABLE", "users", &["id", "name"])]);
    assert!(cat.resolve_relation("users"));
}

#[test]
fn catalog_from_ddl_populates_virtual_tables() {
    let ddl = "CREATE VIRTUAL TABLE fts USING fts5(content);";
    let cat = catalog_from_ddl(ddl, vec![create_table(sp(ddl, "fts ", "fts"), vec![])]);
    assert!(cat.resolve_relation("fts"));
}

#[test]
fn virtual_table_in_from_clause_no_error() {
    let src = "CREATE VIRTUAL TABLE fts USING fts5(content);\nSELECT * FROM fts;";
    let vt = create_table(sp(src, "fts ", "fts"), vec![]);
    let q = select(vec![star()], Some(table(sp(src, "FROM fts", "fts"))), vec![]);
    let model = analyze(src, vec![vt, q], &sqlite_catalog(), &strict());
    let unknown = unknown_tables(&model);
    assert!(unknown.is_empty(), "virtual table should be known: {unknown:?}");
}

// ── Implicit rowid ──────────────────────────────────────────────────────────

#[test]
fn without_rowid_table_rejects_implicit_rowid() {
    let mut cat = sqlite_catalog();
    insert_table(&mut cat, CatalogLayer::Database, "kv", &["key", "value"], true);
    let src = "SELECT rowid FROM kv";
    let q = select(vec![result(col(sp(src, "rowid", "rowid")))], Some(table(sp(src, "kv", "kv"))), vec![]);
    let model = analyze(src, vec![q], &cat, &strict());
    assert!(!unknown_columns(&model).is_empty(), "rowid should be rejected for WITHOUT ROWID tables");
}

#[test]
fn regular_table_accepts_implicit_rowid() {
    let mut cat = sqlite_catalog();
    insert_table(&mut cat, CatalogLayer::Database, "users", &["id", "name"], false);
    let src = "SELECT rowid FROM users";
    let q = select(vec![result(col(sp(src, "rowid", "rowid")))], Some(table(sp(src, "users", "users"))), vec![]);
    let model = analyze(src, vec![q], &cat, &strict());
    let errs = unknown_columns(&model);
    assert!(errs.is_empty(), "rowid should be accepted for regular tables: {errs:?}");
}

// ── No-error cases ──────────────────────────────────────────────────────────

#[test]
fn analyze_select_from_known_table_no_errors() {
    let mut cat = sqlite_catalog();
    insert_table(&mut cat, CatalogLayer::Database, "users", &["id", "name"], false);
    let src = "SELECT id FROM users";
    let q = select(vec![result(col(sp(src, "id", "id")))], Some(table(sp(src, "users", "users"))), vec![]);
    let model = analyze(src, vec![q], &cat, &strict());
    let diags = unknown_tables(&model);
    assert!(diags.is_empty(), "unexpected table error: {diags:?}");
}

#[test]
fn analyze_empty_source_no_errors() {
    let model = analyze("", vec![], &sqlite_catalog(), &strict());
    assert!(model.diagnostics().is_empty());
}

#[test]
fn analyze_pragma_no_errors() {
    let src = "PRAGMA journal_mode;";
    let pragma = Node::Plain { spans: vec![sp(src, "journal_mode", "journal_mode")], children: vec![] };
    let model = analyze(src, vec![pragma], &sqlite_catalog(), &strict());
    let sem_errs: Vec<_> = model.diagnostics().iter().filter(|d| !d.message.is_parse_error()).collect();
    assert!(sem_errs.is_empty());
}

// ── Unknown tables ──────────────────────────────────────────────────────────

fn select_star_from_missing_table() -> (&'static str, Node) {
    let src = "SELECT * FROM missing_table";
    (src, select(vec![star()], Some(table(sp(src, "missing_table", "missing_table"))), vec![]))
}

#[test]
fn analyze_unknown_table_strict_is_error() {
    let (src, q) = select_star_from_missing_table();
    let model = analyze(src, vec![q], &sqlite_catalog(), &strict());
    let errs = unknown_tables_named(&model, "missing_table");
    assert_eq!(errs.len(), 1);
    assert_eq!(errs[0].severity, Severity::Error);
}

#[test]
fn analyze_unknown_table_lenient_is_warning() {
    let (src, q) = select_star_from_missing_table();
    let model = analyze(src, vec![q], &sqlite_catalog(), &lenient());
    let warns = unknown_tables_named(&model, "missing_table");
    assert_eq!(warns.len(), 1);
    assert_eq!(warns[0].severity, Severity::Warning);
}

#[test]
fn analyze_fuzzy_suggestion_for_unknown_table() {
    let mut cat = sqlite_catalog();
    insert_table(&mut cat, CatalogLayer::Database, "users", &["id"], false);
    let src = "SELECT * FROM usres";
    let q = select(vec![star()], Some(table(sp(src, "usres", "usres"))), vec![]);
    let model = analyze(src, vec![q], &cat, &strict());
    let diag = unknown_tables_named(&model, "usres");
    assert!(!diag.is_empty(), "expected unknown-table diagnostic");
    assert!(
        matches!(&diag[0].help, Some(Help::Suggestion(s)) if s == "users"),
        "expected 'users' suggestion, got {:?}",
        diag[0].help
    );
}

// ── DDL accumulation ────────────────────────────────────────────────────────

#[test]
fn analyze_create_table_then_select_no_error() {
    let src = "CREATE TABLE t (id INTEGER); SELECT id FROM t;";
    let ddl = ddl_table(src, "TABLE", "t", &["id"]);
    let q = select(vec![result(col(sp(src, "SELECT id", "id")))], Some(table(sp(src, "FROM t", "t"))), vec![]);
    let model = analyze(src, vec![ddl, q], &sqlite_catalog(), &strict());
    let unknown = unknown_tables(&model);
    assert!(unknown.is_empty(), "DDL-defined table not visible: {unknown:?}");
}

#[test]
fn analyze_create_view_then_select_no_error() {
    let mut cat = sqlite_catalog();
    insert_table(&mut cat, CatalogLayer::Database, "users", &["id"], false);
    let src = "CREATE VIEW vw AS SELECT id FROM users; SELECT id FROM vw;";
    let body = select(vec![result(col(sp(src, "SELECT id", "id")))], Some(table(sp(src, "users", "users"))), vec![]);
    let view = create_view_as(sp(src, "VIEW vw", "vw"), body);
    let q = select(vec![result(col(last_sp(src, "SELECT id", "id")))], Some(table(sp(src, "FROM vw", "vw"))), vec![]);
    let model = analyze(src, vec![view, q], &cat, &strict());
    let unknown = unknown_tables(&model);
    assert!(unknown.is_empty(), "VIEW not visible: {unknown:?}");
}

#[test]
fn ddl_columns_visible_to_column_ref() {
    let src = "CREATE TABLE t (id INTEGER, name TEXT); SELECT id FROM t;";
    let ddl = ddl_table(src, "TABLE", "t", &["id", "name"]);
    let q = select(vec![result(col(sp(src, "SELECT id", "id")))], Some(table(sp(src, "FROM t", "t"))), vec![]);
    let model = analyze(src, vec![ddl, q], &sqlite_catalog(), &strict());
    assert!(model.diagnostics().is_empty(), "id is a known column of t: {:?}", model.diagnostics());
}

#[test]
fn ddl_unknown_column_on_ddl_table_flagged() {
    let src = "CREATE TABLE t (id INTEGER); SELECT missing FROM t;";
    let ddl = ddl_table(src, "TABLE", "t", &["id"]);
    let q = select(vec![result(col(sp(src, "missing", "missing")))], Some(table(sp(src, "FROM t", "t"))), vec![]);
    let model = analyze(src, vec![ddl, q], &sqlite_catalog(), &strict());
    assert_eq!(unknown_columns(&model).len(), 1, "unknown column should be flagged: {:?}", model.diagnostics());
}

// ── Correlated subqueries ───────────────────────────────────────────────────

/// `CREATE TABLE users (...); CREATE TABLE orders (...); SELECT * FROM users
/// WHERE EXISTS (SELECT 1 FROM orders WHERE <cond>);` with `cond` naming
/// `column`.
fn correlated(cond_column: &str, cond_value: &str) -> (String, Vec<Node>) {
    let src = format!(
        "CREATE TABLE users (id INTEGER, name TEXT);CREATE TABLE orders (id INTEGER, user_id INTEGER);\
         SELECT * FROM users WHERE EXISTS (SELECT 1 FROM orders WHERE {cond_column} = {cond_value});"
    );
    let s = src.as_str();
    let users = ddl_table(s, "TABLE users", "users", &["id", "name"]);
    let orders = ddl_table(s, "TABLE orders", "orders", &["id", "user_id"]);
    let cond_at = s.rfind("WHERE ").unwrap() + "WHERE ".len();
    let value_at = s.rfind(cond_value).unwrap();
    let cond = expr(vec![
        col(Span { offset: cond_at, text: cond_column.to_string() }),
        lit(Span { offset: value_at, text: cond_value.to_string() }),
    ]);
    let inner = select(vec![result(lit(sp(s, "SELECT 1", "1")))], Some(table(sp(s, "FROM orders", "orders"))), vec![cond]);
    let q = select(vec![star()], Some(table(sp(s, "FROM users", "users"))), vec![expr(vec![inner])]);
    (src, vec![users, orders, q])
}

#[test]
fn correlated_subquery_outer_column_resolves() {
    let (src, nodes) = correlated("name", "'Alice'");
    let model = analyze(&src, nodes, &sqlite_catalog(), &strict());
    let errs = unknown_columns(&model);
    assert!(errs.is_empty(), "outer column 'name' should resolve via correlated reference: {errs:?}");
}

#[test]
fn correlated_subquery_inner_shadows_outer() {
    let (src, nodes) = correlated("id", "1");
    let model = analyze(&src, nodes, &sqlite_catalog(), &strict());
    let errs = unknown_columns(&model);
    assert!(errs.is_empty(), "inner 'id' should shadow outer — no error: {errs:?}");
}

#[test]
fn correlated_subquery_column_in_neither_scope_flagged() {
    let (src, nodes) = correlated("bogus", "1");
    let model = analyze(&src, nodes, &sqlite_catalog(), &strict());
    assert_eq!(
        unknown_columns_named(&model, "bogus").len(),
        1,
        "column 'bogus' should be flagged as unknown: {:?}",
        model.diagnostics()
    );
}

// ── Unaliased subqueries ────────────────────────────────────────────────────

#[test]
fn unaliased_subquery_columns_visible() {
    let src = "CREATE TABLE t1(a INTEGER, b TEXT);SELECT a FROM (SELECT a, b FROM t1);";
    let ddl = ddl_table(src, "TABLE", "t1", &["a", "b"]);
    let inner = select(
        vec![result(col(sp(src, "SELECT a,", "a"))), result(col(sp(src, "a, b FROM", "b")))],
        Some(table(sp(src, "FROM t1", "t1"))),
        vec![],
    );
    let q = select(vec![result(col(sp(src, "SELECT a FROM", "a")))], Some(subquery(inner, absent())), vec![]);
    let model = analyze(src, vec![ddl, q], &sqlite_catalog(), &strict());
    let errs = unknown_columns(&model);
    assert!(errs.is_empty(), "columns from unaliased subquery should be visible: {errs:?}");
}

#[test]
fn unaliased_subquery_rejects_missing_column() {
    let src = "CREATE TABLE t1(a INTEGER, b TEXT);SELECT missing FROM (SELECT a FROM t1);";
    let ddl = ddl_table(src, "TABLE", "t1", &["a", "b"]);
    let inner = select(vec![result(col(sp(src, "SELECT a", "a")))], Some(table(sp(src, "FROM t1", "t1"))), vec![]);
    let q = select(vec![result(col(sp(src, "missing", "missing")))], Some(subquery(inner, absent())), vec![]);
    let model = analyze(src, vec![ddl, q], &sqlite_catalog(), &strict());
    assert_eq!(
        unknown_columns_named(&model, "missing").len(),
        1,
        "'missing' should be flagged as unknown: {:?}",
        model.diagnostics()
    );
}

#[test]
fn unaliased_compound_subquery_accepts_columns() {
    let src = "CREATE TABLE t1(a INTEGER);SELECT x FROM (SELECT a AS x FROM t1 UNION ALL SELECT a FROM t1);";
    let ddl = ddl_table(src, "TABLE", "t1", &["a"]);
    let left = select(
        vec![result_as(col(sp(src, "a AS x", "a")), sp(src, "AS x", "x"))],
        Some(table(sp(src, "FROM t1 UNION", "t1"))),
        vec![],
    );
    let right = select(
        vec![result(col(sp(src, "ALL SELECT a", "a")))],
        Some(table(last_sp(src, "FROM t1", "t1"))),
        vec![],
    );
    let compound = expr(vec![left, right]);
    let q = select(vec![result(col(sp(src, "SELECT x", "x")))], Some(subquery(compound, absent())), vec![]);
    let model = analyze(src, vec![ddl, q], &sqlite_catalog(), &strict());
    let errs = unknown_columns(&model);
    assert!(errs.is_empty(), "compound subquery columns should be accepted: {errs:?}");
}

#[test]
fn aliased_subquery_columns_visible() {
    let src = "CREATE TABLE t1(a INTEGER, b TEXT);SELECT sq.a FROM (SELECT a, b FROM t1) AS sq;";
    let ddl = ddl_table(src, "TABLE", "t1", &["a", "b"]);
    let inner = select(
        vec![result(col(sp(src, "SELECT a,", "a"))), result(col(sp(src, "a, b FROM", "b")))],
        Some(table(sp(src, "FROM t1", "t1"))),
        vec![],
    );
    let q = select(
        vec![result(qcol(sp(src, "sq.a", "sq"), sp(src, "sq.a", "a")))],
        Some(subquery(inner, sp(src, "AS sq", "sq"))),
        vec![],
    );
    let model = analyze(src, vec![ddl, q], &sqlite_catalog(), &strict());
    let errs = unknown_columns(&model);
    assert!(errs.is_empty(), "aliased subquery columns should be visible: {errs:?}");
}

#[test]
fn unaliased_subquery_in_join_columns_visible() {
    let src = "CREATE TABLE t1(a INTEGER);CREATE TABLE t2(x INTEGER);SELECT a, x FROM t1 LEFT JOIN (SELECT x FROM t2) ON a = x;";
    let t1 = ddl_table(src, "TABLE t1", "t1", &["a"]);
    let t2 = ddl_table(src, "TABLE t2", "t2", &["x"]);
    let inner = select(vec![result(col(sp(src, "(SELECT x", "x")))], Some(table(sp(src, "FROM t2", "t2"))), vec![]);
    let on = expr(vec![col(sp(src, "ON a", "a")), col(sp(src, "= x", "x"))]);
    let from = join(vec![table(sp(src, "FROM t1", "t1")), subquery(inner, absent()), on]);
    let q = select(
        vec![result(col(sp(src, "SELECT a", "a"))), result(col(sp(src, "a, x", "x")))],
        Some(from),
        vec![],
    );
    let model = analyze(src, vec![t1, t2, q], &sqlite_catalog(), &strict());
    let errs = unknown_columns(&model);
    assert!(errs.is_empty(), "unaliased subquery columns in JOIN should be visible: {errs:?}");
}

// ── Go-to-definition ────────────────────────────────────────────────────────

#[test]
fn definition_cte_reference_jumps_to_cte_name() {
    let src = "WITH cte AS (SELECT 1) SELECT * FROM cte";
    let body = select(vec![result(lit(sp(src, "SELECT 1", "1")))], None, vec![]);
    let q = select(vec![star()], Some(table(last_sp(src, "cte", "cte"))), vec![]);
    let stmt = with(vec![cte(sp(src, "cte", "cte"), vec![], body)], q);
    let model = analyze(src, vec![stmt], &sqlite_catalog(), &lenient());

    let ref_offset = src.rfind("cte").unwrap();
    let def = model.definition_at(ref_offset);
    assert!(def.is_some(), "expected definition for CTE reference");
    let def = def.unwrap();
    let cte_def_offset = src.find("cte").unwrap();
    assert_eq!(def.start, cte_def_offset, "definition should point to CTE name");
    assert_eq!(def.end, cte_def_offset + "cte".len());
}

#[test]
fn definition_ddl_table_reference_jumps_to_create() {
    let src = "CREATE TABLE users (id INTEGER); SELECT id FROM users;";
    let ddl = ddl_table(src, "TABLE", "users", &["id"]);
    let q = select(vec![result(col(sp(src, "SELECT id", "id")))], Some(table(last_sp(src, "users", "users"))), vec![]);
    let model = analyze(src, vec![ddl, q], &sqlite_catalog(), &strict());

    let ref_offset = src.rfind("users").unwrap();
    let def = model.definition_at(ref_offset);
    assert!(def.is_some(), "expected definition for DDL table reference; resolutions: {:?}", model.resolutions());
    let def = def.unwrap();
    let ddl_offset = src.find("users").unwrap();
    assert_eq!(def.start, ddl_offset, "definition should point to CREATE TABLE name");
    assert_eq!(def.end, ddl_offset + "users".len());
}

#[test]
fn definition_cte_shadows_ddl() {
    let src = "CREATE TABLE t (id INTEGER); WITH t AS (SELECT 1 AS id) SELECT * FROM t;";
    let ddl = ddl_table(src, "TABLE", "t", &["id"]);
    let body = select(vec![result_as(lit(sp(src, "1 AS", "1")), sp(src, "AS id", "id"))], None, vec![]);
    let q = select(vec![star()], Some(table(sp(src, "FROM t", "t"))), vec![]);
    let stmt = with(vec![cte(sp(src, "WITH t", "t"), vec![], body)], q);
    let model = analyze(src, vec![ddl, stmt], &sqlite_catalog(), &strict());

    let from_t_offset = src.rfind("FROM t").unwrap() + 5;
    let def = model.definition_at(from_t_offset);
    assert!(def.is_some(), "expected definition for CTE-shadowed reference");
    let def = def.unwrap();
    let cte_t_offset = src[29..].find('t').unwrap() + 29;
    assert_eq!(def.start, cte_t_offset, "definition should point to CTE, not DDL");
}

#[test]
fn definition_unknown_table_returns_none() {
    let src = "SELECT * FROM nonexistent";
    let q = select(vec![star()], Some(table(sp(src, "nonexistent", "nonexistent"))), vec![]);
    let model = analyze(src, vec![q], &sqlite_catalog(), &lenient());
    let from_offset = src.find("nonexistent").unwrap();
    assert!(model.definition_at(from_offset).is_none(), "unknown table should have no definition");
}

#[test]
fn definition_column_in_ddl_table() {
    let src = "CREATE TABLE users (id INTEGER, name TEXT);\nSELECT name FROM users;";
    let schema = "CREATE TABLE users (id INTEGER, name TEXT);";
    let cat = catalog_from_ddl(schema, vec![ddl_table(schema, "TABLE", "users", &["id", "name"])]);
    let ddl = ddl_table(src, "TABLE", "users", &["id", "name"]);
    let q = select(vec![result(col(sp(src, "SELECT name", "name")))], Some(table(last_sp(src, "users", "users"))), vec![]);
    let model = analyze(src, vec![ddl, q], &cat, &strict());

    let select_name_offset = src.rfind("name").unwrap();
    let def = model.definition_at(select_name_offset);
    assert!(def.is_some(), "column 'name' should have a definition location");
    let ddl_name_offset = src.find("name").unwrap();
    assert_eq!(def.unwrap().start, ddl_name_offset, "definition should point to column in DDL, not SELECT");
}

#[test]
fn definition_unknown_column_returns_none() {
    let src = "CREATE TABLE t (a INT);\nSELECT b FROM t;";
    let schema = "CREATE TABLE t (a INT);";
    let cat = catalog_from_ddl(schema, vec![ddl_table(schema, "TABLE", "t", &["a"])]);
    let ddl = ddl_table(src, "TABLE", "t", &["a"]);
    let q = select(vec![result(col(sp(src, "b", "b")))], Some(table(sp(src, "FROM t", "t"))), vec![]);
    let model = analyze(src, vec![ddl, q], &cat, &strict());
    let b_offset = src.find('b').unwrap();
    assert!(model.definition_at(b_offset).is_none(), "unknown column should have no definition");
}

#[test]
fn definition_cte_column_inferred_from_alias() {
    let src = "WITH foo AS (SELECT 1 AS a)\nSELECT a FROM foo;";
    let body = select(vec![result_as(lit(sp(src, "1 AS", "1")), sp(src, "AS a", "a"))], None, vec![]);
    let q = select(vec![result(col(sp(src, "SELECT a", "a")))], Some(table(sp(src, "FROM foo", "foo"))), vec![]);
    let stmt = with(vec![cte(sp(src, "foo", "foo"), vec![], body)], q);
    let model = analyze(src, vec![stmt], &sqlite_catalog(), &lenient());

    let a_offset = src.find("SELECT a").unwrap() + "SELECT ".len();
    let def = model.definition_at(a_offset);
    assert!(def.is_some(), "CTE column 'a' should have a definition location");
    let cte_a_offset = src.find("AS a").unwrap() + "AS ".len();
    assert_eq!(def.unwrap().start, cte_a_offset, "definition should point to alias in CTE body");
}

#[test]
fn definition_cte_column_from_declared_list() {
    let src = "WITH foo(x) AS (SELECT 1)\nSELECT x FROM foo;";
    let body = select(vec![result(lit(sp(src, "SELECT 1", "1")))], None, vec![]);
    let q = select(vec![result(col(sp(src, "SELECT x", "x")))], Some(table(sp(src, "FROM foo", "foo"))), vec![]);
    let stmt = with(vec![cte(sp(src, "foo", "foo"), vec![sp(src, "(x)", "x")], body)], q);
    let model = analyze(src, vec![stmt], &sqlite_catalog(), &lenient());

    let x_offset = src.find("SELECT x").unwrap() + "SELECT ".len();
    let def = model.definition_at(x_offset);
    assert!(def.is_some(), "CTE declared column 'x' should have a definition location");
    let decl_x_offset = src.find("(x)").unwrap() + 1;
    assert_eq!(def.unwrap().start, decl_x_offset, "definition should point to declared column in CTE");
}

#[test]
fn definition_same_file_ddl_shadows_schema() {
    let schema = "CREATE TABLE t (x INTEGER);";
    let cat = catalog_from_ddl(schema, vec![ddl_table(schema, "TABLE", "t", &["x"])]);
    let src = "CREATE TABLE t (y INTEGER); SELECT * FROM t;";
    let ddl = ddl_table(src, "TABLE", "t", &["y"]);
    let q = select(vec![star()], Some(table(sp(src, "FROM t", "t"))), vec![]);
    let model = analyze(src, vec![ddl, q], &cat, &strict());

    let ref_offset = src.rfind(" t").unwrap() + 1;
    let def = model.definition_at(ref_offset);
    assert!(def.is_some(), "expected definition");
    assert_eq!(def.unwrap().start, src.find('t').unwrap());
}

// ── Functions ───────────────────────────────────────────────────────────────

fn unknown_functions(model: &SemanticModel) -> Vec<&Diagnostic> {
    model.diagnostics().iter().filter(|d| matches!(d.message, DiagnosticMessage::UnknownFunction { .. })).collect()
}

#[test]
fn analyze_unknown_function_flagged() {
    let src = "SELECT totally_unknown_fn(1)";
    let q = select(
        vec![result(call(sp(src, "totally_unknown_fn", "totally_unknown_fn"), vec![lit(sp(src, "(1", "1"))]))],
        None,
        vec![],
    );
    let model = analyze(src, vec![q], &sqlite_catalog(), &strict());
    let errs: Vec<_> = model
        .diagnostics()
        .iter()
        .filter(|d| matches!(&d.message, DiagnosticMessage::UnknownFunction { name } if name == "totally_unknown_fn"))
        .collect();
    assert_eq!(errs.len(), 1);
}

#[test]
fn analyze_builtin_abs_no_error() {
    let src = "SELECT abs(-1)";
    let q = select(vec![result(call(sp(src, "abs", "abs"), vec![lit(sp(src, "-1", "-1"))]))], None, vec![]);
    let model = analyze(src, vec![q], &sqlite_catalog(), &strict());
    let errs = unknown_functions(&model);
    assert!(errs.is_empty(), "abs() should be a known builtin: {errs:?}");
}

fn select_acos() -> (&'static str, Node) {
    let src = "SELECT acos(1.0)";
    (src, select(vec![result(call(sp(src, "acos", "acos"), vec![lit(sp(src, "1.0", "1.0"))]))], None, vec![]))
}

#[test]
fn math_function_unknown_without_cflag() {
    // The default configuration does not enable the math functions.
    let (src, q) = select_acos();
    let model = analyze(src, vec![q], &sqlite_catalog(), &strict());
    let errs: Vec<_> = model
        .diagnostics()
        .iter()
        .filter(|d| matches!(&d.message, DiagnosticMessage::UnknownFunction { name } if name == "acos"))
        .collect();
    assert_eq!(errs.len(), 1, "acos() should be unknown without the math functions: {:?}", model.diagnostics());
}

#[test]
fn math_function_known_with_cflag() {
    // With the math functions enabled the dialect offers acos.
    let mut functions = sqlite_functions();
    functions.push(builtin("acos", DialectFunctionCategory::Scalar, &[1]));
    let dialect = Dialect::new(functions);
    let cat = Catalog::new(&dialect);
    let mut az = SemanticAnalyzer::with_dialect(dialect);
    let (src, q) = select_acos();
    let model = az.analyze(src, &statements(vec![q]), &cat, &strict());
    let errs = unknown_functions(&model);
    assert!(errs.is_empty(), "acos() should be known with the math functions: {errs:?}");
}

// ── Multiple statements and passes ──────────────────────────────────────────

#[test]
fn analyze_multiple_selects_independent() {
    let mut cat = sqlite_catalog();
    insert_table(&mut cat, CatalogLayer::Database, "users", &["id"], false);
    let src = "SELECT id FROM users; SELECT id FROM users;";
    let q1 = select(vec![result(col(sp(src, "id", "id")))], Some(table(sp(src, "users", "users"))), vec![]);
    let q2 = select(vec![result(col(last_sp(src, "id", "id")))], Some(table(last_sp(src, "users", "users"))), vec![]);
    let model = analyze(src, vec![q1, q2], &cat, &strict());
    assert!(unknown_tables(&model).is_empty());
}

#[test]
fn analyze_reuse_clears_document_layer() {
    let mut az = sqlite_analyzer();
    let cat = sqlite_catalog();

    let src1 = "CREATE TABLE t (id INTEGER); SELECT id FROM t;";
    let ddl = ddl_table(src1, "TABLE", "t", &["id"]);
    let q1 = select(vec![result(col(sp(src1, "SELECT id", "id")))], Some(table(sp(src1, "FROM t", "t"))), vec![]);
    az.analyze(src1, &statements(vec![ddl, q1]), &cat, &strict());

    let src2 = "SELECT id FROM t;";
    let q2 = select(vec![result(col(sp(src2, "id", "id")))], Some(table(sp(src2, "FROM t", "t"))), vec![]);
    let model = az.analyze(src2, &statements(vec![q2]), &cat, &strict());
    assert_eq!(unknown_tables_named(&model, "t").len(), 1, "document layer should be cleared between passes");
}

// ── Connection layer ────────────────────────────────────────────────────────

fn select_col_from(src: &'static str, column: &str, tbl: &str) -> Node {
    select(vec![result(col(sp(src, column, column)))], Some(table(last_sp(src, tbl, tbl))), vec![])
}

#[test]
fn catalog_connection_table_resolves() {
    let mut cat = sqlite_catalog();
    insert_table(&mut cat, CatalogLayer::Connection, "conn_tbl", &["id"], false);
    let src = "SELECT id FROM conn_tbl";
    let model = analyze(src, vec![select_col_from(src, "id", "conn_tbl")], &cat, &strict());
    let errs = unknown_tables_named(&model, "conn_tbl");
    assert!(errs.is_empty(), "connection table should be visible: {errs:?}");
}

#[test]
fn catalog_connection_shadows_database() {
    let mut cat = sqlite_catalog();
    insert_table(&mut cat, CatalogLayer::Database, "t", &["a"], false);
    insert_table(&mut cat, CatalogLayer::Connection, "t", &["b"], false);
    let src = "SELECT b FROM t";
    let model = analyze(src, vec![select_col_from(src, "b", "t")], &cat, &strict());
    let errs = unknown_columns(&model);
    assert!(errs.is_empty(), "connection layer should shadow database layer: {errs:?}");
}

#[test]
fn catalog_document_shadows_connection() {
    let mut cat = sqlite_catalog();
    insert_table(&mut cat, CatalogLayer::Connection, "t", &["a"], false);
    let src = "CREATE TABLE t (b INTEGER); SELECT b FROM t";
    let ddl = ddl_table(src, "TABLE", "t", &["b"]);
    let q = select(vec![result(col(sp(src, "SELECT b", "b")))], Some(table(sp(src, "FROM t", "t"))), vec![]);
    let model = analyze(src, vec![ddl, q], &cat, &strict());
    let errs = unknown_columns(&model);
    assert!(errs.is_empty(), "document layer should shadow connection layer: {errs:?}");
}

#[test]
fn catalog_clear_connection() {
    let mut cat = sqlite_catalog();
    insert_table(&mut cat, CatalogLayer::Connection, "conn_tbl", &["id"], false);
    cat.new_connection();
    let src = "SELECT id FROM conn_tbl";
    let model = analyze(src, vec![select_col_from(src, "id", "conn_tbl")], &cat, &strict());
    assert_eq!(unknown_tables_named(&model, "conn_tbl").len(), 1, "connection table should be gone after clear");
}

// ── CTE column lists ────────────────────────────────────────────────────────

/// `WITH cte(<declared>) AS (SELECT <body>) SELECT <outer> FROM cte`, where
/// the body's result columns are the literals or `*` listed in `body`.
fn cte_query(src: &'static str, declared: &[&str], body: Node, outer: &[&str]) -> Node {
    let name = sp(src, "cte", "cte");
    let mut cols = Vec::new();
    let mut from = name.offset + 3;
    for d in declared {
        let at = from + src[from..].find(d).unwrap();
        cols.push(Span { offset: at, text: d.to_string() });
        from = at + d.len();
    }
    let outer_start = src.rfind(") SELECT").unwrap();
    let mut results = Vec::new();
    let mut at_from = outer_start;
    for o in outer {
        let at = at_from + src[at_from..].find(o).unwrap();
        results.push(result(col(Span { offset: at, text: o.to_string() })));
        at_from = at + o.len();
    }
    let q = select(results, Some(table(last_sp(src, "cte", "cte"))), vec![]);
    with(vec![cte(name, cols, body)], q)
}

/// `SELECT v1, v2, ...` inside the CTE body, the values given by their text.
fn literal_body(src: &'static str, values: &[&str]) -> Node {
    let body_at = src.find("(SELECT").unwrap() + "(SELECT".len();
    let mut results = Vec::new();
    let mut from = body_at;
    for v in values {
        let at = from + src[from..].find(v).unwrap();
        results.push(result(lit(Span { offset: at, text: v.to_string() })));
        from = at + v.len();
    }
    select(results, None, vec![])
}

#[test]
fn cte_without_column_list_no_error() {
    let src = "WITH cte AS (SELECT 1 AS x) SELECT x FROM cte";
    let body = select(vec![result_as(lit(sp(src, "1 AS", "1")), sp(src, "AS x", "x"))], None, vec![]);
    let stmt = cte_query(src, &[], body, &["x"]);
    let model = analyze(src, vec![stmt], &sqlite_catalog(), &strict());
    let sem_errs: Vec<_> = model.diagnostics().iter().filter(|d| !d.message.is_parse_error()).collect();
    assert!(sem_errs.is_empty(), "unexpected diagnostics: {sem_errs:?}");
}

#[test]
fn cte_column_list_count_matches_no_error() {
    let src = "WITH cte(a, b) AS (SELECT 1, 2) SELECT a, b FROM cte";
    let stmt = cte_query(src, &["a", "b"], literal_body(src, &["1", "2"]), &["a", "b"]);
    let model = analyze(src, vec![stmt], &sqlite_catalog(), &strict());
    let errs = cte_mismatches(&model);
    assert!(errs.is_empty(), "unexpected mismatch diagnostic: {errs:?}");
}

#[test]
fn cte_column_list_count_mismatch_is_error() {
    let src = "WITH cte(a) AS (SELECT 1, 2) SELECT a FROM cte";
    let stmt = cte_query(src, &["a"], literal_body(src, &["1", "2"]), &["a"]);
    let model = analyze(src, vec![stmt], &sqlite_catalog(), &strict());
    let errs = cte_mismatches(&model);
    assert_eq!(errs.len(), 1, "expected CteColumnCountMismatch: {errs:?}");
    assert_eq!(errs[0].severity, Severity::Error);
    if let DiagnosticMessage::CteColumnCountMismatch { declared, actual, .. } = &errs[0].message {
        assert_eq!(*declared, 1);
        assert_eq!(*actual, 2);
    }
}

#[test]
fn cte_column_list_too_many_declared_is_error() {
    let src = "WITH cte(a, b, c) AS (SELECT 1, 2) SELECT a FROM cte";
    let stmt = cte_query(src, &["a", "b", "c"], literal_body(src, &["1", "2"]), &["a"]);
    let model = analyze(src, vec![stmt], &sqlite_catalog(), &strict());
    let errs = cte_mismatches(&model);
    assert_eq!(errs.len(), 1, "expected CteColumnCountMismatch: {errs:?}");
    if let DiagnosticMessage::CteColumnCountMismatch { declared, actual, .. } = &errs[0].message {
        assert_eq!(*declared, 3);
        assert_eq!(*actual, 2);
    }
}

#[test]
fn cte_declared_column_names_visible_in_outer_query() {
    let src = "WITH cte(x, y) AS (SELECT 1, 2) SELECT z FROM cte";
    let stmt = cte_query(src, &["x", "y"], literal_body(src, &["1", "2"]), &["z"]);
    let model = analyze(src, vec![stmt], &sqlite_catalog(), &strict());
    let errs = unknown_columns_named(&model, "z");
    assert_eq!(errs.len(), 1, "expected UnknownColumn for 'z': {errs:?}");
}

#[test]
fn cte_declared_columns_no_false_positive_for_valid_ref() {
    let src = "WITH cte(x, y) AS (SELECT 1, 2) SELECT x FROM cte";
    let stmt = cte_query(src, &["x", "y"], literal_body(src, &["1", "2"]), &["x"]);
    let model = analyze(src, vec![stmt], &sqlite_catalog(), &strict());
    let errs = unknown_columns(&model);
    assert!(errs.is_empty(), "unexpected UnknownColumn: {errs:?}");
}

#[test]
fn cte_star_body_skips_count_check() {
    let mut cat = sqlite_catalog();
    insert_table(&mut cat, CatalogLayer::Database, "t", &["a", "b"], false);
    let src = "WITH cte(x, y) AS (SELECT * FROM t) SELECT x FROM cte";
    let body = select(vec![star()], Some(table(sp(src, "FROM t", "t"))), vec![]);
    let stmt = cte_query(src, &["x", "y"], body, &["x"]);
    let model = analyze(src, vec![stmt], &cat, &strict());
    let errs = cte_mismatches(&model);
    assert!(errs.is_empty(), "should skip count check for SELECT *: {errs:?}");
}

#[test]
fn cte_inferred_column_invalid_ref_is_error() {
    let src = "WITH cte AS (SELECT 1 AS x) SELECT z FROM cte";
    let body = select(vec![result_as(lit(sp(src, "1 AS", "1")), sp(src, "AS x", "x"))], None, vec![]);
    let stmt = cte_query(src, &[], body, &["z"]);
    let model = analyze(src, vec![stmt], &sqlite_catalog(), &strict());
    let errs = unknown_columns_named(&model, "z");
    assert_eq!(errs.len(), 1, "expected UnknownColumn for 'z': {errs:?}");
}

#[test]
fn cte_inferred_column_valid_ref_no_error() {
    let src = "WITH cte AS (SELECT 1 AS x) SELECT x FROM cte";
    let body = select(vec![result_as(lit(sp(src, "1 AS", "1")), sp(src, "AS x", "x"))], None, vec![]);
    let stmt = cte_query(src, &[], body, &["x"]);
    let model = analyze(src, vec![stmt], &sqlite_catalog(), &strict());
    let errs = unknown_columns(&model);
    assert!(errs.is_empty(), "unexpected UnknownColumn: {errs:?}");
}

#[test]
fn cte_star_body_with_no_column_list_accepts_all() {
    let mut cat = sqlite_catalog();
    insert_table(&mut cat, CatalogLayer::Database, "t", &["a", "b"], false);
    let src = "WITH cte AS (SELECT * FROM t) SELECT anything FROM cte";
    let body = select(vec![star()], Some(table(sp(src, "FROM t", "t"))), vec![]);
    let stmt = cte_query(src, &[], body, &["anything"]);
    let model = analyze(src, vec![stmt], &cat, &strict());
    let errs = unknown_columns(&model);
    assert!(errs.is_empty(), "star body should accept any col ref: {errs:?}");
}

// ── CREATE TABLE/VIEW AS SELECT column inference ────────────────────────────

/// Assert that analysing `nodes` (the statements of `src`) reports exactly one
/// unknown column named `col`.
fn assert_unknown_col(src: &str, nodes: Vec<Node>, col: &str) {
    let model = analyze(src, nodes, &sqlite_catalog(), &strict());
    let errs = unknown_columns_named(&model, col);
    assert_eq!(errs.len(), 1, "expected exactly one UnknownColumn for '{col}': {errs:?}");
}

/// Assert that analysing `nodes` reports no unknown column.
fn assert_no_unknown_col(src: &str, nodes: Vec<Node>) {
    assert_no_unknown_col_with_relations(src, nodes, &[]);
}

/// Like `assert_no_unknown_col`, with `relations` in the database layer.
fn assert_no_unknown_col_with_relations(src: &str, nodes: Vec<Node>, relations: &[(&str, &[&str])]) {
    let mut cat = sqlite_catalog();
    for (name, cols) in relations {
        insert_table(&mut cat, CatalogLayer::Database, name, cols, false);
    }
    let model = analyze(src, nodes, &cat, &strict());
    let errs = unknown_columns(&model);
    assert!(errs.is_empty(), "unexpected UnknownColumn diagnostics: {errs:?}");
}

/// `CREATE TABLE t AS <body>; SELECT <outer> FROM t;` (or a view `v`).
fn create_then_query(src: &str, view: bool, body: Node, outer: Node) -> Vec<Node> {
    let (anchor, name) = if view { ("VIEW v", "v") } else { ("TABLE t", "t") };
    let def_name = sp(src, anchor, name);
    let def = if view { create_view_as(def_name, body) } else { create_table_as(def_name, body) };
    let from = format!("FROM {name}");
    let q = select(vec![result(outer)], Some(table(last_sp(src, &from, name))), vec![]);
    vec![def, q]
}

/// The body `SELECT 1 AS x`.
fn select_one_as_x(src: &str) -> Node {
    select(vec![result_as(lit(sp(src, "1 AS", "1")), sp(src, "AS x", "x"))], None, vec![])
}

/// The body `SELECT <literal>`.
fn select_literal(src: &str, literal: &str) -> Node {
    let anchor = format!("SELECT {literal}");
    select(vec![result(lit(sp(src, &anchor, literal)))], None, vec![])
}

/// The outer reference `<q>.<column>`.
fn qualified(src: &str, q: &str, column: &str) -> Node {
    let anchor = format!("{q}.{column}");
    let at = src.find(&anchor).expect("reference occurs in source");
    qcol(Span { offset: at, text: q.to_string() }, Span { offset: at + q.len() + 1, text: column.to_string() })
}

/// The last occurrence of the reference `<q>.<column>`.
fn qualified_last(src: &str, q: &str, column: &str) -> Node {
    let anchor = format!("{q}.{column}");
    let at = src.rfind(&anchor).expect("reference occurs in source");
    qcol(Span { offset: at, text: q.to_string() }, Span { offset: at + q.len() + 1, text: column.to_string() })
}

/// The span of the word `alias` just after `anchor` and a space.
fn after(src: &str, anchor: &str, alias: &str) -> Span {
    Span { offset: src.find(anchor).expect("anchor occurs in source") + anchor.len() + 1, text: alias.to_string() }
}

#[test]
fn create_table_as_select_invalid_column_is_error() {
    let src = "CREATE TABLE t AS SELECT 1 AS x; SELECT z FROM t;";
    let nodes = create_then_query(src, false, select_one_as_x(src), col(sp(src, "z", "z")));
    assert_unknown_col(src, nodes, "z");
}

#[test]
fn create_table_as_select_valid_column_no_error() {
    let src = "CREATE TABLE t AS SELECT 1 AS x; SELECT x FROM t;";
    let nodes = create_then_query(src, false, select_one_as_x(src), col(last_sp(src, "SELECT x", "x")));
    assert_no_unknown_col(src, nodes);
}

#[test]
fn create_view_as_select_invalid_column_is_error() {
    let src = "CREATE VIEW v AS SELECT 1 AS x; SELECT z FROM v;";
    let nodes = create_then_query(src, true, select_one_as_x(src), col(sp(src, "z", "z")));
    assert_unknown_col(src, nodes, "z");
}

#[test]
fn create_view_as_select_valid_column_no_error() {
    let src = "CREATE VIEW v AS SELECT 1 AS x; SELECT x FROM v;";
    let nodes = create_then_query(src, true, select_one_as_x(src), col(last_sp(src, "SELECT x", "x")));
    assert_no_unknown_col(src, nodes);
}

#[test]
fn create_table_as_select_unaliased_literal_flags_unknown_column() {
    let src = "CREATE TABLE t AS SELECT 1; SELECT t.order_id FROM t;";
    let nodes = create_then_query(src, false, select_literal(src, "1"), qualified(src, "t", "order_id"));
    assert_unknown_col(src, nodes, "order_id");
}

#[test]
fn create_view_as_select_unaliased_literal_flags_unknown_column() {
    let src = "CREATE VIEW v AS SELECT 1; SELECT v.order_id FROM v;";
    let nodes = create_then_query(src, true, select_literal(src, "1"), qualified(src, "v", "order_id"));
    assert_unknown_col(src, nodes, "order_id");
}

#[test]
fn create_table_as_select_unaliased_null_flags_unknown_column() {
    let src = "CREATE TABLE t AS SELECT NULL; SELECT t.order_id FROM t;";
    let nodes = create_then_query(src, false, select_literal(src, "NULL"), qualified(src, "t", "order_id"));
    assert_unknown_col(src, nodes, "order_id");
}

#[test]
fn create_table_as_select_unaliased_binary_expr_flags_unknown_column() {
    let src = "CREATE TABLE t AS SELECT 1+2; SELECT t.order_id FROM t;";
    let sum = expr(vec![lit(sp(src, "1+2", "1")), lit(sp(src, "1+2", "2"))]);
    let body = select(vec![result(sum)], None, vec![]);
    let nodes = create_then_query(src, false, body, qualified(src, "t", "order_id"));
    assert_unknown_col(src, nodes, "order_id");
}

#[test]
fn create_table_as_select_unaliased_function_call_flags_unknown_column() {
    let src = "CREATE TABLE t AS SELECT abs(1); SELECT t.order_id FROM t;";
    let body = select(vec![result(call(sp(src, "abs", "abs"), vec![lit(sp(src, "(1)", "1"))]))], None, vec![]);
    let nodes = create_then_query(src, false, body, qualified(src, "t", "order_id"));
    assert_unknown_col(src, nodes, "order_id");
}

#[test]
fn create_table_as_select_multiple_unnamed_columns_flags_unknown_column() {
    let src = "CREATE TABLE t AS SELECT 1, 2; SELECT t.order_id FROM t;";
    let body = select(vec![result(lit(sp(src, "1,", "1"))), result(lit(sp(src, " 2;", "2")))], None, vec![]);
    let nodes = create_then_query(src, false, body, qualified(src, "t", "order_id"));
    assert_unknown_col(src, nodes, "order_id");
}

/// The body `SELECT 1, 2 AS y`.
fn select_one_two_as_y(src: &str) -> Node {
    select(
        vec![result(lit(sp(src, "1,", "1"))), result_as(lit(sp(src, "2 AS", "2")), sp(src, "AS y", "y"))],
        None,
        vec![],
    )
}

#[test]
fn create_table_as_select_mixed_named_unnamed_named_col_valid() {
    let src = "CREATE TABLE t AS SELECT 1, 2 AS y; SELECT t.y FROM t;";
    let nodes = create_then_query(src, false, select_one_two_as_y(src), qualified(src, "t", "y"));
    assert_no_unknown_col(src, nodes);
}

#[test]
fn create_table_as_select_mixed_named_unnamed_wrong_col_errors() {
    let src = "CREATE TABLE t AS SELECT 1, 2 AS y; SELECT t.z FROM t;";
    let nodes = create_then_query(src, false, select_one_two_as_y(src), qualified(src, "t", "z"));
    assert_unknown_col(src, nodes, "z");
}

#[test]
fn create_table_as_select_star_still_accepts_any_column() {
    let src = "CREATE TABLE t AS SELECT * FROM src; SELECT t.anything FROM t;";
    let body = select(vec![star()], Some(table(sp(src, "FROM src", "src"))), vec![]);
    let nodes = create_then_query(src, false, body, qualified(src, "t", "anything"));
    assert_no_unknown_col_with_relations(src, nodes, &[("src", &["id"])]);
}

#[test]
fn create_table_as_select_expression_span_does_not_break_alias_path() {
    let src = "CREATE TABLE t AS SELECT 1 AS x; SELECT t.z FROM t;";
    let nodes = create_then_query(src, false, select_one_as_x(src), qualified(src, "t", "z"));
    assert_unknown_col(src, nodes, "z");
}

// ── Unknown tables: their columns are not checked ───────────────────────────

#[test]
fn unknown_table_columns_not_flagged() {
    let src = "SELECT id, name, email FROM users WHERE age >= 0 AND active = 1 ORDER BY name";
    let cond = expr(vec![
        expr(vec![col(sp(src, "age", "age")), lit(sp(src, ">= 0", "0"))]),
        expr(vec![col(sp(src, "active", "active")), lit(sp(src, "= 1", "1"))]),
    ]);
    let order = expr(vec![col(last_sp(src, "name", "name"))]);
    let q = select(
        vec![
            result(col(sp(src, "id", "id"))),
            result(col(sp(src, "name,", "name"))),
            result(col(sp(src, "email", "email"))),
        ],
        Some(table(sp(src, "users", "users"))),
        vec![cond, order],
    );
    let model = analyze(src, vec![q], &sqlite_catalog(), &strict());
    assert_eq!(
        unknown_tables_named(&model, "users").len(),
        1,
        "expected exactly one UnknownTable for 'users': {:#?}",
        model.diagnostics()
    );
    let col_errs = unknown_columns(&model);
    assert!(col_errs.is_empty(), "unknown table means columns should be accepted conservatively, got: {col_errs:#?}");
}

#[test]
fn unknown_tables_join_columns_not_flagged() {
    let src = "SELECT u.id, o.total FROM users u JOIN orders o ON u.id = o.user_id";
    let on = expr(vec![qualified_last(src, "u", "id"), qualified(src, "o", "user_id")]);
    let from = join(vec![
        table_as(sp(src, "users", "users"), after(src, "users", "u")),
        table_as(sp(src, "orders", "orders"), after(src, "orders", "o")),
        on,
    ]);
    let q = select(vec![result(qualified(src, "u", "id")), result(qualified(src, "o", "total"))], Some(from), vec![]);
    let model = analyze(src, vec![q], &sqlite_catalog(), &strict());
    assert_eq!(
        unknown_tables(&model).len(),
        2,
        "expected UnknownTable for both 'users' and 'orders': {:#?}",
        model.diagnostics()
    );
    let col_errs = unknown_columns(&model);
    assert!(col_errs.is_empty(), "unknown tables should suppress all column errors, got: {col_errs:#?}");
}

#[test]
fn unknown_table_in_subquery_columns_not_flagged() {
    let src = "SELECT sub.id FROM (SELECT id FROM users) AS sub";
    let inner = select(vec![result(col(sp(src, "(SELECT id", "id")))], Some(table(sp(src, "users", "users"))), vec![]);
    let q = select(vec![result(qualified(src, "sub", "id"))], Some(subquery(inner, sp(src, "AS sub", "sub"))), vec![]);
    let model = analyze(src, vec![q], &sqlite_catalog(), &strict());
    let col_errs = unknown_columns(&model);
    assert!(col_errs.is_empty(), "subquery with unknown table should suppress column errors, got: {col_errs:#?}");
}

#[test]
fn insert_unknown_table_columns_not_flagged() {
    let src = "INSERT INTO unknown_tbl(a, b, c) VALUES(1, 2, 3)";
    let columns = expr(vec![col(sp(src, "(a", "a")), col(sp(src, " b,", "b")), col(sp(src, " c)", "c"))]);
    let values = expr(vec![lit(sp(src, "(1", "1")), lit(sp(src, " 2", "2")), lit(sp(src, " 3", "3"))]);
    let stmt = Node::DmlScope { children: vec![table(sp(src, "unknown_tbl", "unknown_tbl")), columns, values] };
    let model = analyze(src, vec![stmt], &sqlite_catalog(), &strict());
    let col_errs = unknown_columns(&model);
    assert!(col_errs.is_empty(), "INSERT into unknown table should suppress column errors, got: {col_errs:#?}");
}

#[test]
fn update_unknown_table_columns_not_flagged() {
    let src = "UPDATE unknown_tbl SET stat='val' WHERE idx='t1a'";
    let set = expr(vec![col(sp(src, "stat", "stat")), lit(sp(src, "'val'", "'val'"))]);
    let cond = expr(vec![col(sp(src, "idx", "idx")), lit(sp(src, "'t1a'", "'t1a'"))]);
    let stmt = Node::DmlScope { children: vec![table(sp(src, "unknown_tbl", "unknown_tbl")), set, cond] };
    let model = analyze(src, vec![stmt], &sqlite_catalog(), &strict());
    let col_errs = unknown_columns(&model);
    assert!(col_errs.is_empty(), "UPDATE on unknown table should suppress column errors, got: {col_errs:#?}");
}

#[test]
fn delete_unknown_table_columns_not_flagged() {
    let src = "DELETE FROM unknown_tbl WHERE idx='t1a'";
    let cond = expr(vec![col(sp(src, "idx", "idx")), lit(sp(src, "'t1a'", "'t1a'"))]);
    let stmt = Node::DmlScope { children: vec![table(sp(src, "unknown_tbl", "unknown_tbl")), cond] };
    let model = analyze(src, vec![stmt], &sqlite_catalog(), &strict());
    let col_errs = unknown_columns(&model);
    assert!(col_errs.is_empty(), "DELETE from unknown table should suppress column errors, got: {col_errs:#?}");
}

// ── SELECT aliases in later clauses ─────────────────────────────────────────

fn assert_no_unknown_col_with_ddl(ddl: &str, ddl_table_node: Node, src: &str, q: Node, what: &str) {
    let cat = catalog_from_ddl(ddl, vec![ddl_table_node]);
    let model = analyze(src, vec![q], &cat, &strict());
    let col_errs = unknown_columns(&model);
    assert!(col_errs.is_empty(), "{what} should not flag UnknownColumn, got: {col_errs:#?}");
}

#[test]
fn order_by_select_alias_no_unknown_column() {
    let ddl = "CREATE TABLE users (id INTEGER, name TEXT, active INT);";
    let table_node = ddl_table(ddl, "TABLE", "users", &["id", "name", "active"]);
    let src = "SELECT COUNT(*) AS cnt FROM users ORDER BY cnt";
    let q = select(
        vec![result_as(call(sp(src, "COUNT", "COUNT"), vec![]), sp(src, "AS cnt", "cnt"))],
        Some(table(sp(src, "users", "users"))),
        vec![expr(vec![col(last_sp(src, "cnt", "cnt"))])],
    );
    assert_no_unknown_col_with_ddl(ddl, table_node, src, q, "ORDER BY referencing SELECT alias");
}

#[test]
fn order_by_alias_with_group_by() {
    let ddl = "CREATE TABLE employees (id INTEGER, dept TEXT, salary REAL);";
    let table_node = ddl_table(ddl, "TABLE", "employees", &["id", "dept", "salary"]);
    let src = "SELECT dept, SUM(salary) AS total_salary FROM employees GROUP BY dept ORDER BY total_salary DESC";
    let q = select(
        vec![
            result(col(sp(src, "dept", "dept"))),
            result_as(call(sp(src, "SUM", "SUM"), vec![col(sp(src, "(salary", "salary"))]), sp(src, "AS total_salary", "total_salary")),
        ],
        Some(table(sp(src, "employees", "employees"))),
        vec![expr(vec![col(sp(src, "BY dept", "dept"))]), expr(vec![col(last_sp(src, "total_salary", "total_salary"))])],
    );
    assert_no_unknown_col_with_ddl(ddl, table_node, src, q, "ORDER BY alias with GROUP BY");
}

#[test]
fn having_select_alias_no_unknown_column() {
    let ddl = "CREATE TABLE users (id INTEGER, active INT);";
    let table_node = ddl_table(ddl, "TABLE", "users", &["id", "active"]);
    let src = "SELECT COUNT(*) AS n FROM users HAVING n > 0";
    let q = select(
        vec![result_as(call(sp(src, "COUNT", "COUNT"), vec![]), sp(src, "AS n", "n"))],
        Some(table(sp(src, "users", "users"))),
        vec![expr(vec![col(sp(src, "n >", "n")), lit(sp(src, "> 0", "0"))])],
    );
    assert_no_unknown_col_with_ddl(ddl, table_node, src, q, "HAVING referencing SELECT alias");
}

#[test]
fn where_select_alias_no_unknown_column() {
    let ddl = "CREATE TABLE t (a INT, b INT);";
    let table_node = ddl_table(ddl, "TABLE", "t", &["a", "b"]);
    let src = "SELECT a + b AS total FROM t WHERE total > 10";
    let sum = expr(vec![col(sp(src, "a +", "a")), col(sp(src, "+ b", "b"))]);
    let q = select(
        vec![result_as(sum, sp(src, "AS total", "total"))],
        Some(table(sp(src, "FROM t", "t"))),
        vec![expr(vec![col(last_sp(src, "total", "total")), lit(sp(src, "10", "10"))])],
    );
    assert_no_unknown_col_with_ddl(ddl, table_node, src, q, "WHERE referencing SELECT alias");
}

#[test]
fn attach_schema_name_no_unknown_column() {
    let src = "ATTACH ':memory:' AS scratch";
    let stmt = Node::Plain {
        spans: vec![],
        children: vec![lit(sp(src, "':memory:'", "':memory:'")), col(sp(src, "scratch", "scratch"))],
    };
    let model = analyze(src, vec![stmt], &sqlite_catalog(), &strict());
    let col_errs = unknown_columns(&model);
    assert!(col_errs.is_empty(), "ATTACH schema name should not flag UnknownColumn, got: {col_errs:#?}");
}

#[test]
fn group_by_select_alias_no_unknown_column() {
    let ddl = "CREATE TABLE t (a INT, b INT);";
    let table_node = ddl_table(ddl, "TABLE", "t", &["a", "b"]);
    let src = "SELECT a + b AS total, COUNT(*) FROM t GROUP BY total";
    let sum = expr(vec![col(sp(src, "a +", "a")), col(sp(src, "+ b", "b"))]);
    let q = select(
        vec![result_as(sum, sp(src, "AS total", "total")), result(call(sp(src, "COUNT", "COUNT"), vec![]))],
        Some(table(sp(src, "FROM t", "t"))),
        vec![expr(vec![col(last_sp(src, "total", "total"))])],
    );
    assert_no_unknown_col_with_ddl(ddl, table_node, src, q, "GROUP BY referencing SELECT alias");
}

// ── Quoted identifiers ──────────────────────────────────────────────────────

/// `CREATE TABLE t AS SELECT 1; SELECT t.<quoted 1> FROM t;`, the quoted
/// name given to the analysis without its quotes.
fn quoted_one(src: &str, quoted: &str) -> Vec<Node> {
    let at = src.find(quoted).unwrap() + 1;
    let reference = qcol(sp(src, &format!("t.{quoted}"), "t"), Span { offset: at, text: "1".to_string() });
    create_then_query(src, false, select_literal(src, "1"), reference)
}

#[test]
fn quoted_col_ref_resolves_against_expression_span_name() {
    let src = r#"CREATE TABLE t AS SELECT 1; SELECT t."1" FROM t;"#;
    assert_no_unknown_col(src, quoted_one(src, "\"1\""));
}

#[test]
fn backtick_col_ref_resolves_against_expression_span_name() {
    let src = "CREATE TABLE t AS SELECT 1; SELECT t.`1` FROM t;";
    assert_no_unknown_col(src, quoted_one(src, "`1`"));
}

#[test]
fn bracket_col_ref_resolves_against_expression_span_name() {
    let src = "CREATE TABLE t AS SELECT 1; SELECT t.[1] FROM t;";
    assert_no_unknown_col(src, quoted_one(src, "[1]"));
}

#[test]
fn quoted_col_ref_resolves_aliased_column() {
    let src = r#"CREATE TABLE t AS SELECT 1 AS x; SELECT t."x" FROM t;"#;
    let at = src.find("\"x\"").unwrap() + 1;
    let reference = qcol(sp(src, "t.\"", "t"), Span { offset: at, text: "x".to_string() });
    assert_no_unknown_col(src, create_then_query(src, false, select_one_as_x(src), reference));
}

// ── TRUE and FALSE ──────────────────────────────────────────────────────────

/// `SELECT w1, w2, ...` where each word parses as a column reference.
fn select_words(src: &str, words: &[&str]) -> Node {
    let mut results = Vec::new();
    let mut from = 0;
    for w in words {
        let at = from + src[from..].find(w).unwrap();
        results.push(result(col(Span { offset: at, text: w.to_string() })));
        from = at + w.len();
    }
    select(results, None, vec![])
}

#[test]
fn select_true_no_unknown_column() {
    let src = "SELECT TRUE;";
    assert_no_unknown_col(src, vec![select_words(src, &["TRUE"])]);
}

#[test]
fn select_false_no_unknown_column() {
    let src = "SELECT FALSE;";
    assert_no_unknown_col(src, vec![select_words(src, &["FALSE"])]);
}

#[test]
fn select_true_false_case_insensitive() {
    let src = "SELECT true, False, TRUE, false;";
    assert_no_unknown_col(src, vec![select_words(src, &["true", "False", "TRUE", "false"])]);
}

// ── Diagnostic reports ──────────────────────────────────────────────────────

/// The reports laid out one per line: `severity: message`, then the help.
fn report_text(reports: &[syntaqlite::render::SourceError]) -> String {
    let mut text = String::new();
    for r in reports {
        text.push_str(&format!("{}: {}\n", r.severity, r.message));
        if let Some(h) = &r.help {
            text.push_str(&format!("  = help: {}\n", h));
        }
    }
    text
}

#[test]
fn renderer_produces_output_for_error() {
    let src = "SELECT * FROM missing";
    let q = select(vec![star()], Some(table(sp(src, "missing", "missing"))), vec![]);
    let model = analyze(src, vec![q], &sqlite_catalog(), &strict());
    assert!(!model.diagnostics().is_empty());

    let renderer = syntaqlite::render::DiagnosticRenderer::new(src, "test.sql");
    let (reports, has_errors) = renderer.render_diagnostics(model.diagnostics());
    let text = report_text(&reports);
    assert!(has_errors);
    assert!(text.contains("error:"), "expected 'error:' in output:\n{text}");
    assert!(text.contains("missing"), "expected table name in output:\n{text}");
}

#[test]
fn renderer_includes_suggestion() {
    let src = "SELECT * FROM usres";
    let mut cat = sqlite_catalog();
    insert_table(&mut cat, CatalogLayer::Database, "users", &["id"], false);
    let q = select(vec![star()], Some(table(sp(src, "usres", "usres"))), vec![]);
    let model = analyze(src, vec![q], &cat, &strict());

    let renderer = syntaqlite::render::DiagnosticRenderer::new(src, "test.sql");
    let (reports, _) = renderer.render_diagnostics(model.diagnostics());
    let text = report_text(&reports);
    assert!(text.contains("users"), "expected suggestion in output:\n{text}");
}

#[test]
fn renderer_reports_warnings_without_errors() {
    let src = "SELECT * FROM missing";
    let q = select(vec![star()], Some(table(sp(src, "missing", "missing"))), vec![]);
    let model = analyze(src, vec![q], &sqlite_catalog(), &lenient());

    let renderer = syntaqlite::render::DiagnosticRenderer::new(src, "q.sql");
    assert_eq!(renderer.file(), "q.sql");
    assert_eq!(renderer.source(), src);
    let (reports, has_errors) = renderer.render_diagnostics(model.diagnostics());
    assert!(!has_errors);
    assert_eq!(reports.len(), model.diagnostics().len());
    assert_eq!(reports[0].severity, "warning");
    assert_eq!(reports[0].message, "unknown table 'missing'");
    assert_eq!(reports[0].start_offset, 14);
    assert_eq!(reports[0].end_offset, 21);
}

// ── Temporary objects ───────────────────────────────────────────────────────

#[test]
fn temp_table_goes_to_connection_layer() {
    let src = "CREATE TEMP TABLE t(x)";
    let node = Node::CreateTable {
        name: sp(src, "t(", "t"),
        columns: vec![sp(src, "(x", "x")],
        select: None,
        without_rowid: false,
        temporary: true,
    };
    let mut cat = sqlite_catalog();
    cat.accumulate_ddl(CatalogLayer::Document, src, &node);
    assert!(cat.resolve_relation("t"));
    // Clearing the document layer keeps it; clearing the connection drops it.
    cat.new_document();
    assert!(cat.resolve_relation("t"));
    cat.new_connection();
    assert!(!cat.resolve_relation("t"));
}

#[test]
fn temp_view_goes_to_connection_layer() {
    let src = "CREATE TEMP VIEW v AS SELECT 1 AS x";
    let node = Node::CreateView {
        name: sp(src, "v ", "v"),
        columns: vec![],
        select: Some(Box::new(select(vec![result_as(lit(sp(src, "1", "1")), sp(src, "x", "x"))], None, vec![]))),
        temporary: true,
    };
    let mut cat = sqlite_catalog();
    cat.accumulate_ddl(CatalogLayer::Database, src, &node);
    assert!(cat.is_view("v"));
    cat.new_document();
    assert!(cat.is_view("v"));
    cat.new_connection();
    assert!(!cat.resolve_relation("v"));
}

#[test]
fn plain_table_stays_in_target_layer() {
    let src = "CREATE TABLE t(x)";
    let mut cat = sqlite_catalog();
    let node = create_table(sp(src, "t(", "t"), vec![sp(src, "(x", "x")]);
    cat.accumulate_ddl(CatalogLayer::Database, src, &node);
    assert!(cat.resolve_relation("t"));
    cat.new_connection();
    assert!(cat.resolve_relation("t"));
    let mut doc = sqlite_catalog();
    doc.accumulate_ddl(CatalogLayer::Document, src, &node);
    assert!(doc.resolve_relation("t"));
    doc.new_document();
    assert!(!doc.resolve_relation("t"));
}
