//! Column lineage of analyzed queries. Each statement is given as the tree
//! the parser makes of the SQL text shown beside it.

use syntaqlite::analyzer::SemanticAnalyzer;
use syntaqlite::catalog::{Catalog, CatalogLayer};
use syntaqlite::config::ValidationConfig;
use syntaqlite::dialect::{BuiltinFunction, Dialect, DialectFunctionCategory};
use syntaqlite::lineage::{ColumnOrigin, LineageResult, RelationKind};
use syntaqlite::model::SemanticModel;
use syntaqlite::tree::{Node, ParseItem, Span};

// ── Building statements by hand ─────────────────────────────────────────────

/// The span of `text` inside the first occurrence of `anchor` in `src`.
fn sp(src: &str, anchor: &str, text: &str) -> Span {
    let a = src.find(anchor).expect("anchor occurs in source");
    let i = a + anchor.find(text).expect("text occurs in anchor");
    Span { offset: i, text: text.to_string() }
}

fn absent() -> Span {
    Span { offset: 0, text: String::new() }
}

fn col(column: Span) -> Node {
    Node::ColumnRef { column, table: absent() }
}

fn qcol(table: Span, column: Span) -> Node {
    Node::ColumnRef { column, table }
}

fn lit(text: Span) -> Node {
    Node::Plain { spans: vec![text], children: vec![] }
}

/// An expression made of other expressions (a comparison, a sum, ...).
fn expr(parts: Vec<Node>) -> Node {
    Node::Plain { spans: vec![], children: parts }
}

fn result(e: Node) -> Node {
    Node::ResultColumn { star: false, alias: absent(), expr: Some(Box::new(e)) }
}

fn result_as(e: Node, alias: Span) -> Node {
    Node::ResultColumn { star: false, alias, expr: Some(Box::new(e)) }
}

fn star() -> Node {
    Node::ResultColumn { star: true, alias: absent(), expr: None }
}

fn table(name: Span) -> Node {
    Node::SourceRef { name, alias: absent() }
}

fn table_as(name: Span, alias: Span) -> Node {
    Node::SourceRef { name, alias }
}

fn subquery(body: Node, alias: Span) -> Node {
    Node::ScopedSource { body: Some(Box::new(body)), alias }
}

/// A join: its sources and its ON condition, in source order.
fn join(parts: Vec<Node>) -> Node {
    Node::Plain { spans: vec![], children: parts }
}

fn select(results: Vec<Node>, from: Option<Node>) -> Node {
    Node::Query { from: from.map(Box::new), results: Some(results), clauses: vec![] }
}

fn create_table(name: Span, columns: Vec<Span>) -> Node {
    Node::CreateTable { name, columns, select: None, without_rowid: false, temporary: false }
}

fn with(bindings: Vec<Node>, body: Node) -> Node {
    Node::CteScope { recursive: false, bindings, body: Some(Box::new(body)) }
}

fn cte(name: Span, body: Node) -> Node {
    Node::CteBinding { name, columns: vec![], body: Some(Box::new(body)) }
}

fn statements(nodes: Vec<Node>) -> Vec<ParseItem> {
    nodes.into_iter().map(ParseItem::Statement).collect()
}

// ── Fixtures ────────────────────────────────────────────────────────────────

fn sqlite_dialect() -> Dialect {
    Dialect::new(vec![BuiltinFunction {
        name: "count".to_string(),
        category: DialectFunctionCategory::Aggregate,
        arities: vec![0, 1],
    }])
}

fn sqlite_analyzer() -> SemanticAnalyzer {
    SemanticAnalyzer::with_dialect(sqlite_dialect())
}

fn sqlite_catalog() -> Catalog {
    Catalog::new(&sqlite_dialect())
}

fn lenient() -> ValidationConfig {
    ValidationConfig::default()
}

fn insert_table(cat: &mut Catalog, name: &str, columns: &[&str]) {
    cat.layer_mut(CatalogLayer::Database).insert_table(name, Some(columns.iter().map(|c| c.to_string()).collect()), false);
}

fn analyze(src: &str, node: Node, cat: &Catalog) -> SemanticModel {
    sqlite_analyzer().analyze(src, &statements(vec![node]), cat, &lenient())
}

fn origin(table: &str, column: &str) -> Option<ColumnOrigin> {
    Some(ColumnOrigin { table: table.to_string(), column: column.to_string() })
}

// ── Scenarios ───────────────────────────────────────────────────────────────

#[test]
fn lineage_simple_direct_columns() {
    let mut catalog = sqlite_catalog();
    insert_table(&mut catalog, "users", &["id", "name"]);
    let src = "SELECT id, name FROM users";
    let q = select(
        vec![result(col(sp(src, "id", "id"))), result(col(sp(src, "name", "name")))],
        Some(table(sp(src, "users", "users"))),
    );
    let model = analyze(src, q, &catalog);

    let lineage = model.lineage().expect("should be a query");
    assert!(lineage.is_complete());
    let cols = lineage.into_inner();
    assert_eq!(cols.len(), 2);
    assert_eq!(cols[0].name, "id");
    assert_eq!(cols[0].index, 0);
    assert_eq!(cols[0].origin, origin("users", "id"));
    assert_eq!(cols[1].name, "name");
    assert_eq!(cols[1].index, 1);
    assert_eq!(cols[1].origin, origin("users", "name"));

    let rels = model.relations_accessed().unwrap().into_inner();
    assert_eq!(rels.len(), 1);
    assert_eq!(rels[0].name, "users");
    assert_eq!(rels[0].kind, RelationKind::Table);

    let tbls = model.tables_accessed().unwrap().into_inner();
    assert_eq!(tbls.len(), 1);
    assert_eq!(tbls[0].name, "users");
}

#[test]
fn lineage_expression_no_origin() {
    let mut catalog = sqlite_catalog();
    insert_table(&mut catalog, "users", &["id", "name"]);
    let src = "SELECT id + 1 AS x FROM users";
    let q = select(
        vec![result_as(expr(vec![col(sp(src, "id", "id")), lit(sp(src, "1", "1"))]), sp(src, "AS x", "x"))],
        Some(table(sp(src, "users", "users"))),
    );
    let model = analyze(src, q, &catalog);

    let lineage = model.lineage().unwrap();
    assert!(lineage.is_complete());
    let cols = lineage.into_inner();
    assert_eq!(cols.len(), 1);
    assert_eq!(cols[0].name, "x");
    assert!(cols[0].origin.is_none(), "expression should have no origin");
}

#[test]
fn lineage_alias() {
    let mut catalog = sqlite_catalog();
    insert_table(&mut catalog, "users", &["id", "name"]);
    let src = "SELECT id AS user_id FROM users";
    let q = select(
        vec![result_as(col(sp(src, "id", "id")), sp(src, "user_id", "user_id"))],
        Some(table(sp(src, "users", "users"))),
    );
    let model = analyze(src, q, &catalog);

    let cols = model.lineage().unwrap().into_inner();
    assert_eq!(cols[0].name, "user_id");
    assert_eq!(cols[0].origin, origin("users", "id"));
}

#[test]
fn lineage_multi_table_join() {
    let mut catalog = sqlite_catalog();
    insert_table(&mut catalog, "users", &["id", "name"]);
    insert_table(&mut catalog, "orders", &["id", "user_id", "amount"]);
    let src = "SELECT u.id, o.amount FROM users u JOIN orders o ON u.id = o.user_id";
    let on = expr(vec![
        qcol(sp(src, "ON u.id", "u"), sp(src, "ON u.id", "id")),
        qcol(sp(src, "o.user_id", "o"), sp(src, "o.user_id", "user_id")),
    ]);
    let from = join(vec![
        table_as(sp(src, "users u", "users"), sp(src, "users u", "u")),
        table_as(sp(src, "orders o", "orders"), sp(src, "orders o", "o")),
        on,
    ]);
    let q = select(
        vec![
            result(qcol(sp(src, "u.id", "u"), sp(src, "u.id", "id"))),
            result(qcol(sp(src, "o.amount", "o"), sp(src, "o.amount", "amount"))),
        ],
        Some(from),
    );
    let model = analyze(src, q, &catalog);

    let cols = model.lineage().unwrap().into_inner();
    assert_eq!(cols.len(), 2);
    assert_eq!(cols[0].origin, origin("users", "id"));
    assert_eq!(cols[1].origin, origin("orders", "amount"));

    let tbls = model.tables_accessed().unwrap().into_inner();
    assert!(tbls.iter().any(|t| t.name == "users"));
    assert!(tbls.iter().any(|t| t.name == "orders"));
}

#[test]
fn lineage_cte_transitive() {
    let mut catalog = sqlite_catalog();
    insert_table(&mut catalog, "users", &["id", "name"]);
    let src = "WITH cte AS (SELECT id FROM users) SELECT id FROM cte";
    let inner = select(vec![result(col(sp(src, "SELECT id", "id")))], Some(table(sp(src, "users", "users"))));
    let outer = select(vec![result(col(sp(src, "id FROM cte", "id")))], Some(table(sp(src, "FROM cte", "cte"))));
    let q = with(vec![cte(sp(src, "cte", "cte"), inner)], outer);
    let model = analyze(src, q, &catalog);

    let lineage = model.lineage().unwrap();
    assert!(lineage.is_complete());
    let cols = lineage.into_inner();
    assert_eq!(cols.len(), 1);
    assert_eq!(cols[0].origin, origin("users", "id"));

    let rels = model.relations_accessed().unwrap().into_inner();
    assert_eq!(rels.len(), 1);
    assert_eq!(rels[0].name, "users");
    assert_eq!(rels[0].kind, RelationKind::Table);

    let tbls = model.tables_accessed().unwrap().into_inner();
    assert_eq!(tbls.len(), 1);
    assert_eq!(tbls[0].name, "users");
}

#[test]
fn lineage_subquery_transitive() {
    let mut catalog = sqlite_catalog();
    insert_table(&mut catalog, "users", &["id", "name"]);
    let src = "SELECT id FROM (SELECT id FROM users) sub";
    let inner = select(vec![result(col(sp(src, "(SELECT id", "id")))], Some(table(sp(src, "users", "users"))));
    let q = select(vec![result(col(sp(src, "id", "id")))], Some(subquery(inner, sp(src, "sub", "sub"))));
    let model = analyze(src, q, &catalog);

    let cols = model.lineage().unwrap().into_inner();
    assert_eq!(cols.len(), 1);
    assert_eq!(cols[0].origin, origin("users", "id"));

    let tbls = model.tables_accessed().unwrap().into_inner();
    assert_eq!(tbls.len(), 1);
    assert_eq!(tbls[0].name, "users");
}

#[test]
fn lineage_select_star() {
    let mut catalog = sqlite_catalog();
    insert_table(&mut catalog, "users", &["id", "name"]);
    let src = "SELECT * FROM users";
    let q = select(vec![star()], Some(table(sp(src, "users", "users"))));
    let model = analyze(src, q, &catalog);

    let cols = model.lineage().unwrap().into_inner();
    assert_eq!(cols.len(), 2);
    for col in cols {
        assert!(col.origin.is_some());
        assert_eq!(col.origin.as_ref().unwrap().table, "users");
    }
}

#[test]
fn lineage_view_partial() {
    let mut catalog = sqlite_catalog();
    catalog.layer_mut(CatalogLayer::Database).insert_view("active_users", Some(vec!["id".into(), "name".into()]));
    let src = "SELECT id FROM active_users";
    let q = select(vec![result(col(sp(src, "id", "id")))], Some(table(sp(src, "active_users", "active_users"))));
    let model = analyze(src, q, &catalog);

    let lineage = model.lineage().unwrap();
    assert!(!lineage.is_complete(), "view with unavailable body should be Partial");

    let rels = model.relations_accessed().unwrap().into_inner();
    assert_eq!(rels.len(), 1);
    assert_eq!(rels[0].name, "active_users");
    assert_eq!(rels[0].kind, RelationKind::View);
}

#[test]
fn lineage_non_select_returns_none() {
    let catalog = sqlite_catalog();
    let src = "CREATE TABLE t(x)";
    let model = analyze(src, create_table(sp(src, "t(", "t"), vec![sp(src, "(x", "x")]), &catalog);

    assert!(model.lineage().is_none());
    assert!(model.relations_accessed().is_none());
    assert!(model.tables_accessed().is_none());
}

#[test]
fn lineage_cte_with_expression() {
    let mut catalog = sqlite_catalog();
    insert_table(&mut catalog, "users", &["id", "name"]);
    let src = "WITH cte AS (SELECT id+1 AS x FROM users) SELECT x FROM cte";
    let inner = select(
        vec![result_as(expr(vec![col(sp(src, "id+1", "id")), lit(sp(src, "+1", "1"))]), sp(src, "AS x", "x"))],
        Some(table(sp(src, "users", "users"))),
    );
    let outer = select(vec![result(col(sp(src, "SELECT x", "x")))], Some(table(sp(src, "FROM cte", "cte"))));
    let q = with(vec![cte(sp(src, "cte", "cte"), inner)], outer);
    let model = analyze(src, q, &catalog);

    let cols = model.lineage().unwrap().into_inner();
    assert_eq!(cols.len(), 1);
    assert_eq!(cols[0].name, "x");
    assert!(cols[0].origin.is_none(), "expression in CTE should have no origin");
}

// ── Further scenarios ───────────────────────────────────────────────────────

/// The lineage kept is that of the last query; a later DDL statement does not
/// clear it.
#[test]
fn lineage_last_query_is_kept() {
    let mut catalog = sqlite_catalog();
    insert_table(&mut catalog, "users", &["id", "name"]);
    insert_table(&mut catalog, "orders", &["id", "amount"]);
    let src = "SELECT id FROM users; SELECT amount FROM orders; CREATE TABLE t(x)";
    let first = select(vec![result(col(sp(src, "id", "id")))], Some(table(sp(src, "users", "users"))));
    let second = select(vec![result(col(sp(src, "amount", "amount")))], Some(table(sp(src, "orders", "orders"))));
    let ddl = create_table(sp(src, "t(", "t"), vec![sp(src, "(x", "x")]);
    let model = sqlite_analyzer().analyze(src, &statements(vec![first, second, ddl]), &catalog, &lenient());

    let cols = model.lineage().unwrap().into_inner();
    assert_eq!(cols.len(), 1);
    assert_eq!(cols[0].name, "amount");
    assert_eq!(cols[0].origin, origin("orders", "amount"));
}

/// A table defined earlier in the same document is known to the lineage of a
/// later query.
#[test]
fn lineage_sees_document_tables() {
    let catalog = sqlite_catalog();
    let src = "CREATE TABLE t(a, b); SELECT b FROM t";
    let ddl = create_table(sp(src, "t(", "t"), vec![sp(src, "(a", "a"), sp(src, "b)", "b")]);
    let q = select(vec![result(col(sp(src, "SELECT b", "b")))], Some(table(sp(src, "FROM t", "t"))));
    let model = sqlite_analyzer().analyze(src, &statements(vec![ddl, q]), &catalog, &lenient());

    let lineage = model.lineage().unwrap();
    assert!(lineage.is_complete());
    let cols = lineage.into_inner();
    assert_eq!(cols[0].origin, origin("t", "b"));
}

/// Completeness carries over to every accessor.
#[test]
fn lineage_partial_in_every_accessor() {
    let mut catalog = sqlite_catalog();
    catalog.layer_mut(CatalogLayer::Database).insert_view("v", Some(vec!["id".into()]));
    let src = "SELECT id FROM v";
    let q = select(vec![result(col(sp(src, "id", "id")))], Some(table(sp(src, "v", "v"))));
    let model = analyze(src, q, &catalog);

    assert!(matches!(model.lineage(), Some(LineageResult::Partial(_))));
    assert!(matches!(model.relations_accessed(), Some(LineageResult::Partial(_))));
    assert!(matches!(model.tables_accessed(), Some(LineageResult::Partial(_))));
}
