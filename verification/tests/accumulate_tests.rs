use syntaqlite::accumulate::{ColumnSpec, ConstraintKind, DefinitionSpec, ResultColumnSpec, SelectSpec, SourceSpec};
use syntaqlite::relations::{ColumnDef, RelationDef, RelationKind};
use syntaqlite::validation::{DocumentContext, SessionContext};

// ── Building DDL statements by hand ─────────────────────────────────────────

fn column(name: &str, declared_type: &str, constraints: Vec<ConstraintKind>) -> ColumnSpec {
    ColumnSpec { name: name.to_string(), declared_type: declared_type.to_string(), constraints }
}

fn create(kind: RelationKind, name: &str, columns: Vec<ColumnSpec>) -> DefinitionSpec {
    DefinitionSpec::Relation { kind, name: name.to_string(), columns: Some(columns), select: None }
}

fn create_as(kind: RelationKind, name: &str, select: SelectSpec) -> DefinitionSpec {
    DefinitionSpec::Relation { kind, name: name.to_string(), columns: None, select: Some(select) }
}

/// A result column that is a bare column reference.
fn named(column_ref: &str) -> ResultColumnSpec {
    ResultColumnSpec { star: false, alias: String::new(), column_ref: Some(column_ref.to_string()), text: column_ref.to_string() }
}

/// A result column `<text> AS <alias>`; `column_ref` when the expression is
/// a bare column reference.
fn aliased(column_ref: Option<&str>, text: &str, alias: &str) -> ResultColumnSpec {
    ResultColumnSpec { star: false, alias: alias.to_string(), column_ref: column_ref.map(|c| c.to_string()), text: text.to_string() }
}

/// A result column that is some other expression, written `text`.
fn expression(text: &str) -> ResultColumnSpec {
    ResultColumnSpec { star: false, alias: String::new(), column_ref: None, text: text.to_string() }
}

fn star(qualifier: &str) -> ResultColumnSpec {
    ResultColumnSpec { star: true, alias: qualifier.to_string(), column_ref: None, text: String::new() }
}

fn table(name: &str, alias: &str) -> SourceSpec {
    SourceSpec::Table { name: name.to_string(), alias: alias.to_string() }
}

fn join(left: SourceSpec, right: SourceSpec) -> SourceSpec {
    SourceSpec::Join { left: Some(Box::new(left)), right: Some(Box::new(right)) }
}

fn select(columns: Vec<ResultColumnSpec>, from: Option<SourceSpec>) -> SelectSpec {
    SelectSpec::Simple { from: from.map(Box::new), columns: Some(columns) }
}

fn names(r: &RelationDef) -> Vec<&str> {
    r.columns.iter().map(|c| c.name.as_str()).collect()
}

// ── Scenarios of the session schema ─────────────────────────────────────────

// CREATE TABLE users (id INTEGER PRIMARY KEY, name TEXT NOT NULL);
#[test]
fn from_stmts_creates_session_context() {
    let stmts = vec![create(
        RelationKind::Table,
        "users",
        vec![
            column("id", "INTEGER", vec![ConstraintKind::PrimaryKey]),
            column("name", "TEXT", vec![ConstraintKind::NotNull]),
        ],
    )];
    let ctx = SessionContext::from_stmts(&stmts);

    let tables: Vec<_> = ctx.tables().collect();
    assert_eq!(tables.len(), 1);
    let table = tables[0];
    assert_eq!(table.name, "users");
    assert_eq!(table.columns.len(), 2);

    let id_col = &table.columns[0];
    assert_eq!(id_col.name, "id");
    assert_eq!(id_col.declared_type.as_deref(), Some("INTEGER"));
    assert!(id_col.is_primary_key);
    assert!(!id_col.is_nullable);

    let name_col = &table.columns[1];
    assert_eq!(name_col.name, "name");
    assert_eq!(name_col.declared_type.as_deref(), Some("TEXT"));
    assert!(!name_col.is_primary_key);
    assert!(!name_col.is_nullable);

    assert_eq!(ctx.views().count(), 0);
    assert!(ctx.functions.is_empty());
}

// CREATE TABLE orders AS SELECT order_id, total AS amount FROM src;
#[test]
fn from_stmts_create_table_as_select() {
    let stmts = vec![create_as(
        RelationKind::Table,
        "orders",
        select(vec![named("order_id"), aliased(Some("total"), "total", "amount")], Some(table("src", ""))),
    )];
    let ctx = SessionContext::from_stmts(&stmts);

    let tables: Vec<_> = ctx.tables().collect();
    assert_eq!(tables.len(), 1);
    let table = tables[0];
    assert_eq!(table.name, "orders");
    assert_eq!(table.columns.len(), 2);
    assert_eq!(table.columns[0].name, "order_id");
    assert_eq!(table.columns[1].name, "amount");
}

// CREATE TABLE slice (order_id INTEGER, status TEXT);
// CREATE TABLE orders AS SELECT * FROM slice;
#[test]
fn from_stmts_star_expands_from_earlier_table() {
    let stmts = vec![
        create(
            RelationKind::Table,
            "slice",
            vec![column("order_id", "INTEGER", vec![]), column("status", "TEXT", vec![])],
        ),
        create_as(RelationKind::Table, "orders", select(vec![star("")], Some(table("slice", "")))),
    ];
    let ctx = SessionContext::from_stmts(&stmts);

    let tables: Vec<_> = ctx.tables().collect();
    assert_eq!(tables.len(), 2);
    let orders = tables[1];
    assert_eq!(orders.name, "orders");
    assert_eq!(orders.columns.len(), 2);
    assert_eq!(orders.columns[0].name, "order_id");
    assert_eq!(orders.columns[1].name, "status");
}

// CREATE TABLE a (x INTEGER); CREATE TABLE b (y TEXT);
// CREATE TABLE c AS SELECT a.* FROM a JOIN b ON 1;
#[test]
fn from_stmts_qualified_star_expands_correct_table() {
    let stmts = vec![
        create(RelationKind::Table, "a", vec![column("x", "INTEGER", vec![])]),
        create(RelationKind::Table, "b", vec![column("y", "TEXT", vec![])]),
        create_as(RelationKind::Table, "c", select(vec![star("a")], Some(join(table("a", ""), table("b", ""))))),
    ];
    let ctx = SessionContext::from_stmts(&stmts);

    let tables: Vec<_> = ctx.tables().collect();
    let c = tables[2];
    assert_eq!(c.name, "c");
    assert_eq!(c.columns.len(), 1);
    assert_eq!(c.columns[0].name, "x");
}

// CREATE TABLE src (id INTEGER, val TEXT);
// CREATE TABLE dst AS SELECT t.* FROM src AS t;
#[test]
fn from_stmts_star_with_alias() {
    let stmts = vec![
        create(RelationKind::Table, "src", vec![column("id", "INTEGER", vec![]), column("val", "TEXT", vec![])]),
        create_as(RelationKind::Table, "dst", select(vec![star("t")], Some(table("src", "t")))),
    ];
    let ctx = SessionContext::from_stmts(&stmts);

    let tables: Vec<_> = ctx.tables().collect();
    let dst = tables[1];
    assert_eq!(dst.name, "dst");
    assert_eq!(dst.columns.len(), 2);
    assert_eq!(dst.columns[0].name, "id");
    assert_eq!(dst.columns[1].name, "val");
}

// CREATE TABLE slice (order_id INTEGER, customer_id TEXT);
// CREATE TABLE orders AS SELECT * FROM (SELECT * FROM slice);
#[test]
fn from_stmts_star_through_subquery() {
    let inner = select(vec![star("")], Some(table("slice", "")));
    let stmts = vec![
        create(
            RelationKind::Table,
            "slice",
            vec![column("order_id", "INTEGER", vec![]), column("customer_id", "TEXT", vec![])],
        ),
        create_as(
            RelationKind::Table,
            "orders",
            select(
                vec![star("")],
                Some(SourceSpec::Subquery { select: Some(Box::new(inner)), alias: String::new() }),
            ),
        ),
    ];
    let ctx = SessionContext::from_stmts(&stmts);

    let tables: Vec<_> = ctx.tables().collect();
    assert_eq!(tables.len(), 2);
    let orders = tables[1];
    assert_eq!(orders.name, "orders");
    assert_eq!(orders.columns.len(), 2);
    assert_eq!(orders.columns[0].name, "order_id");
    assert_eq!(orders.columns[1].name, "customer_id");
}

// CREATE VIEW active_users AS SELECT id, name FROM users WHERE active = 1;
#[test]
fn from_stmts_handles_views() {
    let stmts = vec![create_as(
        RelationKind::View,
        "active_users",
        select(vec![named("id"), named("name")], Some(table("users", ""))),
    )];
    let ctx = SessionContext::from_stmts(&stmts);

    assert_eq!(ctx.tables().count(), 0);
    let views: Vec<_> = ctx.views().collect();
    assert_eq!(views.len(), 1);
    assert_eq!(views[0].name, "active_users");
    assert_eq!(views[0].columns.len(), 2);
    assert_eq!(views[0].columns[0].name, "id");
    assert_eq!(views[0].columns[1].name, "name");
}

// CREATE TABLE users (id INTEGER PRIMARY KEY, name TEXT NOT NULL);
// CREATE VIEW all_users AS SELECT * FROM users;
#[test]
fn from_stmts_view_star_expands_from_table() {
    let stmts = vec![
        create(
            RelationKind::Table,
            "users",
            vec![
                column("id", "INTEGER", vec![ConstraintKind::PrimaryKey]),
                column("name", "TEXT", vec![ConstraintKind::NotNull]),
            ],
        ),
        create_as(RelationKind::View, "all_users", select(vec![star("")], Some(table("users", "")))),
    ];
    let ctx = SessionContext::from_stmts(&stmts);

    let views: Vec<_> = ctx.views().collect();
    assert_eq!(views.len(), 1);
    let view = views[0];
    assert_eq!(view.name, "all_users");
    assert_eq!(view.columns.len(), 2);
    assert_eq!(view.columns[0].name, "id");
    assert_eq!(view.columns[1].name, "name");
}

// ── Further cases ───────────────────────────────────────────────────────────

#[test]
fn star_expansion_drops_key_and_not_null() {
    let stmts = vec![
        create(
            RelationKind::Table,
            "users",
            vec![column("id", "INTEGER", vec![ConstraintKind::PrimaryKey])],
        ),
        create_as(RelationKind::Table, "copy", select(vec![star("")], Some(table("users", "")))),
    ];
    let ctx = SessionContext::from_stmts(&stmts);
    let copy = &ctx.relations[1];
    assert_eq!(copy.columns[0].name, "id");
    assert_eq!(copy.columns[0].declared_type.as_deref(), Some("INTEGER"));
    assert!(!copy.columns[0].is_primary_key);
    assert!(copy.columns[0].is_nullable);
}

#[test]
fn unnamed_columns_and_untyped_columns() {
    let stmts = vec![
        create(
            RelationKind::Table,
            "t",
            vec![column("", "INTEGER", vec![]), column("v", "", vec![ConstraintKind::Other])],
        ),
        create_as(RelationKind::View, "w", select(vec![expression("1 + 1"), aliased(None, "NULL", "n")], None)),
    ];
    let ctx = SessionContext::from_stmts(&stmts);
    let t = &ctx.relations[0];
    assert_eq!(names(t), vec!["v"]);
    assert_eq!(t.columns[0].declared_type, None);
    assert!(t.columns[0].is_nullable);
    // An expression without an alias is named by its source text.
    assert_eq!(names(&ctx.relations[1]), vec!["1 + 1", "n"]);
}

#[test]
fn star_of_an_unknown_table_yields_nothing() {
    let stmts = vec![create_as(RelationKind::Table, "t", select(vec![star(""), named("x")], Some(table("nowhere", ""))))];
    let ctx = SessionContext::from_stmts(&stmts);
    assert_eq!(names(&ctx.relations[0]), vec!["x"]);
}

#[test]
fn later_definition_replaces_an_earlier_one_for_expansion() {
    let stmts = vec![
        create(RelationKind::Table, "t", vec![column("a", "", vec![])]),
        create(RelationKind::Table, "T", vec![column("b", "", vec![]), column("c", "", vec![])]),
        create_as(RelationKind::View, "v", select(vec![star("")], Some(table("t", "")))),
    ];
    let ctx = SessionContext::from_stmts(&stmts);
    assert_eq!(names(&ctx.relations[2]), vec!["b", "c"]);
}

#[test]
fn compound_and_with_selects_take_their_first_select() {
    let left = select(vec![named("a"), named("b")], None);
    let compound = SelectSpec::Compound { left: Some(Box::new(left)) };
    let with = SelectSpec::With { select: Some(Box::new(compound)) };
    let stmts = vec![create_as(RelationKind::View, "v", with), create_as(RelationKind::View, "w", SelectSpec::Other)];
    let ctx = SessionContext::from_stmts(&stmts);
    assert_eq!(names(&ctx.relations[0]), vec!["a", "b"]);
    assert!(ctx.relations[1].columns.is_empty());
}

#[test]
fn functions_and_nameless_statements() {
    let stmts = vec![
        DefinitionSpec::Function { name: "f".to_string(), args: Some(2) },
        DefinitionSpec::Function { name: String::new(), args: None },
        DefinitionSpec::Relation { kind: RelationKind::Table, name: String::new(), columns: Some(vec![]), select: None },
        DefinitionSpec::Import { name: "m".to_string() },
        DefinitionSpec::Other,
    ];
    let ctx = SessionContext::from_stmts(&stmts);
    assert!(ctx.relations.is_empty());
    assert_eq!(ctx.functions.len(), 1);
    assert_eq!(ctx.functions[0].name, "f");
    assert_eq!(ctx.functions[0].args, Some(2));
}

#[test]
fn document_star_falls_back_to_the_session() {
    let session = SessionContext {
        relations: vec![RelationDef {
            name: "Live".to_string(),
            columns: vec![ColumnDef { name: "k".to_string(), declared_type: None, is_primary_key: true, is_nullable: false }],
            kind: RelationKind::Table,
        }],
        functions: vec![],
    };
    let mut doc = DocumentContext::new();
    doc.accumulate(&create_as(RelationKind::Table, "t", select(vec![star("")], Some(table("live", "")))), Some(&session));
    assert_eq!(names(&doc.relations[0]), vec!["k"]);
    assert!(doc.relations[0].columns[0].is_nullable);

    // A table of the document shadows the session's table of that name.
    doc.accumulate(&create(RelationKind::Table, "LIVE", vec![column("own", "", vec![])]), Some(&session));
    doc.accumulate(&create_as(RelationKind::Table, "u", select(vec![star("")], Some(table("live", "")))), Some(&session));
    assert_eq!(names(&doc.relations[2]), vec!["own"]);
}
