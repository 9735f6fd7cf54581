//! Validation of documents. Each statement is given as the tree the parser
//! makes of the SQL text shown beside it, with what the statement defines.

use syntaqlite::accumulate::{ColumnSpec, DefinitionSpec, ResultColumnSpec, SelectSpec, SourceSpec};
use syntaqlite::ast::{Cte, Expr, Select, SelectCore, Stmt, TableRef, TableSource, WithClause};
use syntaqlite::diagnostics::{Diagnostic, DiagnosticMessage, Help, Severity};
use syntaqlite::dialect::{BuiltinFunction, Dialect, DialectFunctionCategory};
use syntaqlite::relations::{ColumnDef, RelationDef, RelationKind};
use syntaqlite::tree::Span;
use syntaqlite::validation::{SessionContext, ValidationConfig};
use syntaqlite::walker::{validate_document, ParseOutcome, ParsedStatement, Validator};

// ── Building statements by hand ─────────────────────────────────────────────

/// The span of `text` inside the first occurrence of `anchor` in `src`.
fn sp(src: &str, anchor: &str, text: &str) -> Span {
    let a = src.find(anchor).expect("anchor occurs in source");
    let i = a + anchor.find(text).expect("text occurs in anchor");
    Span { offset: i, text: text.to_string() }
}

fn table(name: Span) -> TableSource {
    TableSource::Table(TableRef { name, alias: String::new() })
}

fn simple(from: Option<TableSource>, columns: Vec<Expr>, clauses: Vec<Expr>) -> SelectCore {
    SelectCore { from: from.map(Box::new), columns, clauses }
}

fn col(column: Span, table: &str) -> Expr {
    Expr::ColumnRef { column, table: table.to_string() }
}

fn call(name: Span, args: Vec<Expr>) -> Expr {
    Expr::Call { name, args: Some(args), filter: None }
}

fn parsed(stmt: Stmt, definition: DefinitionSpec) -> ParseOutcome {
    ParseOutcome::Parsed(ParsedStatement { stmt, definition })
}

fn star_spec() -> ResultColumnSpec {
    ResultColumnSpec { star: true, alias: String::new(), column_ref: None, text: String::new() }
}

fn select_star_spec(from: &str) -> SelectSpec {
    SelectSpec::Simple {
        from: Some(Box::new(SourceSpec::Table { name: from.to_string(), alias: String::new() })),
        columns: Some(vec![star_spec()]),
    }
}

fn defines_relation(kind: RelationKind, name: &str, select: SelectSpec) -> DefinitionSpec {
    DefinitionSpec::Relation { kind, name: name.to_string(), columns: None, select: Some(select) }
}

// ── Fixtures ────────────────────────────────────────────────────────────────

fn builtin(name: &str, arities: &[i16]) -> BuiltinFunction {
    BuiltinFunction { name: name.to_string(), category: DialectFunctionCategory::Scalar, arities: arities.to_vec() }
}

fn dialect() -> Dialect {
    Dialect::new(vec![builtin("abs", &[1]), builtin("round", &[1, 2]), builtin("count", &[0, 1])])
}

fn validate_sql(sql: &str, results: Vec<ParseOutcome>) -> Vec<Diagnostic> {
    Validator::new(&dialect()).validate(&results, sql, None, &ValidationConfig::default())
}

fn users_session() -> SessionContext {
    let column = |name: &str| ColumnDef { name: name.to_string(), declared_type: None, is_primary_key: false, is_nullable: true };
    SessionContext {
        relations: vec![RelationDef { name: "users".to_string(), columns: vec![column("id"), column("name")], kind: RelationKind::Table }],
        functions: vec![],
    }
}

// ── Statements with a body ──────────────────────────────────────────────────

/// `CREATE <kind> <name> AS SELECT * FROM <from>;` found in `sql` at `anchor`.
fn create_as_select_star(sql: &str, kind: RelationKind, name: &str, from: &str) -> ParseOutcome {
    let body = Select::Core(simple(Some(table(sp(sql, &format!("FROM {from}"), from))), vec![], vec![]));
    let stmt = match kind {
        RelationKind::Table => Stmt::CreateTable { select: Some(Box::new(body)) },
        RelationKind::View => Stmt::CreateView { select: Some(Box::new(body)) },
    };
    parsed(stmt, defines_relation(kind, name, select_star_spec(from)))
}

#[test]
fn create_table_as_select_unknown_table_warns() {
    let sql = "CREATE TABLE t AS SELECT * FROM nonexistent;";
    let diags = validate_sql(sql, vec![create_as_select_star(sql, RelationKind::Table, "t", "nonexistent")]);
    assert!(!diags.is_empty(), "expected a diagnostic for unknown table in CREATE TABLE AS SELECT");
}

#[test]
fn create_table_as_select_known_table_no_diags() {
    let sql = "CREATE TABLE src (id INTEGER);\nCREATE TABLE t AS SELECT * FROM src;";
    let src_def = DefinitionSpec::Relation {
        kind: RelationKind::Table,
        name: "src".to_string(),
        columns: Some(vec![ColumnSpec { name: "id".to_string(), declared_type: "INTEGER".to_string(), constraints: vec![] }]),
        select: None,
    };
    let results = vec![
        parsed(Stmt::CreateTable { select: None }, src_def),
        create_as_select_star(sql, RelationKind::Table, "t", "src"),
    ];
    let diags = validate_sql(sql, results);
    assert!(diags.is_empty(), "expected no diagnostics when source table is known: {:?}", diags);
}

#[test]
fn create_view_as_select_unknown_table_warns() {
    let sql = "CREATE VIEW v AS SELECT * FROM nonexistent;";
    let diags = validate_sql(sql, vec![create_as_select_star(sql, RelationKind::View, "v", "nonexistent")]);
    assert!(!diags.is_empty(), "expected a diagnostic for unknown table in CREATE VIEW AS SELECT");
}

#[test]
fn create_trigger_body_unknown_table_warns() {
    let sql = "CREATE TRIGGER trg AFTER INSERT ON t BEGIN SELECT * FROM nonexistent; END;";
    let body = Stmt::Select(simple(Some(table(sp(sql, "nonexistent", "nonexistent"))), vec![], vec![]));
    let trigger = Stmt::CreateTrigger { when: None, body: vec![body] };
    let diags = validate_sql(sql, vec![parsed(trigger, DefinitionSpec::Other)]);
    assert!(!diags.is_empty(), "expected a diagnostic for unknown table in trigger body");
}

#[test]
fn create_table_as_select_literal_column_mismatch_warns() {
    let sql = "CREATE TABLE slice AS SELECT 2;\nSELECT slice.\"1\" FROM slice;";
    let body = Select::Core(simple(None, vec![Expr::Leaf], vec![]));
    let slice_def = defines_relation(
        RelationKind::Table,
        "slice",
        SelectSpec::Simple {
            from: None,
            columns: Some(vec![ResultColumnSpec { star: false, alias: String::new(), column_ref: None, text: "2".to_string() }]),
        },
    );
    let one = Span { offset: sql.find("\"1\"").unwrap() + 1, text: "1".to_string() };
    let query = Stmt::Select(simple(Some(table(sp(sql, "FROM slice", "slice"))), vec![col(one, "slice")], vec![]));
    let stmts = vec![
        ParsedStatement { stmt: Stmt::CreateTable { select: Some(Box::new(body)) }, definition: slice_def },
        ParsedStatement { stmt: query, definition: DefinitionSpec::Other },
    ];
    let diags = validate_document(&stmts, None, &[], &ValidationConfig::default());
    let col_diags: Vec<_> = diags.iter().filter(|d| d.message.to_display_string().contains("column")).collect();
    assert!(!col_diags.is_empty(), "expected a diagnostic for unknown column '1' in table 'slice'");
}

#[test]
fn create_trigger_body_old_new_no_diags() {
    let sql = "CREATE TRIGGER trg AFTER UPDATE ON t BEGIN SELECT NEW.x, OLD.y FROM t; END;";
    let body = Stmt::Select(simple(
        Some(table(sp(sql, "FROM t", "t"))),
        vec![col(sp(sql, "NEW.x", "x"), "NEW"), col(sp(sql, "OLD.y", "y"), "OLD")],
        vec![],
    ));
    let trigger = Stmt::CreateTrigger { when: None, body: vec![body] };
    let diags = validate_sql(sql, vec![parsed(trigger, DefinitionSpec::Other)]);
    let old_new_diags: Vec<_> = diags
        .iter()
        .filter(|d| {
            let s = d.message.to_display_string();
            s.contains("OLD") || s.contains("NEW")
        })
        .collect();
    assert!(old_new_diags.is_empty(), "OLD/NEW should not produce diagnostics: {old_new_diags:?}");
}

// ── Names against the session ───────────────────────────────────────────────

fn validate_with_session(sql: &str, stmt: Stmt, config: &ValidationConfig) -> Vec<Diagnostic> {
    let session = users_session();
    Validator::new(&dialect()).validate(&vec![parsed(stmt, DefinitionSpec::Other)], sql, Some(&session), config)
}

#[test]
fn walk_reports_unknown_column_with_a_suggestion() {
    let sql = "SELECT nme FROM users";
    let stmt = Stmt::Select(simple(Some(table(sp(sql, "users", "users"))), vec![col(sp(sql, "nme", "nme"), "")], vec![]));
    let diags = validate_with_session(sql, stmt, &ValidationConfig::default());
    assert_eq!(diags.len(), 1);
    let d = &diags[0];
    assert!(matches!(&d.message, DiagnosticMessage::UnknownColumn { column, table: None } if column == "nme"));
    assert!(matches!(&d.help, Some(Help::Suggestion(s)) if s == "name"));
    assert_eq!((d.start_offset, d.end_offset), (7, 10));
    assert_eq!(d.severity, Severity::Warning);
}

#[test]
fn qualified_column_missing_from_its_table_names_the_table() {
    let sql = "SELECT users.email FROM users";
    let stmt = Stmt::Select(simple(
        Some(table(sp(sql, "FROM users", "users"))),
        vec![col(sp(sql, "email", "email"), "users")],
        vec![],
    ));
    let diags = validate_with_session(sql, stmt, &ValidationConfig { strict_schema: true, suggestion_threshold: 2 });
    assert_eq!(diags.len(), 1);
    assert!(matches!(&diags[0].message, DiagnosticMessage::UnknownColumn { column, table: Some(t) } if column == "email" && t == "users"));
    assert_eq!(diags[0].severity, Severity::Error);
}

#[test]
fn unknown_table_is_reported_and_its_columns_are_not() {
    let sql = "DELETE FROM usres WHERE anything = 1";
    let target = TableRef { name: sp(sql, "usres", "usres"), alias: String::new() };
    let cond = Expr::Operands(vec![col(sp(sql, "anything", "anything"), ""), Expr::Leaf]);
    let stmt = Stmt::Delete { table: Some(target), where_clause: Some(Box::new(cond)) };
    let diags = validate_with_session(sql, stmt, &ValidationConfig::default());
    assert_eq!(diags.len(), 1, "{diags:?}");
    assert!(matches!(&diags[0].message, DiagnosticMessage::UnknownTable { name } if name == "usres"));
    assert!(matches!(&diags[0].help, Some(Help::Suggestion(s)) if s == "users"));
    assert_eq!((diags[0].start_offset, diags[0].end_offset), (12, 17));
}

#[test]
fn calls_are_checked_against_the_functions() {
    let sql = "SELECT round(1, 2, 3), rond(1), abs(1)";
    let args = |n: usize| (0..n).map(|_| Expr::Leaf).collect::<Vec<_>>();
    let stmt = Stmt::Select(simple(
        None,
        vec![
            call(sp(sql, "round", "round"), args(3)),
            call(sp(sql, "rond", "rond"), args(1)),
            call(sp(sql, "abs", "abs"), args(1)),
        ],
        vec![],
    ));
    let diags = validate_with_session(sql, stmt, &ValidationConfig::default());
    assert_eq!(diags.len(), 2, "{diags:?}");
    assert!(matches!(&diags[0].message, DiagnosticMessage::FunctionArity { name, expected, got: 3 } if name == "round" && *expected == vec![1, 2]));
    assert!(diags[0].help.is_none());
    assert!(matches!(&diags[1].message, DiagnosticMessage::UnknownFunction { name } if name == "rond"));
    assert!(matches!(&diags[1].help, Some(Help::Suggestion(s)) if s == "round"));
}

#[test]
fn subquery_alias_accepts_any_column() {
    let sql = "SELECT s.anything FROM (SELECT 1) AS s";
    let sub = Select::Core(simple(None, vec![Expr::Leaf], vec![]));
    let from = TableSource::Subquery { select: Some(Box::new(sub)), alias: "s".to_string() };
    let stmt = Stmt::Select(simple(Some(from), vec![col(sp(sql, "anything", "anything"), "s")], vec![]));
    let diags = validate_with_session(sql, stmt, &ValidationConfig::default());
    assert!(diags.is_empty(), "{diags:?}");
}

#[test]
fn only_a_recursive_cte_sees_its_own_name() {
    let with = |sql: &str, recursive: bool| {
        let inner = Select::Core(simple(Some(table(sp(sql, "FROM c)", "c"))), vec![], vec![]));
        let outer = Select::Core(simple(Some(table(sp(sql, "FROM c;", "c"))), vec![], vec![]));
        Stmt::With(WithClause {
            recursive,
            ctes: vec![Cte { name: "c".to_string(), select: Some(Box::new(inner)) }],
            select: Some(Box::new(outer)),
        })
    };
    let rec = "WITH RECURSIVE c AS (SELECT * FROM c) SELECT * FROM c;";
    assert!(validate_with_session(rec, with(rec, true), &ValidationConfig::default()).is_empty());
    let plain = "WITH c AS (SELECT * FROM c) SELECT * FROM c;";
    let diags = validate_with_session(plain, with(plain, false), &ValidationConfig::default());
    assert_eq!(diags.len(), 1, "{diags:?}");
    assert_eq!(diags[0].start_offset, plain.find("FROM c)").unwrap() + 5);
}

#[test]
fn parse_errors_come_first() {
    let sql = "SELEC 1; SELECT * FROM missing";
    let query = Stmt::Select(simple(Some(table(sp(sql, "missing", "missing"))), vec![], vec![]));
    let results = vec![
        ParseOutcome::Failed { message: "syntax error".to_string(), offset: Some(0), length: Some(5), root: None },
        parsed(query, DefinitionSpec::Other),
    ];
    let diags = validate_sql(sql, results);
    assert_eq!(diags.len(), 2);
    assert!(matches!(&diags[0].message, DiagnosticMessage::Other(m) if m == "syntax error"));
    assert_eq!((diags[0].start_offset, diags[0].end_offset), (0, 5));
    assert_eq!(diags[0].severity, Severity::Error);
    assert!(matches!(&diags[1].message, DiagnosticMessage::UnknownTable { name } if name == "missing"));
    assert_eq!(diags[1].severity, Severity::Warning);
}

#[test]
fn statements_recovered_from_errors_are_validated() {
    let sql = "SELECT * FROM missing WHERE";
    let query = Stmt::Select(simple(Some(table(sp(sql, "missing", "missing"))), vec![], vec![]));
    let results = vec![ParseOutcome::Failed {
        message: "incomplete input".to_string(),
        offset: None,
        length: None,
        root: Some(ParsedStatement { stmt: query, definition: DefinitionSpec::Other }),
    }];
    let diags = validate_sql(sql, results);
    assert_eq!(diags.len(), 2);
    assert_eq!((diags[0].start_offset, diags[0].end_offset), (sql.len() - 1, sql.len()));
    assert!(matches!(&diags[1].message, DiagnosticMessage::UnknownTable { .. }));
}

#[test]
fn later_statements_see_earlier_definitions() {
    let sql = "SELECT x FROM t; CREATE TABLE t (x); SELECT y FROM t;";
    let first = Stmt::Select(simple(Some(table(sp(sql, "FROM t", "t"))), vec![col(sp(sql, "x FROM", "x"), "")], vec![]));
    let def = DefinitionSpec::Relation {
        kind: RelationKind::Table,
        name: "t".to_string(),
        columns: Some(vec![ColumnSpec { name: "x".to_string(), declared_type: String::new(), constraints: vec![] }]),
        select: None,
    };
    let last_from = sql.rfind("FROM t").unwrap() + 5;
    let last = Stmt::Select(simple(
        Some(table(Span { offset: last_from, text: "t".to_string() })),
        vec![col(sp(sql, "y", "y"), "")],
        vec![],
    ));
    let stmts = vec![
        ParsedStatement { stmt: first, definition: DefinitionSpec::Other },
        ParsedStatement { stmt: Stmt::Ignored, definition: def },
        ParsedStatement { stmt: last, definition: DefinitionSpec::Other },
    ];
    let diags = validate_document(&stmts, None, &[], &ValidationConfig::default());
    assert_eq!(diags.len(), 2, "{diags:?}");
    assert!(matches!(&diags[0].message, DiagnosticMessage::UnknownTable { name } if name == "t"));
    assert!(matches!(&diags[1].message, DiagnosticMessage::UnknownColumn { column, .. } if column == "y"));
}
