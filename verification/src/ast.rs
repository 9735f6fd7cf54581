//! A parsed statement as the validation walk reads it: statements, queries,
//! FROM clauses and expressions, each with the names it holds and where
//! they stand in the source.

use vstd::prelude::*;

use crate::text::utf8;
use crate::tree::Span;

verus! {

/// A table named in a FROM clause or as the target of INSERT, UPDATE or
/// DELETE: its name and its alias (empty when none).
#[derive(Debug)]
pub struct TableRef {
    pub name: Span,
    pub alias: String,
}

/// An expression, by what the validation does with it.
#[derive(Debug)]
pub enum Expr {
    /// A column reference: the column and its qualifier (empty when none).
    ColumnRef { column: Span, table: String },
    /// A call of a plain, aggregate or ordered-set function: its name, its
    /// argument list (`None` when it has none) and its FILTER condition.
    Call { name: Span, args: Option<Vec<Expr>>, filter: Option<Box<Expr>> },
    /// An operator expression (binary, unary, IS, BETWEEN, IN, CASE, CAST,
    /// COLLATE, LIKE): its operands that are present, in source order.
    Operands(Vec<Expr>),
    /// A scalar subquery, `EXISTS (...)`, or the subquery of an IN.
    Subquery(Option<Box<Select>>),
    /// A literal, a bound parameter or RAISE.
    Leaf,
    /// A node of another kind: its children that are statements or
    /// expressions.
    Other(Vec<Child>),
}

/// A child of a node of another kind.
#[derive(Debug)]
pub enum Child {
    Stmt(Stmt),
    Expr(Expr),
}

/// A simple SELECT: its FROM clause, the expressions of its result columns
/// (a `*` has none), and its WHERE, GROUP BY, HAVING, ORDER BY, LIMIT and
/// OFFSET expressions that are present, in that order.
#[derive(Debug)]
pub struct SelectCore {
    pub from: Option<Box<TableSource>>,
    pub columns: Vec<Expr>,
    pub clauses: Vec<Expr>,
}

/// One common table expression: its name (empty when missing) and its body.
#[derive(Debug)]
pub struct Cte {
    pub name: String,
    pub select: Option<Box<Select>>,
}

/// A WITH clause: whether it is recursive, its CTEs and the query it scopes.
#[derive(Debug)]
pub struct WithClause {
    pub recursive: bool,
    pub ctes: Vec<Cte>,
    pub select: Option<Box<Select>>,
}

/// A query.
#[derive(Debug)]
pub enum Select {
    Core(SelectCore),
    Compound { left: Option<Box<Select>>, right: Option<Box<Select>> },
    With(WithClause),
    /// VALUES: its rows.
    Values(Vec<Vec<Expr>>),
    Other(Vec<Child>),
}

/// A FROM clause.
#[derive(Debug)]
pub enum TableSource {
    Table(TableRef),
    /// A subquery and its alias (empty when none).
    Subquery { select: Option<Box<Select>>, alias: String },
    /// A join: its two sides and its ON condition.
    Join { left: Option<Box<TableSource>>, right: Option<Box<TableSource>>, on: Option<Box<Expr>> },
    /// The first source of a join chain.
    Prefix(Option<Box<TableSource>>),
    Other(Vec<Child>),
}

/// A statement.
#[derive(Debug)]
pub enum Stmt {
    Select(SelectCore),
    Compound { left: Option<Box<Select>>, right: Option<Box<Select>> },
    With(WithClause),
    /// INSERT: its target and the query or VALUES it inserts.
    Insert { table: Option<TableRef>, source: Option<Box<Select>> },
    /// UPDATE: its target, its FROM clause, the values it assigns and its
    /// WHERE condition.
    Update { table: Option<TableRef>, from: Option<Box<TableSource>>, values: Vec<Expr>, where_clause: Option<Box<Expr>> },
    /// DELETE: its target and its WHERE condition.
    Delete { table: Option<TableRef>, where_clause: Option<Box<Expr>> },
    /// CREATE TABLE, with its `AS SELECT` body.
    CreateTable { select: Option<Box<Select>> },
    /// CREATE VIEW, with its body.
    CreateView { select: Option<Box<Select>> },
    /// CREATE TRIGGER: its WHEN condition and the statements of its body.
    CreateTrigger { when: Option<Box<Expr>>, body: Vec<Stmt> },
    Other(Vec<Child>),
    /// A statement the validation does not look into (such as PRAGMA).
    Ignored,
}

// ── Offsets that fit a machine word ─────────────────────────────────────────

/// The end of a span fits in a `usize`.
pub open spec fn span_ok(sp: Span) -> bool {
    sp.offset + utf8(sp.text@).len() <= usize::MAX
}

pub open spec fn table_ref_ok(t: Option<TableRef>) -> bool {
    match t {
        Some(r) => span_ok(r.name),
        None => true,
    }
}

/// Every span of a statement, at any depth, ends within a `usize`.
pub open spec fn stmt_ok(s: Stmt) -> bool
    decreases s,
{
    match s {
        Stmt::Select(c) => core_ok(c),
        Stmt::Compound { left, right } => select_opt_ok(left) && select_opt_ok(right),
        Stmt::With(w) => with_ok(w),
        Stmt::Insert { table, source } => table_ref_ok(table) && select_opt_ok(source),
        Stmt::Update { table, from, values, where_clause } => table_ref_ok(table) && source_opt_ok(from) && exprs_ok(values@)
            && expr_opt_ok(where_clause),
        Stmt::Delete { table, where_clause } => table_ref_ok(table) && expr_opt_ok(where_clause),
        Stmt::CreateTable { select } => select_opt_ok(select),
        Stmt::CreateView { select } => select_opt_ok(select),
        Stmt::CreateTrigger { when, body } => expr_opt_ok(when) && stmts_ok(body@),
        Stmt::Other(cs) => children_ok(cs@),
        Stmt::Ignored => true,
    }
}

pub open spec fn stmts_ok(ss: Seq<Stmt>) -> bool
    decreases ss,
{
    if ss.len() == 0 {
        true
    } else {
        stmts_ok(ss.drop_last()) && stmt_ok(ss.last())
    }
}

pub open spec fn core_ok(c: SelectCore) -> bool
    decreases c,
{
    source_opt_ok(c.from) && exprs_ok(c.columns@) && exprs_ok(c.clauses@)
}

pub open spec fn with_ok(w: WithClause) -> bool
    decreases w,
{
    ctes_ok(w.ctes@) && select_opt_ok(w.select)
}

pub open spec fn ctes_ok(cs: Seq<Cte>) -> bool
    decreases cs,
{
    if cs.len() == 0 {
        true
    } else {
        ctes_ok(cs.drop_last()) && select_opt_ok(cs.last().select)
    }
}

pub open spec fn select_ok(s: Select) -> bool
    decreases s,
{
    match s {
        Select::Core(c) => core_ok(c),
        Select::Compound { left, right } => select_opt_ok(left) && select_opt_ok(right),
        Select::With(w) => with_ok(w),
        Select::Values(rows) => rows_ok(rows@),
        Select::Other(cs) => children_ok(cs@),
    }
}

pub open spec fn select_opt_ok(o: Option<Box<Select>>) -> bool
    decreases o,
{
    match o {
        Some(s) => select_ok(*s),
        None => true,
    }
}

pub open spec fn rows_ok(rows: Seq<Vec<Expr>>) -> bool
    decreases rows,
{
    if rows.len() == 0 {
        true
    } else {
        rows_ok(rows.drop_last()) && exprs_ok(rows.last()@)
    }
}

pub open spec fn source_ok(t: TableSource) -> bool
    decreases t,
{
    match t {
        TableSource::Table(r) => span_ok(r.name),
        TableSource::Subquery { select, .. } => select_opt_ok(select),
        TableSource::Join { left, right, on } => source_opt_ok(left) && source_opt_ok(right) && expr_opt_ok(on),
        TableSource::Prefix(s) => source_opt_ok(s),
        TableSource::Other(cs) => children_ok(cs@),
    }
}

pub open spec fn source_opt_ok(o: Option<Box<TableSource>>) -> bool
    decreases o,
{
    match o {
        Some(t) => source_ok(*t),
        None => true,
    }
}

pub open spec fn expr_ok(e: Expr) -> bool
    decreases e,
{
    match e {
        Expr::ColumnRef { column, .. } => span_ok(column),
        Expr::Call { name, args, filter } => span_ok(name) && match args {
            Some(a) => exprs_ok(a@),
            None => true,
        } && expr_opt_ok(filter),
        Expr::Operands(es) => exprs_ok(es@),
        Expr::Subquery(s) => select_opt_ok(s),
        Expr::Leaf => true,
        Expr::Other(cs) => children_ok(cs@),
    }
}

pub open spec fn expr_opt_ok(o: Option<Box<Expr>>) -> bool
    decreases o,
{
    match o {
        Some(e) => expr_ok(*e),
        None => true,
    }
}

pub open spec fn exprs_ok(es: Seq<Expr>) -> bool
    decreases es,
{
    if es.len() == 0 {
        true
    } else {
        exprs_ok(es.drop_last()) && expr_ok(es.last())
    }
}

pub open spec fn children_ok(cs: Seq<Child>) -> bool
    decreases cs,
{
    if cs.len() == 0 {
        true
    } else {
        children_ok(cs.drop_last()) && match cs.last() {
            Child::Stmt(s) => stmt_ok(s),
            Child::Expr(e) => expr_ok(e),
        }
    }
}

} // verus!
