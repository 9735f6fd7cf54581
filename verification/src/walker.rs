//! The validation walk: every table, column and function a statement names
//! is checked against the scope stack, the ambient schema and the function
//! definitions. A document is validated statement by statement, each
//! statement seeing what the statements before it defined.

use vstd::prelude::*;

use crate::accumulate::{accumulated, session_view, DefinitionSpec};
use crate::ast::{
    children_ok, core_ok, ctes_ok, expr_ok, expr_opt_ok, exprs_ok, rows_ok, select_ok, select_opt_ok, source_ok, source_opt_ok,
    span_ok, stmt_ok, stmts_ok, table_ref_ok, with_ok, Child, Cte, Expr, Select, SelectCore, Stmt, TableRef, TableSource,
    WithClause,
};
use crate::dialect::Dialect;
use crate::diagnostics::{diagnostic_views, Diagnostic, DiagnosticMessage, DiagnosticView, Help, MessageView, Severity};
use crate::fuzzy::{lemma_suggestion_unique, suggestion, suggestion_for};
use crate::pass::{end_of, error_position_ok, error_span, parse_error_span};
use crate::relations::{relation_views, RelationDefView};
use crate::table::{assoc_insert, lookup};
use crate::text::{is_sorted_set, lemma_sorted_sets_equal, same_ignoring_case, sorted_names, unicode_lowercase, utf8};
use crate::tree::span_end;
use crate::validation::{
    ambient_columns, ambient_of, check_column_ref, check_function_call, check_table_ref, column_names, config_severity, defined_arities,
    defines, defines_arity, expand_function_info, expanded_all, first_with_columns, function_views, stack_columns, stack_keys, stack_qualified, stack_unqualified,
    suggested, suggestion_of, ColumnResolution, DocumentContext, FunctionDef, FunctionDefView, ScopeEntries, ScopeStack,
    SessionContext, ValidationConfig,
};

verus! {

// ── The model of the walk ────────────────────────────────────────────────────

/// What a walk consults: the ambient relations, the function definitions
/// and the configuration.
pub struct WalkEnv {
    pub ambient: Seq<RelationDefView>,
    pub functions: Seq<FunctionDefView>,
    pub config: ValidationConfig,
}

/// What a walk changes: the scope stack and the diagnostics emitted.
pub struct WalkState {
    pub frames: Seq<ScopeEntries>,
    pub diagnostics: Seq<DiagnosticView>,
}

/// The frames with a new innermost scope.
pub open spec fn frames_push(fs: Seq<ScopeEntries>) -> Seq<ScopeEntries> {
    fs.push(Seq::empty())
}

/// The frames without their innermost scope; the outermost one stays.
pub open spec fn frames_pop(fs: Seq<ScopeEntries>) -> Seq<ScopeEntries> {
    if fs.len() > 1 {
        fs.drop_last()
    } else {
        fs
    }
}

/// The frames with `name` (lowercased) registered in the innermost scope.
pub open spec fn frames_add(fs: Seq<ScopeEntries>, name: Seq<char>, columns: Option<Seq<Seq<char>>>) -> Seq<ScopeEntries> {
    fs.update(fs.len() - 1, assoc_insert(fs.last(), unicode_lowercase(name), columns))
}

/// Whether `name` resolves as a table in the frames or the ambient schema.
pub open spec fn frames_resolve_table(fs: Seq<ScopeEntries>, amb: Seq<RelationDefView>, name: Seq<char>) -> bool {
    (exists|i: int| 0 <= i < fs.len() && lookup(#[trigger] fs[i], unicode_lowercase(name)) is Some)
        || (exists|j: int| 0 <= j < amb.len() && same_ignoring_case((#[trigger] amb[j]).name, name))
}

/// How `table.column` or a bare `column` resolves.
pub open spec fn frames_resolution(
    fs: Seq<ScopeEntries>,
    amb: Seq<RelationDefView>,
    table: Option<Seq<char>>,
    column: Seq<char>,
) -> ColumnResolution {
    match table {
        Some(t) => stack_qualified(fs, fs.len() as int, unicode_lowercase(t), column),
        None => stack_unqualified(fs, amb, column),
    }
}

/// The table names offered as suggestions.
pub open spec fn table_names_of(fs: Seq<ScopeEntries>, amb: Seq<RelationDefView>) -> Seq<Seq<char>> {
    stack_keys(fs) + amb.map_values(|r: RelationDefView| unicode_lowercase(r.name))
}

/// The column names offered as suggestions.
pub open spec fn column_names_of(fs: Seq<ScopeEntries>, amb: Seq<RelationDefView>, table: Option<Seq<char>>) -> Seq<Seq<char>> {
    stack_columns(fs, table) + ambient_columns(amb, table)
}

/// What is suggested for `name` among the names of `input`.
pub open spec fn suggestion_among(name: Seq<char>, input: Seq<Seq<char>>, threshold: nat) -> Option<Seq<char>> {
    suggestion(name, sorted_names(input), threshold)
}

/// The state with one more diagnostic at the configured severity.
pub open spec fn with_diagnostic(
    env: WalkEnv,
    st: WalkState,
    start: usize,
    end: usize,
    message: MessageView,
    help: Option<Seq<char>>,
) -> WalkState {
    WalkState {
        diagnostics: st.diagnostics.push(
            DiagnosticView { start_offset: start, end_offset: end, message, severity: config_severity(env.config), help },
        ),
        ..st
    }
}

/// The state with other frames.
pub open spec fn with_frames(st: WalkState, fs: Seq<ScopeEntries>) -> WalkState {
    WalkState { frames: fs, ..st }
}

/// A table reference: unless its name is empty, it is reported when it
/// does not resolve, and then registered under its alias (or its name) with
/// the columns the ambient schema lists for it.
pub open spec fn table_ref_step(env: WalkEnv, st: WalkState, t: TableRef) -> WalkState {
    let name = t.name.text@;
    if name.len() == 0 {
        st
    } else {
        let st1 = if frames_resolve_table(st.frames, env.ambient, name) {
            st
        } else {
            with_diagnostic(
                env,
                st,
                t.name.offset,
                end_of(t.name),
                MessageView::UnknownTable { name },
                suggestion_among(name, table_names_of(st.frames, env.ambient), env.config.suggestion_threshold as nat),
            )
        };
        let scope_name = if t.alias@.len() == 0 {
            name
        } else {
            t.alias@
        };
        let columns = match first_with_columns(env.ambient, name) {
            Some(r) => Some(column_names(r)),
            None => None,
        };
        with_frames(st1, frames_add(st1.frames, scope_name, columns))
    }
}

/// An optional table reference.
pub open spec fn table_opt_step(env: WalkEnv, st: WalkState, t: Option<TableRef>) -> WalkState {
    match t {
        Some(r) => table_ref_step(env, st, r),
        None => st,
    }
}

/// A column reference: reported when its table is in scope without it, or
/// when no table has it.
pub open spec fn column_step(env: WalkEnv, st: WalkState, column: crate::tree::Span, table: Seq<char>) -> WalkState {
    let c = column.text@;
    if c.len() == 0 {
        st
    } else {
        let t = if table.len() == 0 {
            None
        } else {
            Some(table)
        };
        let threshold = env.config.suggestion_threshold as nat;
        match frames_resolution(st.frames, env.ambient, t, c) {
            ColumnResolution::Found => st,
            ColumnResolution::TableNotFound => st,
            ColumnResolution::TableFoundColumnMissing => with_diagnostic(
                env,
                st,
                column.offset,
                end_of(column),
                MessageView::UnknownColumn { column: c, table: t },
                suggestion_among(c, column_names_of(st.frames, env.ambient, t), threshold),
            ),
            ColumnResolution::NotFound => with_diagnostic(
                env,
                st,
                column.offset,
                end_of(column),
                MessageView::UnknownColumn { column: c, table: None },
                suggestion_among(c, column_names_of(st.frames, env.ambient, None), threshold),
            ),
        }
    }
}

/// A function call with `n` arguments: reported when no definition has the
/// name, or none accepts the count.
pub open spec fn call_step(env: WalkEnv, st: WalkState, name: crate::tree::Span, n: usize) -> WalkState {
    let f = name.text@;
    if f.len() == 0 {
        st
    } else if !defines(env.functions, f) {
        with_diagnostic(
            env,
            st,
            name.offset,
            end_of(name),
            MessageView::UnknownFunction { name: f },
            suggestion_among(
                f,
                env.functions.map_values(|d: FunctionDefView| d.name),
                env.config.suggestion_threshold as nat,
            ),
        )
    } else if defines_arity(env.functions, f, n) {
        st
    } else {
        with_diagnostic(
            env,
            st,
            name.offset,
            end_of(name),
            MessageView::FunctionArity { name: f, expected: defined_arities(env.functions, f), got: n },
            None,
        )
    }
}

/// The walk of a statement.
pub open spec fn walk_stmt(env: WalkEnv, st: WalkState, s: Stmt) -> WalkState
    decreases s,
{
    match s {
        Stmt::Select(c) => walk_core(env, st, c),
        Stmt::Compound { left, right } => walk_select_opt(env, walk_select_opt(env, st, left), right),
        Stmt::With(w) => walk_with(env, st, w),
        Stmt::Insert { table, source } => walk_select_opt(env, table_opt_step(env, st, table), source),
        Stmt::Update { table, from, values, where_clause } => walk_expr_opt(
            env,
            walk_exprs(env, walk_source_opt(env, table_opt_step(env, st, table), from), values@),
            where_clause,
        ),
        Stmt::Delete { table, where_clause } => walk_expr_opt(env, table_opt_step(env, st, table), where_clause),
        Stmt::CreateTable { select } => walk_select_opt(env, st, select),
        Stmt::CreateView { select } => walk_select_opt(env, st, select),
        Stmt::CreateTrigger { when, body } => {
            let fs = frames_add(frames_add(frames_push(st.frames), "OLD"@, None), "NEW"@, None);
            let st1 = walk_stmts(env, walk_expr_opt(env, with_frames(st, fs), when), body@);
            with_frames(st1, frames_pop(st1.frames))
        },
        Stmt::Other(cs) => walk_children(env, st, cs@),
        Stmt::Ignored => st,
    }
}

/// The walk of statements in order.
pub open spec fn walk_stmts(env: WalkEnv, st: WalkState, ss: Seq<Stmt>) -> WalkState
    decreases ss,
{
    if ss.len() == 0 {
        st
    } else {
        walk_stmt(env, walk_stmts(env, st, ss.drop_last()), ss.last())
    }
}

/// A simple SELECT: its FROM clause first, so that its tables are in scope
/// for its expressions.
pub open spec fn walk_core(env: WalkEnv, st: WalkState, c: SelectCore) -> WalkState
    decreases c,
{
    walk_exprs(env, walk_exprs(env, walk_source_opt(env, st, c.from), c.columns@), c.clauses@)
}

/// A WITH clause: its CTEs, then the query it scopes.
pub open spec fn walk_with(env: WalkEnv, st: WalkState, w: WithClause) -> WalkState
    decreases w,
{
    walk_select_opt(env, walk_ctes(env, st, w.recursive, w.ctes@), w.select)
}

/// The CTEs in order: each body in a scope of its own, each name then
/// registered as a table with unknown columns (a recursive CTE's name also
/// before its body).
pub open spec fn walk_ctes(env: WalkEnv, st: WalkState, recursive: bool, cs: Seq<Cte>) -> WalkState
    decreases cs,
{
    if cs.len() == 0 {
        st
    } else {
        let st0 = walk_ctes(env, st, recursive, cs.drop_last());
        let c = cs.last();
        let named = c.name@.len() > 0;
        let fs1 = if recursive && named {
            frames_add(st0.frames, c.name@, None)
        } else {
            st0.frames
        };
        let st2 = walk_select_opt(env, with_frames(st0, frames_push(fs1)), c.select);
        let fs3 = frames_pop(st2.frames);
        with_frames(
            st2,
            if named {
                frames_add(fs3, c.name@, None)
            } else {
                fs3
            },
        )
    }
}

/// The walk of a query.
pub open spec fn walk_select(env: WalkEnv, st: WalkState, s: Select) -> WalkState
    decreases s,
{
    match s {
        Select::Core(c) => walk_core(env, st, c),
        Select::Compound { left, right } => walk_select_opt(env, walk_select_opt(env, st, left), right),
        Select::With(w) => walk_with(env, st, w),
        Select::Values(rows) => walk_rows(env, st, rows@),
        Select::Other(cs) => walk_children(env, st, cs@),
    }
}

/// The walk of an optional query.
pub open spec fn walk_select_opt(env: WalkEnv, st: WalkState, o: Option<Box<Select>>) -> WalkState
    decreases o,
{
    match o {
        Some(s) => walk_select(env, st, *s),
        None => st,
    }
}

/// The rows of VALUES in order.
pub open spec fn walk_rows(env: WalkEnv, st: WalkState, rows: Seq<Vec<Expr>>) -> WalkState
    decreases rows,
{
    if rows.len() == 0 {
        st
    } else {
        walk_exprs(env, walk_rows(env, st, rows.drop_last()), rows.last()@)
    }
}

/// The walk of a FROM clause.
pub open spec fn walk_source(env: WalkEnv, st: WalkState, t: TableSource) -> WalkState
    decreases t,
{
    match t {
        TableSource::Table(r) => table_ref_step(env, st, r),
        TableSource::Subquery { select, alias } => {
            let st1 = walk_select_opt(env, with_frames(st, frames_push(st.frames)), select);
            let fs = frames_pop(st1.frames);
            with_frames(
                st1,
                if alias@.len() > 0 {
                    frames_add(fs, alias@, None)
                } else {
                    fs
                },
            )
        },
        TableSource::Join { left, right, on } => walk_expr_opt(env, walk_source_opt(env, walk_source_opt(env, st, left), right), on),
        TableSource::Prefix(s) => walk_source_opt(env, st, s),
        TableSource::Other(cs) => walk_children(env, st, cs@),
    }
}

/// The walk of an optional FROM clause.
pub open spec fn walk_source_opt(env: WalkEnv, st: WalkState, o: Option<Box<TableSource>>) -> WalkState
    decreases o,
{
    match o {
        Some(t) => walk_source(env, st, *t),
        None => st,
    }
}

/// The walk of an expression.
pub open spec fn walk_expr(env: WalkEnv, st: WalkState, e: Expr) -> WalkState
    decreases e,
{
    match e {
        Expr::ColumnRef { column, table } => column_step(env, st, column, table@),
        Expr::Call { name, args, filter } => {
            let st1 = match args {
                Some(a) => walk_exprs(env, call_step(env, st, name, a.len()), a@),
                None => call_step(env, st, name, 0),
            };
            walk_expr_opt(env, st1, filter)
        },
        Expr::Operands(es) => walk_exprs(env, st, es@),
        Expr::Subquery(s) => walk_subquery(env, st, s),
        Expr::Leaf => st,
        Expr::Other(cs) => walk_children(env, st, cs@),
    }
}

/// A subquery, in a scope of its own.
pub open spec fn walk_subquery(env: WalkEnv, st: WalkState, o: Option<Box<Select>>) -> WalkState
    decreases o,
{
    match o {
        Some(s) => {
            let st1 = walk_select(env, with_frames(st, frames_push(st.frames)), *s);
            with_frames(st1, frames_pop(st1.frames))
        },
        None => st,
    }
}

/// The walk of an optional expression.
pub open spec fn walk_expr_opt(env: WalkEnv, st: WalkState, o: Option<Box<Expr>>) -> WalkState
    decreases o,
{
    match o {
        Some(e) => walk_expr(env, st, *e),
        None => st,
    }
}

/// Expressions in order.
pub open spec fn walk_exprs(env: WalkEnv, st: WalkState, es: Seq<Expr>) -> WalkState
    decreases es,
{
    if es.len() == 0 {
        st
    } else {
        walk_expr(env, walk_exprs(env, st, es.drop_last()), es.last())
    }
}

/// The children of a node of another kind, in order.
pub open spec fn walk_children(env: WalkEnv, st: WalkState, cs: Seq<Child>) -> WalkState
    decreases cs,
{
    if cs.len() == 0 {
        st
    } else {
        let st0 = walk_children(env, st, cs.drop_last());
        match cs.last() {
            Child::Stmt(s) => walk_stmt(env, st0, s),
            Child::Expr(e) => walk_expr(env, st0, e),
        }
    }
}

// ── Lemmas ───────────────────────────────────────────────────────────────────

/// The help a check attaches is the suggestion among its input names.
proof fn lemma_suggested(help: Option<Help>, name: Seq<char>, input: Seq<Seq<char>>, threshold: nat)
    requires
        suggested(help, name, input, threshold),
    ensures
        suggestion_of(help) == suggestion_among(name, input, threshold),
{
    let c0 = choose|c: Seq<Seq<char>>| is_sorted_set(c, input) && suggestion_for(name, c, threshold, suggestion_of(help));
    let c1 = sorted_names(input);
    assert(is_sorted_set(c1, input));
    lemma_sorted_sets_equal(c0, c1, input);
    lemma_suggestion_unique(name, c0, threshold, suggestion_of(help));
}

proof fn lemma_exprs_ok_at(es: Seq<Expr>, i: int)
    requires
        exprs_ok(es),
        0 <= i < es.len(),
    ensures
        expr_ok(es[i]),
    decreases es.len(),
{
    if i < es.len() - 1 {
        lemma_exprs_ok_at(es.drop_last(), i);
    }
}

proof fn lemma_stmts_ok_at(ss: Seq<Stmt>, i: int)
    requires
        stmts_ok(ss),
        0 <= i < ss.len(),
    ensures
        stmt_ok(ss[i]),
    decreases ss.len(),
{
    if i < ss.len() - 1 {
        lemma_stmts_ok_at(ss.drop_last(), i);
    }
}

proof fn lemma_rows_ok_at(rows: Seq<Vec<Expr>>, i: int)
    requires
        rows_ok(rows),
        0 <= i < rows.len(),
    ensures
        exprs_ok(rows[i]@),
    decreases rows.len(),
{
    if i < rows.len() - 1 {
        lemma_rows_ok_at(rows.drop_last(), i);
    }
}

proof fn lemma_ctes_ok_at(cs: Seq<Cte>, i: int)
    requires
        ctes_ok(cs),
        0 <= i < cs.len(),
    ensures
        select_opt_ok(cs[i].select),
    decreases cs.len(),
{
    if i < cs.len() - 1 {
        lemma_ctes_ok_at(cs.drop_last(), i);
    }
}

proof fn lemma_children_ok_at(cs: Seq<Child>, i: int)
    requires
        children_ok(cs),
        0 <= i < cs.len(),
    ensures
        match cs[i] {
            Child::Stmt(s) => stmt_ok(s),
            Child::Expr(e) => expr_ok(e),
        },
    decreases cs.len(),
{
    if i < cs.len() - 1 {
        lemma_children_ok_at(cs.drop_last(), i);
    }
}

// ── The walker ───────────────────────────────────────────────────────────────

/// The walk of one statement: the function definitions calls are checked
/// against, the configuration, and the diagnostics emitted so far.
pub struct Walker<'a> {
    functions: &'a [FunctionDef],
    config: &'a ValidationConfig,
    diagnostics: Vec<Diagnostic>,
}

/// What the walk consults, read off a walker and its scope stack.
pub open spec fn env_of(w: Walker, scope: ScopeStack) -> WalkEnv {
    WalkEnv { ambient: scope.ambient(), functions: w.functions_view(), config: w.config_view() }
}

/// The walk's state, read off a walker and its scope stack.
pub open spec fn state_of(w: Walker, scope: ScopeStack) -> WalkState {
    WalkState { frames: scope.frames(), diagnostics: w.diagnostics_view() }
}

/// A step of the walk left the scope stack well formed over the same ambient
/// schema, kept what the walker consults, and reached `result`.
pub open spec fn walked(w0: Walker, s0: ScopeStack, w1: Walker, s1: ScopeStack, result: WalkState) -> bool {
    &&& s1.wf()
    &&& s1.ambient() == s0.ambient()
    &&& w1.functions_view() == w0.functions_view()
    &&& w1.config_view() == w0.config_view()
    &&& state_of(w1, s1) == result
}

impl<'a> Walker<'a> {
    /// The function definitions, as plain values.
    pub closed spec fn functions_view(&self) -> Seq<FunctionDefView> {
        function_views(self.functions@)
    }

    /// The configuration.
    pub closed spec fn config_view(&self) -> ValidationConfig {
        *self.config
    }

    /// The diagnostics emitted so far.
    pub closed spec fn diagnostics_view(&self) -> Seq<DiagnosticView> {
        diagnostic_views(self.diagnostics@)
    }

    /// Walk `stmt` with a fresh scope stack over `scope`'s ambient schema
    /// and return the diagnostics.
    pub fn run(stmt: &Stmt, scope: &mut ScopeStack, functions: &'a [FunctionDef], config: &'a ValidationConfig) -> (r: Vec<Diagnostic>)
        requires
            old(scope).wf(),
            stmt_ok(*stmt),
        ensures
            final(scope).wf(),
            final(scope).ambient() == old(scope).ambient(),
            final(scope).frames() == walk_stmt(
                WalkEnv { ambient: old(scope).ambient(), functions: function_views(functions@), config: *config },
                WalkState { frames: old(scope).frames(), diagnostics: Seq::empty() },
                *stmt,
            ).frames,
            diagnostic_views(r@) == walk_stmt(
                WalkEnv { ambient: old(scope).ambient(), functions: function_views(functions@), config: *config },
                WalkState { frames: old(scope).frames(), diagnostics: Seq::empty() },
                *stmt,
            ).diagnostics,
    {
        let mut walker = Walker { functions, config, diagnostics: Vec::new() };
        assert(diagnostic_views(walker.diagnostics@) =~= Seq::<DiagnosticView>::empty());
        walker.walk_stmt(stmt, scope);
        walker.diagnostics
    }

    fn emit(&mut self, d: Diagnostic)
        ensures
            final(self).functions_view() == old(self).functions_view(),
            final(self).config_view() == old(self).config_view(),
            final(self).diagnostics_view() == old(self).diagnostics_view().push(d@),
    {
        let ghost dv = d@;
        self.diagnostics.push(d);
        assert(diagnostic_views(self.diagnostics@) =~= diagnostic_views(old(self).diagnostics@).push(dv));
    }
}

impl<'a> Walker<'a> {
    /// See [`table_ref_step`].
    fn check_and_add_table_ref(&mut self, t: &TableRef, scope: &mut ScopeStack)
        requires
            old(scope).wf(),
            span_ok(t.name),
        ensures
            walked(*old(self), *old(scope), *final(self), *final(scope), table_ref_step(env_of(*old(self), *old(scope)), state_of(*old(self), *old(scope)), *t)),
    {
        let name = t.name.text.as_str();
        if name.is_empty() {
            return;
        }
        let ghost env = env_of(*self, *scope);
        let ghost st = state_of(*self, *scope);
        let offset = t.name.offset;
        let length = name.len();
        assert(offset + length == end_of(t.name));
        let ghost resolves = frames_resolve_table(st.frames, env.ambient, name@);
        assert(scope.resolves_table(name@) == resolves);
        match check_table_ref(name, offset, length, scope, self.config) {
            Some(d) => {
                proof {
                    lemma_suggested(d.help, name@, scope.table_name_input(), self.config.suggestion_threshold as nat);
                }
                assert(d@ == DiagnosticView {
                    start_offset: offset,
                    end_offset: end_of(t.name),
                    message: MessageView::UnknownTable { name: name@ },
                    severity: config_severity(env.config),
                    help: suggestion_among(name@, table_names_of(st.frames, env.ambient), env.config.suggestion_threshold as nat),
                });
                self.emit(d);
            },
            None => {},
        }
        let scope_name = if t.alias.as_str().is_empty() {
            name
        } else {
            t.alias.as_str()
        };
        let columns = scope.ambient_columns_for_table(name);
        scope.add_table(scope_name, columns);
    }

    fn table_opt(&mut self, t: &Option<TableRef>, scope: &mut ScopeStack)
        requires
            old(scope).wf(),
            table_ref_ok(*t),
        ensures
            walked(*old(self), *old(scope), *final(self), *final(scope), table_opt_step(env_of(*old(self), *old(scope)), state_of(*old(self), *old(scope)), *t)),
    {
        match t {
            Some(r) => self.check_and_add_table_ref(r, scope),
            None => {},
        }
    }

    /// See [`walk_stmt`].
    fn walk_stmt(&mut self, stmt: &Stmt, scope: &mut ScopeStack)
        requires
            old(scope).wf(),
            stmt_ok(*stmt),
        ensures
            walked(*old(self), *old(scope), *final(self), *final(scope), walk_stmt(env_of(*old(self), *old(scope)), state_of(*old(self), *old(scope)), *stmt)),
        decreases *stmt,
    {
        match stmt {
            Stmt::Select(c) => self.walk_select_stmt(c, scope),
            Stmt::Compound { left, right } => {
                self.walk_select_opt(left, scope);
                self.walk_select_opt(right, scope);
            },
            Stmt::With(w) => self.walk_with_clause(w, scope),
            Stmt::Insert { table, source } => {
                self.table_opt(table, scope);
                self.walk_select_opt(source, scope);
            },
            Stmt::Update { table, from, values, where_clause } => {
                self.table_opt(table, scope);
                self.walk_source_opt(from, scope);
                self.walk_exprs(values, scope);
                self.walk_expr_opt(where_clause, scope);
            },
            Stmt::Delete { table, where_clause } => {
                self.table_opt(table, scope);
                self.walk_expr_opt(where_clause, scope);
            },
            Stmt::CreateTable { select } => self.walk_select_opt(select, scope),
            Stmt::CreateView { select } => self.walk_select_opt(select, scope),
            Stmt::CreateTrigger { when, body } => {
                // OLD and NEW are pseudo-tables available in the body.
                scope.push();
                scope.add_table("OLD", None);
                scope.add_table("NEW", None);
                self.walk_expr_opt(when, scope);
                self.walk_stmts(body, scope);
                scope.pop();
            },
            Stmt::Other(cs) => self.walk_children(cs, scope),
            Stmt::Ignored => {},
        }
    }

    /// See [`walk_stmts`].
    fn walk_stmts(&mut self, ss: &Vec<Stmt>, scope: &mut ScopeStack)
        requires
            old(scope).wf(),
            stmts_ok(ss@),
        ensures
            walked(*old(self), *old(scope), *final(self), *final(scope), walk_stmts(env_of(*old(self), *old(scope)), state_of(*old(self), *old(scope)), ss@)),
        decreases *ss,
    {
        let ghost env = env_of(*self, *scope);
        let ghost st0 = state_of(*self, *scope);
        let ghost w0 = *self;
        let ghost s0 = *scope;
        let mut i: usize = 0;
        while i < ss.len()
            invariant
                0 <= i <= ss@.len(),
                stmts_ok(ss@),
                env == env_of(w0, s0),
                walked(w0, s0, *self, *scope, walk_stmts(env, st0, ss@.take(i as int))),
            decreases ss@.len() - i,
        {
            proof {
                lemma_stmts_ok_at(ss@, i as int);
            }
            assert(ss@.take(i + 1).drop_last() =~= ss@.take(i as int));
            assert(ss@.take(i + 1).last() == ss@[i as int]);
            self.walk_stmt(&ss[i], scope);
            i += 1;
        }
        assert(ss@.take(i as int) =~= ss@);
    }

    /// See [`walk_core`].
    fn walk_select_stmt(&mut self, c: &SelectCore, scope: &mut ScopeStack)
        requires
            old(scope).wf(),
            core_ok(*c),
        ensures
            walked(*old(self), *old(scope), *final(self), *final(scope), walk_core(env_of(*old(self), *old(scope)), state_of(*old(self), *old(scope)), *c)),
        decreases *c,
    {
        // FROM first: it populates the scope before column references are
        // checked.
        self.walk_source_opt(&c.from, scope);
        self.walk_exprs(&c.columns, scope);
        self.walk_exprs(&c.clauses, scope);
    }

    /// See [`walk_with`].
    fn walk_with_clause(&mut self, w: &WithClause, scope: &mut ScopeStack)
        requires
            old(scope).wf(),
            with_ok(*w),
        ensures
            walked(*old(self), *old(scope), *final(self), *final(scope), walk_with(env_of(*old(self), *old(scope)), state_of(*old(self), *old(scope)), *w)),
        decreases *w,
    {
        self.walk_ctes(w.recursive, &w.ctes, scope);
        self.walk_select_opt(&w.select, scope);
    }

    /// See [`walk_ctes`].
    fn walk_ctes(&mut self, recursive: bool, cs: &Vec<Cte>, scope: &mut ScopeStack)
        requires
            old(scope).wf(),
            ctes_ok(cs@),
        ensures
            walked(*old(self), *old(scope), *final(self), *final(scope), walk_ctes(env_of(*old(self), *old(scope)), state_of(*old(self), *old(scope)), recursive, cs@)),
        decreases *cs,
    {
        let ghost env = env_of(*self, *scope);
        let ghost st0 = state_of(*self, *scope);
        let ghost w0 = *self;
        let ghost s0 = *scope;
        let mut i: usize = 0;
        while i < cs.len()
            invariant
                0 <= i <= cs@.len(),
                ctes_ok(cs@),
                env == env_of(w0, s0),
                walked(w0, s0, *self, *scope, walk_ctes(env, st0, recursive, cs@.take(i as int))),
            decreases cs@.len() - i,
        {
            proof {
                lemma_ctes_ok_at(cs@, i as int);
            }
            assert(cs@.take(i + 1).drop_last() =~= cs@.take(i as int));
            assert(cs@.take(i + 1).last() == cs@[i as int]);
            let cte = &cs[i];
            let name = cte.name.as_str();
            if recursive && !name.is_empty() {
                scope.add_table(name, None);
            }
            scope.push();
            self.walk_select_opt(&cte.select, scope);
            scope.pop();
            if !name.is_empty() {
                scope.add_table(name, None);
            }
            i += 1;
        }
        assert(cs@.take(i as int) =~= cs@);
    }

    /// See [`walk_select`].
    fn walk_select(&mut self, sel: &Select, scope: &mut ScopeStack)
        requires
            old(scope).wf(),
            select_ok(*sel),
        ensures
            walked(*old(self), *old(scope), *final(self), *final(scope), walk_select(env_of(*old(self), *old(scope)), state_of(*old(self), *old(scope)), *sel)),
        decreases *sel,
    {
        match sel {
            Select::Core(c) => self.walk_select_stmt(c, scope),
            Select::Compound { left, right } => {
                self.walk_select_opt(left, scope);
                self.walk_select_opt(right, scope);
            },
            Select::With(w) => self.walk_with_clause(w, scope),
            Select::Values(rows) => self.walk_rows(rows, scope),
            Select::Other(cs) => self.walk_children(cs, scope),
        }
    }

    /// See [`walk_select_opt`].
    fn walk_select_opt(&mut self, o: &Option<Box<Select>>, scope: &mut ScopeStack)
        requires
            old(scope).wf(),
            select_opt_ok(*o),
        ensures
            walked(*old(self), *old(scope), *final(self), *final(scope), walk_select_opt(env_of(*old(self), *old(scope)), state_of(*old(self), *old(scope)), *o)),
        decreases *o,
    {
        match o {
            Some(s) => self.walk_select(s, scope),
            None => {},
        }
    }

    /// See [`walk_rows`].
    fn walk_rows(&mut self, rows: &Vec<Vec<Expr>>, scope: &mut ScopeStack)
        requires
            old(scope).wf(),
            rows_ok(rows@),
        ensures
            walked(*old(self), *old(scope), *final(self), *final(scope), walk_rows(env_of(*old(self), *old(scope)), state_of(*old(self), *old(scope)), rows@)),
        decreases *rows,
    {
        let ghost env = env_of(*self, *scope);
        let ghost st0 = state_of(*self, *scope);
        let ghost w0 = *self;
        let ghost s0 = *scope;
        let mut i: usize = 0;
        while i < rows.len()
            invariant
                0 <= i <= rows@.len(),
                rows_ok(rows@),
                env == env_of(w0, s0),
                walked(w0, s0, *self, *scope, walk_rows(env, st0, rows@.take(i as int))),
            decreases rows@.len() - i,
        {
            proof {
                lemma_rows_ok_at(rows@, i as int);
            }
            assert(rows@.take(i + 1).drop_last() =~= rows@.take(i as int));
            assert(rows@.take(i + 1).last() == rows@[i as int]);
            self.walk_exprs(&rows[i], scope);
            i += 1;
        }
        assert(rows@.take(i as int) =~= rows@);
    }

    /// See [`walk_source`].
    fn walk_table_source(&mut self, t: &TableSource, scope: &mut ScopeStack)
        requires
            old(scope).wf(),
            source_ok(*t),
        ensures
            walked(*old(self), *old(scope), *final(self), *final(scope), walk_source(env_of(*old(self), *old(scope)), state_of(*old(self), *old(scope)), *t)),
        decreases *t,
    {
        match t {
            TableSource::Table(r) => self.check_and_add_table_ref(r, scope),
            TableSource::Subquery { select, alias } => {
                scope.push();
                self.walk_select_opt(select, scope);
                scope.pop();
                if !alias.as_str().is_empty() {
                    scope.add_table(alias.as_str(), None);
                }
            },
            TableSource::Join { left, right, on } => {
                self.walk_source_opt(left, scope);
                self.walk_source_opt(right, scope);
                self.walk_expr_opt(on, scope);
            },
            TableSource::Prefix(s) => self.walk_source_opt(s, scope),
            TableSource::Other(cs) => self.walk_children(cs, scope),
        }
    }

    /// See [`walk_source_opt`].
    fn walk_source_opt(&mut self, o: &Option<Box<TableSource>>, scope: &mut ScopeStack)
        requires
            old(scope).wf(),
            source_opt_ok(*o),
        ensures
            walked(*old(self), *old(scope), *final(self), *final(scope), walk_source_opt(env_of(*old(self), *old(scope)), state_of(*old(self), *old(scope)), *o)),
        decreases *o,
    {
        match o {
            Some(t) => self.walk_table_source(t, scope),
            None => {},
        }
    }

    /// See [`column_step`].
    fn check_column(&mut self, column: &crate::tree::Span, table: &String, scope: &mut ScopeStack)
        requires
            old(scope).wf(),
            span_ok(*column),
        ensures
            walked(*old(self), *old(scope), *final(self), *final(scope), column_step(env_of(*old(self), *old(scope)), state_of(*old(self), *old(scope)), *column, table@)),
    {
        let c = column.text.as_str();
        if c.is_empty() {
            return;
        }
        let ghost env = env_of(*self, *scope);
        let ghost st = state_of(*self, *scope);
        let offset = column.offset;
        let length = c.len();
        assert(offset + length == end_of(*column));
        let table_opt: Option<&str> = if table.as_str().is_empty() {
            None
        } else {
            Some(table.as_str())
        };
        let ghost t = if table@.len() == 0 {
            None::<Seq<char>>
        } else {
            Some(table@)
        };
        assert(crate::catalog::opt_str_view(table_opt) == t);
        assert(scope.resolution(t, c@) == frames_resolution(st.frames, env.ambient, t, c@));
        match check_column_ref(table_opt, c, offset, length, scope, self.config) {
            Some(d) => {
                proof {
                    match frames_resolution(st.frames, env.ambient, t, c@) {
                        ColumnResolution::TableFoundColumnMissing => {
                            lemma_suggested(d.help, c@, scope.column_name_input(t), self.config.suggestion_threshold as nat);
                        },
                        _ => {
                            lemma_suggested(d.help, c@, scope.column_name_input(None), self.config.suggestion_threshold as nat);
                        },
                    }
                }
                self.emit(d);
            },
            None => {},
        }
    }

    /// See [`call_step`].
    fn check_call(&mut self, name: &crate::tree::Span, arg_count: usize, scope: &ScopeStack)
        requires
            scope.wf(),
            span_ok(*name),
        ensures
            walked(*old(self), *scope, *final(self), *scope, call_step(env_of(*old(self), *scope), state_of(*old(self), *scope), *name, arg_count)),
    {
        let ghost env = env_of(*self, *scope);
        let f = name.text.as_str();
        if f.is_empty() {
            return;
        }
        let offset = name.offset;
        let length = f.len();
        assert(offset + length == end_of(*name));
        assert(function_views(self.functions@) == env.functions);
        match check_function_call(f, arg_count, offset, length, self.functions, self.config) {
            Some(d) => {
                proof {
                    if !defines(env.functions, f@) {
                        lemma_suggested(
                            d.help,
                            f@,
                            env.functions.map_values(|x: FunctionDefView| x.name),
                            self.config.suggestion_threshold as nat,
                        );
                    }
                }
                self.emit(d);
            },
            None => {},
        }
    }

    /// See [`walk_expr`].
    fn walk_expr(&mut self, e: &Expr, scope: &mut ScopeStack)
        requires
            old(scope).wf(),
            expr_ok(*e),
        ensures
            walked(*old(self), *old(scope), *final(self), *final(scope), walk_expr(env_of(*old(self), *old(scope)), state_of(*old(self), *old(scope)), *e)),
        decreases *e,
    {
        match e {
            Expr::ColumnRef { column, table } => self.check_column(column, table, scope),
            Expr::Call { name, args, filter } => {
                let arg_count: usize = match args {
                    Some(a) => a.len(),
                    None => 0,
                };
                self.check_call(name, arg_count, scope);
                match args {
                    Some(a) => self.walk_exprs(a, scope),
                    None => {},
                }
                self.walk_expr_opt(filter, scope);
            },
            Expr::Operands(es) => self.walk_exprs(es, scope),
            Expr::Subquery(s) => self.walk_subquery(s, scope),
            Expr::Leaf => {},
            Expr::Other(cs) => self.walk_children(cs, scope),
        }
    }

    /// See [`walk_subquery`].
    fn walk_subquery(&mut self, o: &Option<Box<Select>>, scope: &mut ScopeStack)
        requires
            old(scope).wf(),
            select_opt_ok(*o),
        ensures
            walked(*old(self), *old(scope), *final(self), *final(scope), walk_subquery(env_of(*old(self), *old(scope)), state_of(*old(self), *old(scope)), *o)),
        decreases *o,
    {
        match o {
            Some(s) => {
                scope.push();
                self.walk_select(s, scope);
                scope.pop();
            },
            None => {},
        }
    }

    /// See [`walk_expr_opt`].
    fn walk_expr_opt(&mut self, o: &Option<Box<Expr>>, scope: &mut ScopeStack)
        requires
            old(scope).wf(),
            expr_opt_ok(*o),
        ensures
            walked(*old(self), *old(scope), *final(self), *final(scope), walk_expr_opt(env_of(*old(self), *old(scope)), state_of(*old(self), *old(scope)), *o)),
        decreases *o,
    {
        match o {
            Some(e) => self.walk_expr(e, scope),
            None => {},
        }
    }

    /// See [`walk_exprs`].
    fn walk_exprs(&mut self, es: &Vec<Expr>, scope: &mut ScopeStack)
        requires
            old(scope).wf(),
            exprs_ok(es@),
        ensures
            walked(*old(self), *old(scope), *final(self), *final(scope), walk_exprs(env_of(*old(self), *old(scope)), state_of(*old(self), *old(scope)), es@)),
        decreases *es,
    {
        let ghost env = env_of(*self, *scope);
        let ghost st0 = state_of(*self, *scope);
        let ghost w0 = *self;
        let ghost s0 = *scope;
        let mut i: usize = 0;
        while i < es.len()
            invariant
                0 <= i <= es@.len(),
                exprs_ok(es@),
                env == env_of(w0, s0),
                walked(w0, s0, *self, *scope, walk_exprs(env, st0, es@.take(i as int))),
            decreases es@.len() - i,
        {
            proof {
                lemma_exprs_ok_at(es@, i as int);
            }
            assert(es@.take(i + 1).drop_last() =~= es@.take(i as int));
            assert(es@.take(i + 1).last() == es@[i as int]);
            self.walk_expr(&es[i], scope);
            i += 1;
        }
        assert(es@.take(i as int) =~= es@);
    }

    /// See [`walk_children`].
    fn walk_children(&mut self, cs: &Vec<Child>, scope: &mut ScopeStack)
        requires
            old(scope).wf(),
            children_ok(cs@),
        ensures
            walked(*old(self), *old(scope), *final(self), *final(scope), walk_children(env_of(*old(self), *old(scope)), state_of(*old(self), *old(scope)), cs@)),
        decreases *cs,
    {
        let ghost env = env_of(*self, *scope);
        let ghost st0 = state_of(*self, *scope);
        let ghost w0 = *self;
        let ghost s0 = *scope;
        let mut i: usize = 0;
        while i < cs.len()
            invariant
                0 <= i <= cs@.len(),
                children_ok(cs@),
                env == env_of(w0, s0),
                walked(w0, s0, *self, *scope, walk_children(env, st0, cs@.take(i as int))),
            decreases cs@.len() - i,
        {
            proof {
                lemma_children_ok_at(cs@, i as int);
            }
            assert(cs@.take(i + 1).drop_last() =~= cs@.take(i as int));
            assert(cs@.take(i + 1).last() == cs@[i as int]);
            match &cs[i] {
                Child::Stmt(s) => self.walk_stmt(s, scope),
                Child::Expr(e) => self.walk_expr(e, scope),
            }
            i += 1;
        }
        assert(cs@.take(i as int) =~= cs@);
    }
}

// ── Statements and documents ─────────────────────────────────────────────────

/// A statement as the parser gives it: the tree the validation walks, and
/// what the statement defines.
#[derive(Debug)]
pub struct ParsedStatement {
    pub stmt: Stmt,
    pub definition: DefinitionSpec,
}

/// One result of parsing a document: a statement, or an error with its
/// message, position and the statement recovered from it, if any.
#[derive(Debug)]
pub enum ParseOutcome {
    Parsed(ParsedStatement),
    Failed { message: String, offset: Option<usize>, length: Option<usize>, root: Option<ParsedStatement> },
}

/// The diagnostics of a statement walked with one empty scope over an
/// ambient schema.
pub open spec fn statement_diagnostics(
    ambient: Seq<RelationDefView>,
    functions: Seq<FunctionDefView>,
    config: ValidationConfig,
    stmt: Stmt,
) -> Seq<DiagnosticView> {
    walk_stmt(
        WalkEnv { ambient, functions, config },
        WalkState { frames: seq![Seq::<(Seq<char>, Option<Seq<Seq<char>>>)>::empty()], diagnostics: Seq::empty() },
        stmt,
    ).diagnostics
}

/// The relations of an optional session.
pub open spec fn session_relations(session: Option<&SessionContext>) -> Seq<RelationDefView> {
    match session {
        Some(s) => relation_views(s.relations@),
        None => Seq::empty(),
    }
}

/// The diagnostics so far, and what the statements so far defined.
pub struct DocumentModel {
    pub diagnostics: Seq<DiagnosticView>,
    pub relations: Seq<RelationDefView>,
    pub functions: Seq<FunctionDefView>,
}

/// One more statement: it is validated against what the statements before
/// it defined (then the session), and then contributes its own definitions.
pub open spec fn document_step(
    m: DocumentModel,
    session: Option<&SessionContext>,
    functions: Seq<FunctionDefView>,
    config: ValidationConfig,
    p: ParsedStatement,
) -> DocumentModel {
    let defined = accumulated(m.relations, m.functions, p.definition, session_view(session));
    DocumentModel {
        diagnostics: m.diagnostics + statement_diagnostics(m.relations + session_relations(session), functions, config, p.stmt),
        relations: defined.0,
        functions: defined.1,
    }
}

/// A document's statements in order.
pub open spec fn document_walk(
    session: Option<&SessionContext>,
    functions: Seq<FunctionDefView>,
    config: ValidationConfig,
    ps: Seq<ParsedStatement>,
) -> DocumentModel
    decreases ps.len(),
{
    if ps.len() == 0 {
        DocumentModel { diagnostics: Seq::empty(), relations: Seq::empty(), functions: Seq::empty() }
    } else {
        document_step(document_walk(session, functions, config, ps.drop_last()), session, functions, config, ps.last())
    }
}

/// Every statement's spans end within a `usize`.
pub open spec fn statements_ok(ps: Seq<ParsedStatement>) -> bool {
    forall|i: int| 0 <= i < ps.len() ==> stmt_ok(#[trigger] ps[i].stmt)
}

/// Validate one statement against the scope stack's ambient schema:
/// `document` (definitions earlier in the document), then `session`.
pub fn validate_statement(
    stmt: &Stmt,
    session: Option<&SessionContext>,
    document: Option<&DocumentContext>,
    functions: &[FunctionDef],
    config: &ValidationConfig,
) -> (r: Vec<Diagnostic>)
    requires
        stmt_ok(*stmt),
    ensures
        diagnostic_views(r@) == statement_diagnostics(ambient_of(session, document), function_views(functions@), *config, *stmt),
{
    let mut scope = ScopeStack::new(session, document);
    Walker::run(stmt, &mut scope, functions, config)
}

/// The model of a document context and the diagnostics so far.
pub open spec fn document_model(diagnostics: Seq<Diagnostic>, doc: DocumentContext) -> DocumentModel {
    DocumentModel {
        diagnostics: diagnostic_views(diagnostics),
        relations: relation_views(doc.relations@),
        functions: function_views(doc.functions@),
    }
}

/// See [`document_step`].
fn validate_next(
    doc: &mut DocumentContext,
    all: &mut Vec<Diagnostic>,
    p: &ParsedStatement,
    session: Option<&SessionContext>,
    functions: &[FunctionDef],
    config: &ValidationConfig,
)
    requires
        stmt_ok(p.stmt),
    ensures
        document_model(final(all)@, *final(doc)) == document_step(
            document_model(old(all)@, *old(doc)),
            session,
            function_views(functions@),
            *config,
            *p,
        ),
{
    let mut diags = validate_statement(&p.stmt, session, Some(&*doc), functions, config);
    let ghost before = diagnostic_views(all@);
    let ghost added = diagnostic_views(diags@);
    all.append(&mut diags);
    assert(diagnostic_views(all@) =~= before + added);
    doc.accumulate(&p.definition, session);
}

/// Validate the statements of a document in order: each is validated
/// against the definitions of the statements before it, then the session.
pub fn validate_document(
    stmts: &Vec<ParsedStatement>,
    session: Option<&SessionContext>,
    functions: &[FunctionDef],
    config: &ValidationConfig,
) -> (r: Vec<Diagnostic>)
    requires
        statements_ok(stmts@),
    ensures
        diagnostic_views(r@) == document_walk(session, function_views(functions@), *config, stmts@).diagnostics,
{
    let mut doc = DocumentContext::new();
    let mut all: Vec<Diagnostic> = Vec::new();
    let ghost fs = function_views(functions@);
    assert(diagnostic_views(all@) =~= Seq::<DiagnosticView>::empty());
    assert(relation_views(doc.relations@) =~= Seq::<RelationDefView>::empty());
    assert(function_views(doc.functions@) =~= Seq::<FunctionDefView>::empty());
    assert(document_model(all@, doc) == document_walk(session, fs, *config, stmts@.take(0)));
    let mut i: usize = 0;
    while i < stmts.len()
        invariant
            0 <= i <= stmts@.len(),
            statements_ok(stmts@),
            fs == function_views(functions@),
            document_model(all@, doc) == document_walk(session, fs, *config, stmts@.take(i as int)),
        decreases stmts@.len() - i,
    {
        assert(stmt_ok(stmts@[i as int].stmt));
        assert(stmts@.take(i + 1).drop_last() =~= stmts@.take(i as int));
        assert(stmts@.take(i + 1).last() == stmts@[i as int]);
        validate_next(&mut doc, &mut all, &stmts[i], session, functions, config);
        i += 1;
    }
    assert(stmts@.take(i as int) =~= stmts@);
    all
}

// ── Parse results ────────────────────────────────────────────────────────────

/// The statements the parse results give, in order: each parsed statement,
/// and the statement recovered from an error where there is one.
pub open spec fn roots(results: Seq<ParseOutcome>) -> Seq<ParsedStatement>
    decreases results.len(),
{
    if results.len() == 0 {
        Seq::empty()
    } else {
        let prev = roots(results.drop_last());
        match results.last() {
            ParseOutcome::Parsed(p) => prev.push(p),
            ParseOutcome::Failed { root: Some(p), .. } => prev.push(p),
            ParseOutcome::Failed { root: None, .. } => prev,
        }
    }
}

/// The diagnostics of the parse errors, in order, for a source of `n` bytes.
pub open spec fn parse_error_views(results: Seq<ParseOutcome>, n: nat) -> Seq<DiagnosticView>
    decreases results.len(),
{
    if results.len() == 0 {
        Seq::empty()
    } else {
        let prev = parse_error_views(results.drop_last(), n);
        match results.last() {
            ParseOutcome::Parsed(_) => prev,
            ParseOutcome::Failed { message, offset, length, .. } => {
                let span = error_span(offset, length, n);
                prev.push(
                    DiagnosticView {
                        start_offset: span.0,
                        end_offset: span.1,
                        message: MessageView::Other(message@),
                        severity: Severity::Error,
                        help: None,
                    },
                )
            },
        }
    }
}

/// Every error has a usable position and every statement's spans end within
/// a `usize`.
pub open spec fn results_ok(results: Seq<ParseOutcome>, n: nat) -> bool {
    forall|i: int|
        0 <= i < results.len() ==> match #[trigger] results[i] {
            ParseOutcome::Parsed(p) => stmt_ok(p.stmt),
            ParseOutcome::Failed { offset, length, root, .. } => error_position_ok(offset, length, n) && match root {
                Some(p) => stmt_ok(p.stmt),
                None => true,
            },
        }
}

/// Validate the parse results of a document: first a diagnostic for each
/// parse error, then those of the statements parsed or recovered, validated
/// as a document.
pub fn validate_parse_results(
    results: &Vec<ParseOutcome>,
    source: &str,
    session: Option<&SessionContext>,
    functions: &[FunctionDef],
    config: &ValidationConfig,
) -> (r: Vec<Diagnostic>)
    requires
        results_ok(results@, source.len() as nat),
    ensures
        diagnostic_views(r@) == parse_error_views(results@, source.len() as nat) + document_walk(
            session,
            function_views(functions@),
            *config,
            roots(results@),
        ).diagnostics,
{
    let n = source.len();
    let mut diags: Vec<Diagnostic> = Vec::new();
    let mut i: usize = 0;
    assert(diagnostic_views(diags@) =~= parse_error_views(results@.take(0), n as nat));
    while i < results.len()
        invariant
            0 <= i <= results@.len(),
            n == source.len(),
            results_ok(results@, n as nat),
            diagnostic_views(diags@) == parse_error_views(results@.take(i as int), n as nat),
        decreases results@.len() - i,
    {
        assert(results@.take(i + 1).drop_last() =~= results@.take(i as int));
        assert(results@.take(i + 1).last() == results@[i as int]);
        match &results[i] {
            ParseOutcome::Parsed(_) => {},
            ParseOutcome::Failed { message, offset, length, .. } => {
                let (start_offset, end_offset) = parse_error_span(*offset, *length, n);
                let d = Diagnostic {
                    start_offset,
                    end_offset,
                    message: DiagnosticMessage::Other(message.clone()),
                    severity: Severity::Error,
                    help: None,
                };
                let ghost before = diagnostic_views(diags@);
                diags.push(d);
                assert(diagnostic_views(diags@) =~= before.push(d@));
            },
        }
        i += 1;
    }
    assert(results@.take(i as int) =~= results@);

    let mut doc = DocumentContext::new();
    let mut semantic: Vec<Diagnostic> = Vec::new();
    let ghost fs = function_views(functions@);
    assert(diagnostic_views(semantic@) =~= Seq::<DiagnosticView>::empty());
    assert(relation_views(doc.relations@) =~= Seq::<RelationDefView>::empty());
    assert(function_views(doc.functions@) =~= Seq::<FunctionDefView>::empty());
    assert(roots(results@.take(0)) =~= Seq::<ParsedStatement>::empty());
    let mut j: usize = 0;
    while j < results.len()
        invariant
            0 <= j <= results@.len(),
            n == source.len(),
            results_ok(results@, n as nat),
            fs == function_views(functions@),
            document_model(semantic@, doc) == document_walk(session, fs, *config, roots(results@.take(j as int))),
        decreases results@.len() - j,
    {
        assert(results@.take(j + 1).drop_last() =~= results@.take(j as int));
        assert(results@.take(j + 1).last() == results@[j as int]);
        let ghost prev = roots(results@.take(j as int));
        match &results[j] {
            ParseOutcome::Parsed(p) => {
                assert(prev.push(*p).drop_last() =~= prev);
                validate_next(&mut doc, &mut semantic, p, session, functions, config);
            },
            ParseOutcome::Failed { root, .. } => match root {
                Some(p) => {
                    assert(prev.push(*p).drop_last() =~= prev);
                    validate_next(&mut doc, &mut semantic, p, session, functions, config);
                },
                None => {},
            },
        }
        j += 1;
    }
    assert(results@.take(j as int) =~= results@);
    let ghost errors = diagnostic_views(diags@);
    let ghost sem = diagnostic_views(semantic@);
    diags.append(&mut semantic);
    assert(diagnostic_views(diags@) =~= errors + sem);
    diags
}

/// A reusable validator: the function definitions calls are checked
/// against.
pub struct Validator {
    functions: Vec<FunctionDef>,
}

impl Validator {
    /// The function definitions, as plain values.
    pub closed spec fn functions_view(&self) -> Seq<FunctionDefView> {
        function_views(self.functions@)
    }

    /// A validator for the built-in functions of `dialect`, one definition
    /// per accepted arity.
    pub fn new(dialect: &Dialect) -> (r: Self)
        ensures
            r.functions_view() == expanded_all(dialect.functions()),
    {
        let b = dialect.builtin_functions();
        let mut functions: Vec<FunctionDef> = Vec::new();
        let mut i: usize = 0;
        assert(function_views(functions@) =~= expanded_all(b@.take(0)));
        while i < b.len()
            invariant
                0 <= i <= b@.len(),
                b@ == dialect.functions(),
                function_views(functions@) == expanded_all(b@.take(i as int)),
            decreases b@.len() - i,
        {
            let mut e = expand_function_info(&b[i]);
            let ghost before = functions@;
            let ghost added = e@;
            functions.append(&mut e);
            assert(function_views(functions@) =~= function_views(before) + function_views(added));
            assert(b@.take(i + 1).drop_last() =~= b@.take(i as int));
            i += 1;
        }
        assert(b@.take(i as int) =~= b@);
        Validator { functions }
    }

    /// A validator checking calls against `functions`.
    pub fn with_config(functions: Vec<FunctionDef>) -> (r: Self)
        ensures
            r.functions_view() == function_views(functions@),
    {
        Validator { functions }
    }

    /// Validate a parsed document (see [`validate_parse_results`]).
    pub fn validate(&self, results: &Vec<ParseOutcome>, source: &str, session: Option<&SessionContext>, config: &ValidationConfig) -> (r: Vec<
        Diagnostic,
    >)
        requires
            results_ok(results@, source.len() as nat),
        ensures
            diagnostic_views(r@) == parse_error_views(results@, source.len() as nat) + document_walk(
                session,
                self.functions_view(),
                *config,
                roots(results@),
            ).diagnostics,
    {
        validate_parse_results(results, source, session, self.functions.as_slice(), config)
    }
}

// ── Severity ─────────────────────────────────────────────────────────────────

/// `after` keeps `before` and adds only diagnostics of severity `sev`.
pub open spec fn extends_with(before: Seq<DiagnosticView>, after: Seq<DiagnosticView>, sev: Severity) -> bool {
    &&& before.len() <= after.len()
    &&& forall|i: int| 0 <= i < before.len() ==> #[trigger] after[i] == before[i]
    &&& forall|i: int| before.len() <= i < after.len() ==> (#[trigger] after[i]).severity == sev
}

proof fn lemma_extends_trans(a: Seq<DiagnosticView>, b: Seq<DiagnosticView>, c: Seq<DiagnosticView>, sev: Severity)
    requires
        extends_with(a, b, sev),
        extends_with(b, c, sev),
    ensures
        extends_with(a, c, sev),
{
    assert forall|i: int| a.len() <= i < c.len() implies (#[trigger] c[i]).severity == sev by {
        if i < b.len() {
            assert(c[i] == b[i]);
        }
    }
}

proof fn lemma_sev_table(env: WalkEnv, st: WalkState, t: Option<TableRef>)
    ensures
        extends_with(st.diagnostics, table_opt_step(env, st, t).diagnostics, config_severity(env.config)),
{
}

proof fn lemma_sev_stmt(env: WalkEnv, st: WalkState, s: Stmt)
    ensures
        extends_with(st.diagnostics, walk_stmt(env, st, s).diagnostics, config_severity(env.config)),
    decreases s,
{
    let sev = config_severity(env.config);
    match s {
        Stmt::Select(c) => lemma_sev_core(env, st, c),
        Stmt::Compound { left, right } => {
            let st1 = walk_select_opt(env, st, left);
            lemma_sev_select_opt(env, st, left);
            lemma_sev_select_opt(env, st1, right);
            lemma_extends_trans(st.diagnostics, st1.diagnostics, walk_select_opt(env, st1, right).diagnostics, sev);
        },
        Stmt::With(w) => lemma_sev_with(env, st, w),
        Stmt::Insert { table, source } => {
            let st1 = table_opt_step(env, st, table);
            lemma_sev_table(env, st, table);
            lemma_sev_select_opt(env, st1, source);
            lemma_extends_trans(st.diagnostics, st1.diagnostics, walk_select_opt(env, st1, source).diagnostics, sev);
        },
        Stmt::Update { table, from, values, where_clause } => {
            let st1 = table_opt_step(env, st, table);
            let st2 = walk_source_opt(env, st1, from);
            let st3 = walk_exprs(env, st2, values@);
            lemma_sev_table(env, st, table);
            lemma_sev_source_opt(env, st1, from);
            lemma_sev_exprs(env, st2, values@);
            lemma_sev_expr_opt(env, st3, where_clause);
            lemma_extends_trans(st.diagnostics, st1.diagnostics, st2.diagnostics, sev);
            lemma_extends_trans(st.diagnostics, st2.diagnostics, st3.diagnostics, sev);
            lemma_extends_trans(st.diagnostics, st3.diagnostics, walk_expr_opt(env, st3, where_clause).diagnostics, sev);
        },
        Stmt::Delete { table, where_clause } => {
            let st1 = table_opt_step(env, st, table);
            lemma_sev_table(env, st, table);
            lemma_sev_expr_opt(env, st1, where_clause);
            lemma_extends_trans(st.diagnostics, st1.diagnostics, walk_expr_opt(env, st1, where_clause).diagnostics, sev);
        },
        Stmt::CreateTable { select } => lemma_sev_select_opt(env, st, select),
        Stmt::CreateView { select } => lemma_sev_select_opt(env, st, select),
        Stmt::CreateTrigger { when, body } => {
            let fs = frames_add(frames_add(frames_push(st.frames), "OLD"@, None), "NEW"@, None);
            let st0 = with_frames(st, fs);
            let st1 = walk_expr_opt(env, st0, when);
            lemma_sev_expr_opt(env, st0, when);
            lemma_sev_stmts(env, st1, body@);
            lemma_extends_trans(st.diagnostics, st1.diagnostics, walk_stmts(env, st1, body@).diagnostics, sev);
        },
        Stmt::Other(cs) => lemma_sev_children(env, st, cs@),
        Stmt::Ignored => {},
    }
}

proof fn lemma_sev_stmts(env: WalkEnv, st: WalkState, ss: Seq<Stmt>)
    ensures
        extends_with(st.diagnostics, walk_stmts(env, st, ss).diagnostics, config_severity(env.config)),
    decreases ss,
{
    if ss.len() > 0 {
        let st0 = walk_stmts(env, st, ss.drop_last());
        lemma_sev_stmts(env, st, ss.drop_last());
        lemma_sev_stmt(env, st0, ss.last());
        lemma_extends_trans(st.diagnostics, st0.diagnostics, walk_stmt(env, st0, ss.last()).diagnostics, config_severity(env.config));
    }
}

proof fn lemma_sev_core(env: WalkEnv, st: WalkState, c: SelectCore)
    ensures
        extends_with(st.diagnostics, walk_core(env, st, c).diagnostics, config_severity(env.config)),
    decreases c,
{
    let sev = config_severity(env.config);
    let st1 = walk_source_opt(env, st, c.from);
    let st2 = walk_exprs(env, st1, c.columns@);
    lemma_sev_source_opt(env, st, c.from);
    lemma_sev_exprs(env, st1, c.columns@);
    lemma_sev_exprs(env, st2, c.clauses@);
    lemma_extends_trans(st.diagnostics, st1.diagnostics, st2.diagnostics, sev);
    lemma_extends_trans(st.diagnostics, st2.diagnostics, walk_exprs(env, st2, c.clauses@).diagnostics, sev);
}

proof fn lemma_sev_with(env: WalkEnv, st: WalkState, w: WithClause)
    ensures
        extends_with(st.diagnostics, walk_with(env, st, w).diagnostics, config_severity(env.config)),
    decreases w,
{
    let st1 = walk_ctes(env, st, w.recursive, w.ctes@);
    lemma_sev_ctes(env, st, w.recursive, w.ctes@);
    lemma_sev_select_opt(env, st1, w.select);
    lemma_extends_trans(st.diagnostics, st1.diagnostics, walk_select_opt(env, st1, w.select).diagnostics, config_severity(env.config));
}

proof fn lemma_sev_ctes(env: WalkEnv, st: WalkState, recursive: bool, cs: Seq<Cte>)
    ensures
        extends_with(st.diagnostics, walk_ctes(env, st, recursive, cs).diagnostics, config_severity(env.config)),
    decreases cs,
{
    if cs.len() > 0 {
        let st0 = walk_ctes(env, st, recursive, cs.drop_last());
        lemma_sev_ctes(env, st, recursive, cs.drop_last());
        let c = cs.last();
        let fs1 = if recursive && c.name@.len() > 0 {
            frames_add(st0.frames, c.name@, None)
        } else {
            st0.frames
        };
        let st1 = with_frames(st0, frames_push(fs1));
        lemma_sev_select_opt(env, st1, c.select);
        lemma_extends_trans(st.diagnostics, st0.diagnostics, walk_select_opt(env, st1, c.select).diagnostics, config_severity(env.config));
    }
}

proof fn lemma_sev_select(env: WalkEnv, st: WalkState, s: Select)
    ensures
        extends_with(st.diagnostics, walk_select(env, st, s).diagnostics, config_severity(env.config)),
    decreases s,
{
    match s {
        Select::Core(c) => lemma_sev_core(env, st, c),
        Select::Compound { left, right } => {
            let st1 = walk_select_opt(env, st, left);
            lemma_sev_select_opt(env, st, left);
            lemma_sev_select_opt(env, st1, right);
            lemma_extends_trans(st.diagnostics, st1.diagnostics, walk_select_opt(env, st1, right).diagnostics, config_severity(env.config));
        },
        Select::With(w) => lemma_sev_with(env, st, w),
        Select::Values(rows) => lemma_sev_rows(env, st, rows@),
        Select::Other(cs) => lemma_sev_children(env, st, cs@),
    }
}

proof fn lemma_sev_select_opt(env: WalkEnv, st: WalkState, o: Option<Box<Select>>)
    ensures
        extends_with(st.diagnostics, walk_select_opt(env, st, o).diagnostics, config_severity(env.config)),
    decreases o,
{
    match o {
        Some(s) => lemma_sev_select(env, st, *s),
        None => {},
    }
}

proof fn lemma_sev_rows(env: WalkEnv, st: WalkState, rows: Seq<Vec<Expr>>)
    ensures
        extends_with(st.diagnostics, walk_rows(env, st, rows).diagnostics, config_severity(env.config)),
    decreases rows,
{
    if rows.len() > 0 {
        let st0 = walk_rows(env, st, rows.drop_last());
        lemma_sev_rows(env, st, rows.drop_last());
        lemma_sev_exprs(env, st0, rows.last()@);
        lemma_extends_trans(st.diagnostics, st0.diagnostics, walk_exprs(env, st0, rows.last()@).diagnostics, config_severity(env.config));
    }
}

proof fn lemma_sev_source(env: WalkEnv, st: WalkState, t: TableSource)
    ensures
        extends_with(st.diagnostics, walk_source(env, st, t).diagnostics, config_severity(env.config)),
    decreases t,
{
    let sev = config_severity(env.config);
    match t {
        TableSource::Table(r) => lemma_sev_table(env, st, Some(r)),
        TableSource::Subquery { select, alias } => lemma_sev_select_opt(env, with_frames(st, frames_push(st.frames)), select),
        TableSource::Join { left, right, on } => {
            let st1 = walk_source_opt(env, st, left);
            let st2 = walk_source_opt(env, st1, right);
            lemma_sev_source_opt(env, st, left);
            lemma_sev_source_opt(env, st1, right);
            lemma_sev_expr_opt(env, st2, on);
            lemma_extends_trans(st.diagnostics, st1.diagnostics, st2.diagnostics, sev);
            lemma_extends_trans(st.diagnostics, st2.diagnostics, walk_expr_opt(env, st2, on).diagnostics, sev);
        },
        TableSource::Prefix(s) => lemma_sev_source_opt(env, st, s),
        TableSource::Other(cs) => lemma_sev_children(env, st, cs@),
    }
}

proof fn lemma_sev_source_opt(env: WalkEnv, st: WalkState, o: Option<Box<TableSource>>)
    ensures
        extends_with(st.diagnostics, walk_source_opt(env, st, o).diagnostics, config_severity(env.config)),
    decreases o,
{
    match o {
        Some(t) => lemma_sev_source(env, st, *t),
        None => {},
    }
}

proof fn lemma_sev_expr(env: WalkEnv, st: WalkState, e: Expr)
    ensures
        extends_with(st.diagnostics, walk_expr(env, st, e).diagnostics, config_severity(env.config)),
    decreases e,
{
    let sev = config_severity(env.config);
    match e {
        Expr::ColumnRef { .. } => {},
        Expr::Call { name, args, filter } => {
            let st1 = match args {
                Some(a) => {
                    let st0 = call_step(env, st, name, a.len());
                    lemma_sev_exprs(env, st0, a@);
                    lemma_extends_trans(st.diagnostics, st0.diagnostics, walk_exprs(env, st0, a@).diagnostics, sev);
                    walk_exprs(env, st0, a@)
                },
                None => call_step(env, st, name, 0),
            };
            lemma_sev_expr_opt(env, st1, filter);
            lemma_extends_trans(st.diagnostics, st1.diagnostics, walk_expr_opt(env, st1, filter).diagnostics, sev);
        },
        Expr::Operands(es) => lemma_sev_exprs(env, st, es@),
        Expr::Subquery(s) => lemma_sev_subquery(env, st, s),
        Expr::Leaf => {},
        Expr::Other(cs) => lemma_sev_children(env, st, cs@),
    }
}

proof fn lemma_sev_subquery(env: WalkEnv, st: WalkState, o: Option<Box<Select>>)
    ensures
        extends_with(st.diagnostics, walk_subquery(env, st, o).diagnostics, config_severity(env.config)),
    decreases o,
{
    match o {
        Some(s) => lemma_sev_select(env, with_frames(st, frames_push(st.frames)), *s),
        None => {},
    }
}

proof fn lemma_sev_expr_opt(env: WalkEnv, st: WalkState, o: Option<Box<Expr>>)
    ensures
        extends_with(st.diagnostics, walk_expr_opt(env, st, o).diagnostics, config_severity(env.config)),
    decreases o,
{
    match o {
        Some(e) => lemma_sev_expr(env, st, *e),
        None => {},
    }
}

proof fn lemma_sev_exprs(env: WalkEnv, st: WalkState, es: Seq<Expr>)
    ensures
        extends_with(st.diagnostics, walk_exprs(env, st, es).diagnostics, config_severity(env.config)),
    decreases es,
{
    if es.len() > 0 {
        let st0 = walk_exprs(env, st, es.drop_last());
        lemma_sev_exprs(env, st, es.drop_last());
        lemma_sev_expr(env, st0, es.last());
        lemma_extends_trans(st.diagnostics, st0.diagnostics, walk_expr(env, st0, es.last()).diagnostics, config_severity(env.config));
    }
}

proof fn lemma_sev_children(env: WalkEnv, st: WalkState, cs: Seq<Child>)
    ensures
        extends_with(st.diagnostics, walk_children(env, st, cs).diagnostics, config_severity(env.config)),
    decreases cs,
{
    if cs.len() > 0 {
        let st0 = walk_children(env, st, cs.drop_last());
        lemma_sev_children(env, st, cs.drop_last());
        match cs.last() {
            Child::Stmt(s) => {
                lemma_sev_stmt(env, st0, s);
                lemma_extends_trans(st.diagnostics, st0.diagnostics, walk_stmt(env, st0, s).diagnostics, config_severity(env.config));
            },
            Child::Expr(e) => {
                lemma_sev_expr(env, st0, e);
                lemma_extends_trans(st.diagnostics, st0.diagnostics, walk_expr(env, st0, e).diagnostics, config_severity(env.config));
            },
        }
    }
}

proof fn lemma_document_severity(
    session: Option<&SessionContext>,
    functions: Seq<FunctionDefView>,
    config: ValidationConfig,
    ps: Seq<ParsedStatement>,
)
    ensures
        forall|i: int|
            0 <= i < document_walk(session, functions, config, ps).diagnostics.len() ==> (#[trigger] document_walk(
                session,
                functions,
                config,
                ps,
            ).diagnostics[i]).severity == config_severity(config),
    decreases ps.len(),
{
    if ps.len() > 0 {
        let m = document_walk(session, functions, config, ps.drop_last());
        lemma_document_severity(session, functions, config, ps.drop_last());
        let env = WalkEnv { ambient: m.relations + session_relations(session), functions, config };
        let st0 = WalkState { frames: seq![Seq::<(Seq<char>, Option<Seq<Seq<char>>>)>::empty()], diagnostics: Seq::empty() };
        lemma_sev_stmt(env, st0, ps.last().stmt);
        let added = statement_diagnostics(env.ambient, functions, config, ps.last().stmt);
        let all = document_walk(session, functions, config, ps).diagnostics;
        assert(all == m.diagnostics + added);
        assert forall|i: int| 0 <= i < all.len() implies (#[trigger] all[i]).severity == config_severity(config) by {
            if i >= m.diagnostics.len() {
                assert(all[i] == added[i - m.diagnostics.len()]);
            }
        }
    }
}

proof fn lemma_parse_errors_severity(results: Seq<ParseOutcome>, n: nat)
    ensures
        forall|i: int| 0 <= i < parse_error_views(results, n).len() ==> (#[trigger] parse_error_views(results, n)[i]).severity == Severity::Error,
    decreases results.len(),
{
    if results.len() > 0 {
        lemma_parse_errors_severity(results.drop_last(), n);
    }
}

/// Parse errors are always errors; every other diagnostic of a document is
/// an error when `strict_schema` is set and a warning otherwise.
pub proof fn law_diagnostic_severity(
    results: Seq<ParseOutcome>,
    n: nat,
    session: Option<&SessionContext>,
    functions: Seq<FunctionDefView>,
    config: ValidationConfig,
)
    ensures
        ({
            let errors = parse_error_views(results, n);
            let semantic = document_walk(session, functions, config, roots(results)).diagnostics;
            let all = errors + semantic;
            &&& forall|i: int| 0 <= i < errors.len() ==> (#[trigger] all[i]).severity == Severity::Error
            &&& forall|i: int| errors.len() <= i < all.len() ==> (#[trigger] all[i]).severity == if config.strict_schema {
                Severity::Error
            } else {
                Severity::Warning
            }
        }),
{
    let errors = parse_error_views(results, n);
    let semantic = document_walk(session, functions, config, roots(results)).diagnostics;
    let all = errors + semantic;
    lemma_parse_errors_severity(results, n);
    lemma_document_severity(session, functions, config, roots(results));
    assert forall|i: int| errors.len() <= i < all.len() implies (#[trigger] all[i]).severity == config_severity(config) by {
        assert(all[i] == semantic[i - errors.len()]);
    }
    assert forall|i: int| 0 <= i < errors.len() implies (#[trigger] all[i]).severity == Severity::Error by {
        assert(all[i] == errors[i]);
    }
}

/// A table or view defined by a statement of a document is known to the
/// statements after it: naming it (in any ASCII case) reports nothing.
pub proof fn law_defined_relation_resolves(
    m: DocumentModel,
    session: Option<&SessionContext>,
    functions: Seq<FunctionDefView>,
    config: ValidationConfig,
    p: ParsedStatement,
    st: WalkState,
    t: TableRef,
)
    requires
        p.definition matches DefinitionSpec::Relation { name, .. } && name@.len() > 0 && same_ignoring_case(name@, t.name.text@),
    ensures
        ({
            let m1 = document_step(m, session, functions, config, p);
            let env = WalkEnv { ambient: m1.relations + session_relations(session), functions, config };
            table_ref_step(env, st, t).diagnostics == st.diagnostics
        }),
{
    let m1 = document_step(m, session, functions, config, p);
    let amb = m1.relations + session_relations(session);
    let j = m.relations.len() as int;
    assert(amb[j] == m1.relations[j]);
    assert(same_ignoring_case(amb[j].name, t.name.text@));
    assert(frames_resolve_table(st.frames, amb, t.name.text@));
}

} // verus!
