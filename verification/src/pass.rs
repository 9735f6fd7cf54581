//! The validation pass: one walk over a parsed statement that checks every
//! table, column and function reference against the catalog and the query
//! scope, records what resolved, and notes where names are defined.

use vstd::prelude::*;

use crate::analyzer::{
    frame_sources, law_registered_table_answers_qualified, law_unknown_columns_block_outer_frames, law_accepting_source_resolves_unqualified,
    ActiveView, format_arity, QueryScope, arity_signature, scope_column_names_from, scope_pop, scope_push, scope_qualified, scope_unqualified,
    scope_with_anonymous, scope_with_table, FrameModel, RowIdPolicy,
};
use crate::catalog::{
    accepts, catalog_pop, catalog_push, catalog_with_query_table, fixed_arities, function_names_in_search_order,
    overload_arities, relation_names, relations_in_search_order, table_function_names_in_search_order,
    table_source_columns, table_source_without_rowid, top_function, top_relation, top_table_function,
    FunctionCategory, FunctionSetView, LayerModel, ResolutionView, Catalog, ColumnResolution, FunctionCheckResult,
    columns_view, lemma_fixed_arities_unique, opt_str_view, layer_wf, law_registered_relation_resolves, has_column,
};
use crate::config::{level_severity, message_level, with_all_spec, CheckLevel, ValidationConfig, ValidationSettings};
use crate::diagnostics::{diagnostic_views, Diagnostic, DiagnosticMessage, DiagnosticView, Help, MessageView};
use crate::fuzzy::{best_suggestion, lemma_suggestion_unique, suggestion};
use crate::model::{resolution_views, DefinitionLocation, Resolution, ResolutionAt, ResolvedSymbol, SymbolView};
use crate::table::{assoc_insert, copy_strings, keys_unique, last_index_of, lemma_assoc_insert, lemma_last_index_of, lookup, NameTable};
use crate::text::{
    ascii_lowercase, eq_ignore_ascii_case, key_summary, lemma_key_summary_unique, lower_chars, same_ignoring_case, string_views,
    utf8,
};
use crate::tree::{
    alias_spans, body_aliases, body_column_count, columns_from_select, lemma_nodes_fit_at, lemma_spans_fit_at, named_spans,
    node_fits, nodes_fit, opt_fits, opt_select_columns, result_aliases, result_count, span_end, span_fits, span_texts, spans_fit, Node,
    Span, ParseItem,
};
use crate::ddl::{ddl_catalog, ddl_layer, ddl_name_site};

verus! {

// ── The state of a pass, as plain values ─────────────────────────────────────

/// What a pass has built so far.
pub struct PassModel {
    /// The catalog layers, with the query scopes the walk has opened.
    pub catalog: Seq<LayerModel>,
    /// The frames of active FROM sources.
    pub scope: Seq<FrameModel>,
    /// The diagnostics emitted, in order.
    pub diagnostics: Seq<DiagnosticView>,
    /// The references that resolved, in order.
    pub resolutions: Seq<ResolutionAt>,
    /// Definition sites keyed by lowercase name or `table.column`.
    pub definitions: Seq<(Seq<char>, (usize, usize))>,
}

/// Byte offset just past a span, as a machine integer.
pub open spec fn end_of(sp: Span) -> usize {
    span_end(sp) as usize
}

/// The state after emitting a diagnostic, unless its category is allowed.
pub open spec fn emitted(
    st: PassModel,
    cfg: ValidationSettings,
    start: usize,
    end: usize,
    m: MessageView,
    help: Option<Seq<char>>,
) -> PassModel {
    match level_severity(message_level(cfg.checks, m)) {
        Some(sev) => PassModel {
            diagnostics: st.diagnostics.push(
                DiagnosticView { start_offset: start, end_offset: end, message: m, severity: sev, help },
            ),
            ..st
        },
        None => st,
    }
}

/// The state after recording a resolution.
pub open spec fn resolved(st: PassModel, r: ResolutionAt) -> PassModel {
    PassModel { resolutions: st.resolutions.push(r), ..st }
}

/// The state with another query scope.
pub open spec fn with_scope(st: PassModel, fs: Seq<FrameModel>) -> PassModel {
    PassModel { scope: fs, ..st }
}

/// The state with other catalog layers.
pub open spec fn with_catalog(st: PassModel, ls: Seq<LayerModel>) -> PassModel {
    PassModel { catalog: ls, ..st }
}

/// The state after recording a definition site.
pub open spec fn defined(st: PassModel, key: Seq<char>, site: (usize, usize)) -> PassModel {
    PassModel { definitions: assoc_insert(st.definitions, key, site), ..st }
}

/// The definition site recorded under `key`.
pub open spec fn definition_site(defs: Seq<(Seq<char>, (usize, usize))>, key: Seq<char>) -> Option<DefinitionLocation> {
    match lookup(defs, key) {
        Some(site) => Some(DefinitionLocation { start: site.0, end: site.1 }),
        None => None,
    }
}

/// Whether a table lacking an implicit rowid has one.
pub open spec fn rowid_policy(without_rowid: bool) -> RowIdPolicy {
    if without_rowid {
        RowIdPolicy::WithoutRowId
    } else {
        RowIdPolicy::WithRowId
    }
}

/// What an unknown table name is compared with: every relation name, then
/// every table-valued function name.
pub open spec fn relation_candidates(ls: Seq<LayerModel>) -> Seq<Seq<char>> {
    key_summary(relation_names(relations_in_search_order(ls))) + key_summary(table_function_names_in_search_order(ls))
}

/// What an unknown function name is compared with.
pub open spec fn function_candidates(ls: Seq<LayerModel>) -> Seq<Seq<char>> {
    key_summary(function_names_in_search_order(ls))
}

/// What an unknown column is compared with: the active column names (of
/// `table` only, when given).
pub open spec fn column_candidates(fs: Seq<FrameModel>, table: Option<Seq<char>>) -> Seq<Seq<char>> {
    key_summary(scope_column_names_from(fs, 0, table))
}

/// The description of a function category.
pub open spec fn category_text(c: FunctionCategory) -> Seq<char> {
    match c {
        FunctionCategory::Scalar => "scalar function"@,
        FunctionCategory::Aggregate => "aggregate function"@,
        FunctionCategory::Window => "window function"@,
    }
}

/// The category a function is described by: its first overload's.
pub open spec fn set_category(set: FunctionSetView) -> FunctionCategory {
    if set.overloads.len() > 0 {
        set.overloads[0].category
    } else {
        FunctionCategory::Scalar
    }
}

/// The signature text of each overload.
pub open spec fn arity_texts(name: Seq<char>, set: FunctionSetView) -> Seq<Seq<char>> {
    overload_arities(set.overloads).map_values(|a| arity_signature(name, a))
}

// ── The steps of the walk ────────────────────────────────────────────────────

/// A table reference in FROM: an unknown name is reported (with the closest
/// known relation or table-valued function as suggestion), a known one is
/// recorded; either way it becomes active under its alias, or its name.
pub open spec fn source_ref_step(st: PassModel, cfg: ValidationSettings, name: Span, alias: Span) -> PassModel {
    if name.text@.len() == 0 {
        st
    } else {
        let k = lower_chars(name.text@);
        let known = top_relation(st.catalog, k) is Some || top_table_function(st.catalog, k) is Some;
        let cols = table_source_columns(st.catalog, k);
        let st1 = if known {
            resolved(
                st,
                ResolutionAt {
                    start: name.offset,
                    end: end_of(name),
                    symbol: SymbolView::Table { name: name.text@, columns: cols, definition: definition_site(st.definitions, k) },
                },
            )
        } else {
            emitted(
                st,
                cfg,
                name.offset,
                end_of(name),
                MessageView::UnknownTable { name: name.text@ },
                suggestion(name.text@, relation_candidates(st.catalog), cfg.suggestion_threshold as nat),
            )
        };
        let scope_name = if alias.text@.len() == 0 {
            name.text@
        } else {
            alias.text@
        };
        with_scope(st1, scope_with_table(st1.scope, scope_name, cols, rowid_policy(table_source_without_rowid(st.catalog, k))))
    }
}

/// A function call with `n` arguments: an unknown function is reported
/// (with a suggestion), a wrong argument count is reported with the fixed
/// arities the function accepts, an accepted call is recorded.
pub open spec fn call_step(st: PassModel, cfg: ValidationSettings, name: Span, n: nat) -> PassModel {
    if name.text@.len() == 0 {
        st
    } else {
        match top_function(st.catalog, lower_chars(name.text@)) {
            None => emitted(
                st,
                cfg,
                name.offset,
                end_of(name),
                MessageView::UnknownFunction { name: name.text@ },
                suggestion(name.text@, function_candidates(st.catalog), cfg.suggestion_threshold as nat),
            ),
            Some(set) => if exists|i: int| 0 <= i < set.overloads.len() && accepts(#[trigger] set.overloads[i], n) {
                resolved(
                    st,
                    ResolutionAt {
                        start: name.offset,
                        end: end_of(name),
                        symbol: SymbolView::Function {
                            category: category_text(set_category(set)),
                            arities: arity_texts(name.text@, set),
                        },
                    },
                )
            } else {
                emitted(
                    st,
                    cfg,
                    name.offset,
                    end_of(name),
                    MessageView::FunctionArity { name: name.text@, expected: fixed_arities(set.overloads), got: n as usize },
                    None,
                )
            },
        }
    }
}

/// The qualifier of a column reference, if it has one.
pub open spec fn qualifier(table: Span) -> Option<Seq<char>> {
    if table.text@.len() > 0 {
        Some(table.text@)
    } else {
        None
    }
}

/// How a column reference resolves in the current scope.
pub open spec fn column_resolution(fs: Seq<FrameModel>, column: Seq<char>, table: Option<Seq<char>>) -> ResolutionView {
    match table {
        Some(t) => scope_qualified(fs, fs.len() as int, t, column),
        None => scope_unqualified(fs, fs.len() as int, column),
    }
}

/// A column reference inside a query: a column found in a named table is
/// recorded; a column missing from a known table, or from every table, is
/// reported with a suggestion (bare `TRUE` and `FALSE` are literals, not
/// missing columns); outside any query nothing is checked.
pub open spec fn column_ref_step(st: PassModel, cfg: ValidationSettings, column: Span, table: Span) -> PassModel {
    if st.scope.len() == 0 || column.text@.len() == 0 {
        st
    } else {
        let t = qualifier(table);
        match column_resolution(st.scope, column.text@, t) {
            ResolutionView::Found { table: rt, all_columns } => if rt.len() > 0 {
                resolved(
                    st,
                    ResolutionAt {
                        start: column.offset,
                        end: end_of(column),
                        symbol: SymbolView::Column {
                            column: column.text@,
                            table: rt,
                            all_columns,
                            definition: definition_site(st.definitions, lower_chars(rt) + "."@ + lower_chars(column.text@)),
                        },
                    },
                )
            } else {
                st
            },
            ResolutionView::TableNotFound => st,
            ResolutionView::TableFoundColumnMissing => emitted(
                st,
                cfg,
                column.offset,
                end_of(column),
                MessageView::UnknownColumn { column: column.text@, table: t },
                suggestion(column.text@, column_candidates(st.scope, t), cfg.suggestion_threshold as nat),
            ),
            ResolutionView::NotFound => if same_ignoring_case(column.text@, "true"@) || same_ignoring_case(
                column.text@,
                "false"@,
            ) {
                st
            } else {
                emitted(
                    st,
                    cfg,
                    column.offset,
                    end_of(column),
                    MessageView::UnknownColumn { column: column.text@, table: None },
                    suggestion(column.text@, column_candidates(st.scope, None), cfg.suggestion_threshold as nat),
                )
            },
        }
    }
}

/// After its body was walked, a FROM subquery becomes active under its
/// alias, or anonymously without one, with the columns its body names.
pub open spec fn scoped_source_finish(st: PassModel, src: Seq<u8>, body: Option<Box<Node>>, alias: Span) -> PassModel {
    let cols = opt_select_columns(src, body);
    if alias.text@.len() == 0 {
        with_scope(st, scope_with_anonymous(st.scope, cols))
    } else {
        with_scope(st, scope_with_table(st.scope, alias.text@, cols, RowIdPolicy::WithRowId))
    }
}

/// After a query's result columns, their aliases become visible to its
/// remaining clauses.
pub open spec fn aliases_step(st: PassModel, results: Option<Vec<Node>>) -> PassModel {
    let aliases = span_texts(result_aliases(results));
    if aliases.len() > 0 {
        with_scope(st, scope_with_table(st.scope, Seq::empty(), Some(aliases), RowIdPolicy::WithRowId))
    } else {
        st
    }
}

/// The declared column names of a CTE, if it declares any.
pub open spec fn declared_columns(columns: Seq<Span>) -> Option<Seq<Seq<char>>> {
    let named = named_spans(columns);
    if named.len() > 0 {
        Some(span_texts(named))
    } else {
        None
    }
}

/// Before a recursive CTE's body is walked, its name is already a table.
pub open spec fn binding_enter(st: PassModel, recursive: bool, name: Span, columns: Seq<Span>) -> PassModel {
    if recursive && name.text@.len() > 0 {
        with_catalog(st, catalog_with_query_table(st.catalog, name.text@, declared_columns(columns)))
    } else {
        st
    }
}

/// Records a definition site `key.column` for every span.
pub open spec fn define_columns(st: PassModel, key: Seq<char>, sps: Seq<Span>) -> PassModel
    decreases sps.len(),
{
    if sps.len() == 0 {
        st
    } else {
        let sp = sps.last();
        defined(define_columns(st, key, sps.drop_last()), key + "."@ + lower_chars(sp.text@), (sp.offset, end_of(sp)))
    }
}

/// A declared column list must match the number of result columns of the
/// body, when that number is known.
pub open spec fn column_count_check(
    st: PassModel,
    cfg: ValidationSettings,
    name: Span,
    declared: nat,
    body: Option<Box<Node>>,
) -> PassModel {
    match body_column_count(body) {
        Some(actual) => if actual != declared {
            emitted(
                st,
                cfg,
                name.offset,
                end_of(name),
                MessageView::CteColumnCountMismatch { name: name.text@, declared: declared as usize, actual: actual as usize },
                None,
            )
        } else {
            st
        },
        None => st,
    }
}

/// After a CTE's body was walked: its name and columns are recorded as
/// definition sites, a declared column list is checked against the body,
/// and the CTE becomes a table with its declared columns, or the columns its
/// body names.
pub open spec fn binding_finish(
    st: PassModel,
    cfg: ValidationSettings,
    src: Seq<u8>,
    name: Span,
    columns: Seq<Span>,
    body: Option<Box<Node>>,
) -> PassModel {
    if name.text@.len() == 0 {
        st
    } else {
        let key = lower_chars(name.text@);
        let st1 = defined(st, key, (name.offset, end_of(name)));
        let named = named_spans(columns);
        if named.len() > 0 {
            let st2 = define_columns(column_count_check(st1, cfg, name, named.len(), body), key, named);
            with_catalog(st2, catalog_with_query_table(st2.catalog, name.text@, Some(span_texts(named))))
        } else {
            let st2 = define_columns(st1, key, body_aliases(body));
            with_catalog(st2, catalog_with_query_table(st2.catalog, name.text@, opt_select_columns(src, body)))
        }
    }
}

// ── The walk ─────────────────────────────────────────────────────────────────

/// The state after walking a node.
pub open spec fn walk(st: PassModel, cfg: ValidationSettings, src: Seq<u8>, n: Node) -> PassModel
    decreases n,
{
    match n {
        Node::Plain { children, .. } => walk_all(st, cfg, src, children@),
        Node::CreateTable { select, .. } => walk_opt(st, cfg, src, select),
        Node::CreateView { select, .. } => walk_opt(st, cfg, src, select),
        Node::CreateFunction { select, .. } => walk_opt(st, cfg, src, select),
        Node::Opaque => st,
        Node::ResultColumn { expr, .. } => walk_opt(st, cfg, src, expr),
        Node::ColumnRef { column, table } => column_ref_step(st, cfg, column, table),
        Node::Call { name, args, rest } => walk_all(
            walk_all(call_step(st, cfg, name, args@.len()), cfg, src, args@),
            cfg,
            src,
            rest@,
        ),
        Node::SourceRef { name, alias } => source_ref_step(st, cfg, name, alias),
        Node::ScopedSource { body, alias } => {
            let st1 = walk_opt(with_scope(st, scope_push(st.scope)), cfg, src, body);
            scoped_source_finish(with_scope(st1, scope_pop(st1.scope)), src, body, alias)
        },
        Node::Query { from, results, clauses } => {
            let st1 = walk_opt(with_scope(st, scope_push(st.scope)), cfg, src, from);
            let st2 = match results {
                Some(cs) => walk_all(st1, cfg, src, cs@),
                None => st1,
            };
            let st3 = walk_all(aliases_step(st2, results), cfg, src, clauses@);
            with_scope(st3, scope_pop(st3.scope))
        },
        Node::CteScope { recursive, bindings, body } => {
            let st1 = walk_bindings(with_catalog(st, catalog_push(st.catalog)), cfg, src, recursive, bindings@);
            let st2 = walk_opt(st1, cfg, src, body);
            with_catalog(st2, catalog_pop(st2.catalog))
        },
        Node::CteBinding { body, .. } => walk_opt(st, cfg, src, body),
        Node::TriggerScope { when, body } => {
            let fs = scope_with_table(
                scope_with_table(scope_push(st.scope), "OLD"@, None, RowIdPolicy::WithRowId),
                "NEW"@,
                None,
                RowIdPolicy::WithRowId,
            );
            let st1 = walk_opt(walk_opt(with_scope(st, fs), cfg, src, when), cfg, src, body);
            with_scope(st1, scope_pop(st1.scope))
        },
        Node::DmlScope { children } => {
            let st1 = walk_all(with_scope(st, scope_push(st.scope)), cfg, src, children@);
            with_scope(st1, scope_pop(st1.scope))
        },
    }
}

/// The state after walking each node of a list in order.
pub open spec fn walk_all(st: PassModel, cfg: ValidationSettings, src: Seq<u8>, ns: Seq<Node>) -> PassModel
    decreases ns,
{
    if ns.len() == 0 {
        st
    } else {
        walk(walk_all(st, cfg, src, ns.drop_last()), cfg, src, ns.last())
    }
}

/// The state after walking an optional node.
pub open spec fn walk_opt(st: PassModel, cfg: ValidationSettings, src: Seq<u8>, o: Option<Box<Node>>) -> PassModel
    decreases o,
{
    match o {
        Some(n) => walk(st, cfg, src, *n),
        None => st,
    }
}

/// The state after walking the bindings of a `WITH` clause in order: each
/// body in a scope of its own, each name registered as a table (a recursive
/// CTE's before its body).
pub open spec fn walk_bindings(st: PassModel, cfg: ValidationSettings, src: Seq<u8>, recursive: bool, bs: Seq<Node>) -> PassModel
    decreases bs,
{
    if bs.len() == 0 {
        st
    } else {
        let st0 = walk_bindings(st, cfg, src, recursive, bs.drop_last());
        match bs.last() {
            Node::CteBinding { name, columns, body } => {
                let st1 = binding_enter(st0, recursive, name, columns@);
                let st2 = walk_opt(with_scope(st1, scope_push(st1.scope)), cfg, src, body);
                binding_finish(with_scope(st2, scope_pop(st2.scope)), cfg, src, name, columns@, body)
            },
            _ => st0,
        }
    }
}


// ── The pass ─────────────────────────────────────────────────────────────────

/// The diagnostics, resolutions and definition sites a pass accumulates
/// over the statements of a document, and the query scope of the statement
/// being walked.
pub struct PassState {
    scope: QueryScope,
    diagnostics: Vec<Diagnostic>,
    resolutions: Vec<Resolution>,
    definitions: NameTable<(usize, usize)>,
}

/// The help a suggestion becomes.
pub open spec fn help_view(h: Option<Help>) -> Option<Seq<char>> {
    match h {
        Some(Help::Suggestion(s)) => Some(s@),
        None => None,
    }
}

impl PassState {
    /// The scope and the definition table are consistent.
    pub closed spec fn wf(&self) -> bool {
        self.scope.wf() && self.definitions.wf()
    }

    /// The pass state, with the given catalog layers.
    pub closed spec fn model(&self, catalog: Seq<LayerModel>) -> PassModel {
        PassModel {
            catalog,
            scope: self.scope@,
            diagnostics: diagnostic_views(self.diagnostics@),
            resolutions: resolution_views(self.resolutions@),
            definitions: self.definitions.entries(),
        }
    }

    /// The model carries the catalog it is given, and changing the catalog
    /// changes nothing else.
    pub proof fn lemma_model(&self, c1: Seq<LayerModel>, c2: Seq<LayerModel>)
        ensures
            self.model(c1).catalog == c1,
            self.model(c2) == with_catalog(self.model(c1), c2),
    {
    }

    /// A state with nothing recorded and no open scope.
    pub fn new() -> (r: Self)
        ensures
            r.wf(),
            forall|c: Seq<LayerModel>| #[trigger] r.model(c) == (PassModel {
                catalog: c,
                scope: Seq::empty(),
                diagnostics: Seq::empty(),
                resolutions: Seq::empty(),
                definitions: Seq::empty(),
            }),
    {
        let r = PassState {
            scope: QueryScope::default(),
            diagnostics: Vec::new(),
            resolutions: Vec::new(),
            definitions: NameTable::new(),
        };
        assert(diagnostic_views(r.diagnostics@) =~= Seq::<DiagnosticView>::empty());
        assert(resolution_views(r.resolutions@) =~= Seq::<ResolutionAt>::empty());
        r
    }

    /// Close every open scope (between statements).
    pub fn reset_scope(&mut self)
        requires
            old(self).wf(),
        ensures
            final(self).wf(),
            forall|c: Seq<LayerModel>| #[trigger] final(self).model(c) == with_scope(old(self).model(c), Seq::empty()),
    {
        self.scope = QueryScope::default();
    }

    /// Hand over what was accumulated.
    pub fn into_parts(self) -> (r: (Vec<Diagnostic>, Vec<Resolution>, NameTable<(usize, usize)>))
        requires
            self.wf(),
        ensures
            r.2.wf(),
            forall|c: Seq<LayerModel>| #[trigger] self.model(c).diagnostics == diagnostic_views(r.0@),
            forall|c: Seq<LayerModel>| #[trigger] self.model(c).resolutions == resolution_views(r.1@),
            forall|c: Seq<LayerModel>| #[trigger] self.model(c).definitions == r.2.entries(),
    {
        (self.diagnostics, self.resolutions, self.definitions)
    }

    /// Record a definition site.
    pub fn define(&mut self, key: String, site: (usize, usize))
        requires
            old(self).wf(),
        ensures
            final(self).wf(),
            forall|c: Seq<LayerModel>| #[trigger] final(self).model(c) == defined(old(self).model(c), key@, site),
    {
        self.definitions.insert(key, site);
    }

    /// Emit a diagnostic unless its category is allowed; its severity is
    /// the one the category's level gives.
    pub fn emit(&mut self, config: &ValidationConfig, start: usize, end: usize, message: DiagnosticMessage, help: Option<Help>)
        requires
            old(self).wf(),
        ensures
            final(self).wf(),
            forall|c: Seq<LayerModel>| #[trigger] final(self).model(c) == emitted(old(self).model(c), config@, start, end, message@, help_view(help)),
    {
        let ghost mv = message@;
        let ghost hv = help_view(help);
        match config.checks().level_for(&message).to_severity() {
            Some(severity) => {
                let d = Diagnostic { start_offset: start, end_offset: end, message, severity, help };
                assert(d@ == DiagnosticView { start_offset: start, end_offset: end, message: mv, severity, help: hv });
                self.diagnostics.push(d);
                assert(diagnostic_views(self.diagnostics@) =~= diagnostic_views(old(self).diagnostics@).push(d@));
            },
            None => {},
        }
    }

    fn record(&mut self, r: Resolution)
        requires
            old(self).wf(),
        ensures
            final(self).wf(),
            forall|c: Seq<LayerModel>| #[trigger] final(self).model(c) == resolved(old(self).model(c), r@),
    {
        let ghost rv = r@;
        self.resolutions.push(r);
        assert(resolution_views(self.resolutions@) =~= resolution_views(old(self).resolutions@).push(rv));
    }

    /// The definition site recorded under `key`.
    fn definition_of(&self, key: &str) -> (r: Option<DefinitionLocation>)
        requires
            self.wf(),
        ensures
            forall|c: Seq<LayerModel>| #[trigger] definition_site(self.model(c).definitions, key@) == r,
    {
        match self.definitions.find(key) {
            Some(i) => {
                let site = *self.definitions.get(i);
                Some(DefinitionLocation { start: site.0, end: site.1 })
            },
            None => None,
        }
    }
}

/// The suggestion `best_suggestion` makes is the one `suggestion` names.
fn suggest(name: &str, candidates: &Vec<String>, threshold: usize) -> (r: Option<Help>)
    ensures
        help_view(r) == suggestion(name@, string_views(candidates@), threshold as nat),
{
    let found = best_suggestion(name, candidates.as_slice(), threshold);
    proof {
        lemma_suggestion_unique(name@, string_views(candidates@), threshold as nat, match &found {
            Some(s) => Some(s@),
            None => None,
        });
    }
    match found {
        Some(s) => Some(Help::Suggestion(s)),
        None => None,
    }
}

fn copy_columns(c: &Option<Vec<String>>) -> (r: Option<Vec<String>>)
    ensures
        columns_view(r) == columns_view(*c),
{
    match c {
        Some(v) => Some(copy_strings(v)),
        None => None,
    }
}

/// See [`source_ref_step`].
fn visit_source_ref(st: &mut PassState, catalog: &Catalog, config: &ValidationConfig, name: &Span, alias: &Span, Ghost(src): Ghost<Seq<u8>>)
    requires
        old(st).wf(),
        catalog.wf(),
        span_fits(src, *name),
        src.len() <= usize::MAX,
    ensures
        final(st).wf(),
        final(st).model(catalog@) == source_ref_step(old(st).model(catalog@), config@, *name, *alias),
{
    let text = name.text.as_str();
    if text.is_empty() {
        return;
    }
    let offset = name.offset;
    let end = offset + text.len();
    assert(end == end_of(*name));
    let is_known = catalog.resolve_relation(text) || catalog.resolve_table_function(text);
    let (columns, without_rowid) = catalog.table_source_info(text);
    if is_known {
        let key = ascii_lowercase(text);
        let definition = st.definition_of(key.as_str());
        let symbol = ResolvedSymbol::Table { name: text.to_owned(), columns: copy_columns(&columns), definition };
        st.record(Resolution { start: offset, end, symbol });
    } else {
        let mut candidates = catalog.all_relation_names();
        let mut functions = catalog.all_table_function_names();
        proof {
            lemma_key_summary_unique(string_views(candidates@), relation_names(relations_in_search_order(catalog@)));
            lemma_key_summary_unique(string_views(functions@), table_function_names_in_search_order(catalog@));
        }
        let ghost a = candidates@;
        let ghost b = functions@;
        candidates.append(&mut functions);
        assert(string_views(candidates@) =~= string_views(a) + string_views(b));
        let help = suggest(text, &candidates, config.suggestion_threshold());
        st.emit(config, offset, end, DiagnosticMessage::UnknownTable { name: text.to_owned() }, help);
    }
    let scope_name = if alias.text.as_str().is_empty() {
        text
    } else {
        alias.text.as_str()
    };
    let ghost mid = st.model(catalog@);
    let policy = RowIdPolicy::from(without_rowid);
    assert(policy == rowid_policy(without_rowid));
    st.scope.add_table(scope_name, columns, policy);
    assert(st.model(catalog@) == with_scope(mid, scope_with_table(mid.scope, scope_name@, columns_view(columns), policy)));
    let ghost k = lower_chars(text@);
    let ghost st0 = old(st).model(catalog@);
    assert(mid == if is_known {
        resolved(
            st0,
            ResolutionAt {
                start: name.offset,
                end: end_of(*name),
                symbol: SymbolView::Table { name: name.text@, columns: table_source_columns(catalog@, k), definition: definition_site(st0.definitions, k) },
            },
        )
    } else {
        emitted(
            st0,
            config@,
            name.offset,
            end_of(*name),
            MessageView::UnknownTable { name: name.text@ },
            suggestion(name.text@, relation_candidates(st0.catalog), config@.suggestion_threshold as nat),
        )
    });
}

/// The description of a function category.
fn category_string(c: FunctionCategory) -> (r: String)
    ensures
        r@ == category_text(c),
{
    match c {
        FunctionCategory::Scalar => String::from_str("scalar function"),
        FunctionCategory::Aggregate => String::from_str("aggregate function"),
        FunctionCategory::Window => String::from_str("window function"),
    }
}

/// See [`call_step`].
fn visit_call_check(st: &mut PassState, catalog: &Catalog, config: &ValidationConfig, name: &Span, arg_count: usize, Ghost(src): Ghost<Seq<u8>>)
    requires
        old(st).wf(),
        catalog.wf(),
        span_fits(src, *name),
        src.len() <= usize::MAX,
    ensures
        final(st).wf(),
        final(st).model(catalog@) == call_step(old(st).model(catalog@), config@, *name, arg_count as nat),
{
    let text = name.text.as_str();
    if text.is_empty() {
        return;
    }
    let offset = name.offset;
    let end = offset + text.len();
    assert(end == end_of(*name));
    let ghost found = top_function(catalog@, lower_chars(text@));
    match catalog.check_function(text, arg_count) {
        FunctionCheckResult::Accepted => {
            match catalog.function_signature(text) {
                Some((category, arities)) => {
                    let ghost set = found->0;
                    let mut texts: Vec<String> = Vec::new();
                    let mut j: usize = 0;
                    while j < arities.len()
                        invariant
                            0 <= j <= arities@.len(),
                            arities@ == overload_arities(set.overloads),
                            string_views(texts@) == overload_arities(set.overloads).take(j as int).map_values(
                                |a| arity_signature(text@, a),
                            ),
                        decreases arities@.len() - j,
                    {
                        let t = format_arity(text, arities[j]);
                        let ghost prev = string_views(texts@);
                        let ghost tv = t@;
                        assert(tv == arity_signature(text@, overload_arities(set.overloads)[j as int]));
                        texts.push(t);
                        assert(string_views(texts@) =~= prev.push(tv));
                        assert(overload_arities(set.overloads).take(j + 1) =~= overload_arities(set.overloads).take(j as int).push(
                            overload_arities(set.overloads)[j as int],
                        ));
                        assert(string_views(texts@) =~= overload_arities(set.overloads).take(j + 1).map_values(
                            |a| arity_signature(text@, a),
                        ));
                        j += 1;
                    }
                    assert(overload_arities(set.overloads).take(j as int) =~= overload_arities(set.overloads));
                    let symbol = ResolvedSymbol::Function { category: category_string(category), arities: texts };
                    st.record(Resolution { start: offset, end, symbol });
                },
                None => {},
            }
        },
        FunctionCheckResult::Unknown => {
            let candidates = catalog.all_function_names();
            proof {
                lemma_key_summary_unique(string_views(candidates@), function_names_in_search_order(catalog@));
            }
            let help = suggest(text, &candidates, config.suggestion_threshold());
            st.emit(config, offset, end, DiagnosticMessage::UnknownFunction { name: text.to_owned() }, help);
        },
        FunctionCheckResult::WrongArity { expected } => {
            proof {
                lemma_fixed_arities_unique(expected@, found->0.overloads);
            }
            st.emit(
                config,
                offset,
                end,
                DiagnosticMessage::FunctionArity { name: text.to_owned(), expected, got: arg_count },
                None,
            );
        },
    }
}

/// See [`column_ref_step`].
fn visit_column_ref(st: &mut PassState, config: &ValidationConfig, column: &Span, table: &Span, Ghost(src): Ghost<Seq<u8>>)
    requires
        old(st).wf(),
        span_fits(src, *column),
        src.len() <= usize::MAX,
    ensures
        final(st).wf(),
        forall|c: Seq<LayerModel>| #[trigger] final(st).model(c) == column_ref_step(old(st).model(c), config@, *column, *table),
{
    if !st.scope.has_frames() {
        return;
    }
    let text = column.text.as_str();
    if text.is_empty() {
        return;
    }
    let offset = column.offset;
    let end = offset + text.len();
    assert(end == end_of(*column));
    let qualifier_text: Option<&str> = if table.text.as_str().is_empty() {
        None
    } else {
        Some(table.text.as_str())
    };
    assert(opt_str_view(qualifier_text) == qualifier(*table));
    match st.scope.resolve_column(qualifier_text, text) {
        ColumnResolution::Found { table: resolved_table, all_columns } => {
            if !resolved_table.as_str().is_empty() {
                let mut key = ascii_lowercase(resolved_table.as_str());
                key.append(".");
                let lower_column = ascii_lowercase(text);
                key.append(lower_column.as_str());
                let definition = st.definition_of(key.as_str());
                let symbol = ResolvedSymbol::Column { column: text.to_owned(), table: resolved_table, all_columns, definition };
                st.record(Resolution { start: offset, end, symbol });
            }
        },
        ColumnResolution::TableNotFound => {},
        ColumnResolution::TableFoundColumnMissing => {
            let candidates = st.scope.all_column_names(qualifier_text);
            proof {
                lemma_key_summary_unique(string_views(candidates@), scope_column_names_from(st.scope@, 0, qualifier(*table)));
            }
            let help = suggest(text, &candidates, config.suggestion_threshold());
            let owned_table = match qualifier_text {
                Some(t) => Some(t.to_owned()),
                None => None,
            };
            st.emit(config, offset, end, DiagnosticMessage::UnknownColumn { column: text.to_owned(), table: owned_table }, help);
        },
        ColumnResolution::NotFound => {
            if eq_ignore_ascii_case(text, "true") || eq_ignore_ascii_case(text, "false") {
                return;
            }
            let candidates = st.scope.all_column_names(None);
            proof {
                lemma_key_summary_unique(string_views(candidates@), scope_column_names_from(st.scope@, 0, None));
            }
            let help = suggest(text, &candidates, config.suggestion_threshold());
            st.emit(config, offset, end, DiagnosticMessage::UnknownColumn { column: text.to_owned(), table: None }, help);
        },
    }
}


// ── Helpers of the walk ──────────────────────────────────────────────────────

/// The declared column names of a CTE (see [`declared_columns`]).
fn declared_column_list(columns: &Vec<Span>) -> (r: Option<Vec<String>>)
    ensures
        columns_view(r) == declared_columns(columns@),
{
    let mut out: Vec<String> = Vec::new();
    let mut i: usize = 0;
    while i < columns.len()
        invariant
            0 <= i <= columns@.len(),
            string_views(out@) == span_texts(named_spans(columns@.take(i as int))),
        decreases columns@.len() - i,
    {
        assert(columns@.take(i + 1).drop_last() =~= columns@.take(i as int));
        assert(columns@.take(i + 1).last() == columns@[i as int]);
        let sp = &columns[i];
        if !sp.text.as_str().is_empty() {
            let ghost prev = string_views(out@);
            out.push(sp.text.clone());
            assert(string_views(out@) =~= prev.push(sp.text@));
            assert(span_texts(named_spans(columns@.take(i + 1))) =~= span_texts(named_spans(columns@.take(i as int))).push(
                sp.text@,
            ));
        }
        i += 1;
    }
    assert(columns@.take(i as int) =~= columns@);
    if out.len() > 0 {
        Some(out)
    } else {
        assert(named_spans(columns@).len() == 0);
        None
    }
}

/// `key.column`, the definition key of a column.
fn column_key(key: &String, column: &str) -> (r: String)
    ensures
        r@ == key@ + "."@ + lower_chars(column@),
{
    let mut k = key.clone();
    k.append(".");
    let lower = ascii_lowercase(column);
    k.append(lower.as_str());
    k
}

/// Records `key.column` for every named span (see [`define_columns`]).
pub(crate) fn define_span_columns(st: &mut PassState, key: &String, spans: &Vec<Span>, Ghost(src): Ghost<Seq<u8>>)
    requires
        old(st).wf(),
        spans_fit(src, spans@),
        src.len() <= usize::MAX,
    ensures
        final(st).wf(),
        forall|c: Seq<LayerModel>| #[trigger] final(st).model(c) == define_columns(old(st).model(c), key@, named_spans(spans@)),
{
    let mut i: usize = 0;
    while i < spans.len()
        invariant
            0 <= i <= spans@.len(),
            st.wf(),
            spans_fit(src, spans@),
            src.len() <= usize::MAX,
            forall|c: Seq<LayerModel>| #[trigger] st.model(c) == define_columns(old(st).model(c), key@, named_spans(spans@.take(i as int))),
        decreases spans@.len() - i,
    {
        proof {
            lemma_spans_fit_at(src, spans@, i as int);
        }
        assert(spans@.take(i + 1).drop_last() =~= spans@.take(i as int));
        assert(spans@.take(i + 1).last() == spans@[i as int]);
        let sp = &spans[i];
        let text = sp.text.as_str();
        if !text.is_empty() {
            let end = sp.offset + text.len();
            assert(end == end_of(*sp));
            let k = column_key(key, text);
            let ghost named = named_spans(spans@.take(i as int));
            assert(named.push(*sp).drop_last() =~= named);
            st.define(k, (sp.offset, end));
        }
        i += 1;
    }
    assert(spans@.take(i as int) =~= spans@);
}

/// Records `key.alias` for every aliased result column of a body that is a
/// plain query.
fn define_alias_columns(st: &mut PassState, key: &String, body: &Option<Box<Node>>, Ghost(src): Ghost<Seq<u8>>)
    requires
        old(st).wf(),
        opt_fits(src, *body),
        src.len() <= usize::MAX,
    ensures
        final(st).wf(),
        forall|c: Seq<LayerModel>| #[trigger] final(st).model(c) == define_columns(old(st).model(c), key@, body_aliases(*body)),
{
    match body {
        Some(b) => match &**b {
            Node::Query { results: Some(cs), .. } => {
                let mut i: usize = 0;
                while i < cs.len()
                    invariant
                        0 <= i <= cs@.len(),
                        st.wf(),
                        nodes_fit(src, cs@),
                        src.len() <= usize::MAX,
                        forall|c: Seq<LayerModel>| #[trigger] st.model(c) == define_columns(old(st).model(c), key@, alias_spans(cs@.take(i as int))),
                    decreases cs@.len() - i,
                {
                    proof {
                        lemma_nodes_fit_at(src, cs@, i as int);
                    }
                    assert(cs@.take(i + 1).drop_last() =~= cs@.take(i as int));
                    assert(cs@.take(i + 1).last() == cs@[i as int]);
                    match &cs[i] {
                        Node::ResultColumn { alias, .. } => {
                            let text = alias.text.as_str();
                            if !text.is_empty() {
                                let end = alias.offset + text.len();
                                assert(end == end_of(*alias));
                                let k = column_key(key, text);
                                let ghost named = alias_spans(cs@.take(i as int));
                                assert(named.push(*alias).drop_last() =~= named);
                                st.define(k, (alias.offset, end));
                            }
                        },
                        _ => {},
                    }
                    i += 1;
                }
                assert(cs@.take(i as int) =~= cs@);
            },
            Node::Query { results: None, .. } => {},
            _ => {},
        },
        None => {},
    }
}

/// The number of result columns of a body (see [`body_column_count`]).
fn body_count(body: &Option<Box<Node>>) -> (r: Option<usize>)
    ensures
        match r {
            Some(k) => body_column_count(*body) == Some(k as nat),
            None => body_column_count(*body) is None,
        },
{
    match body {
        Some(b) => match &**b {
            Node::Query { results: Some(cs), .. } => {
                let mut count: usize = 0;
                let mut i: usize = 0;
                while i < cs.len()
                    invariant
                        0 <= i <= cs@.len(),
                        count <= i,
                        result_count(cs@.take(i as int)) == Some(count as nat),
                        body_column_count(*body) == result_count(cs@),
                    decreases cs@.len() - i,
                {
                    assert(cs@.take(i + 1).drop_last() =~= cs@.take(i as int));
                    assert(cs@.take(i + 1).last() == cs@[i as int]);
                    match &cs[i] {
                        Node::ResultColumn { star, .. } => {
                            if *star {
                                proof {
                                    lemma_result_count_none_stays(cs@, i + 1);
                                }
                                return None;
                            }
                            count += 1;
                        },
                        _ => {},
                    }
                    i += 1;
                }
                assert(cs@.take(i as int) =~= cs@);
                Some(count)
            },
            _ => None,
        },
        None => None,
    }
}

/// Once a prefix has a wildcard, so has the list.
proof fn lemma_result_count_none_stays(cs: Seq<Node>, k: int)
    requires
        0 <= k <= cs.len(),
        result_count(cs.take(k)) is None,
    ensures
        result_count(cs) is None,
    decreases cs.len() - k,
{
    if k < cs.len() {
        assert(cs.take(k + 1).drop_last() =~= cs.take(k));
        lemma_result_count_none_stays(cs, k + 1);
    } else {
        assert(cs.take(k) =~= cs);
    }
}

/// The alias texts of a result column list.
fn select_aliases(results: &Option<Vec<Node>>) -> (r: Vec<String>)
    ensures
        string_views(r@) == span_texts(result_aliases(*results)),
{
    let mut out: Vec<String> = Vec::new();
    match results {
        Some(cs) => {
            let mut i: usize = 0;
            while i < cs.len()
                invariant
                    0 <= i <= cs@.len(),
                    string_views(out@) == span_texts(alias_spans(cs@.take(i as int))),
                decreases cs@.len() - i,
            {
                assert(cs@.take(i + 1).drop_last() =~= cs@.take(i as int));
                assert(cs@.take(i + 1).last() == cs@[i as int]);
                match &cs[i] {
                    Node::ResultColumn { alias, .. } => {
                        if !alias.text.as_str().is_empty() {
                            let ghost prev = string_views(out@);
                            out.push(alias.text.clone());
                            assert(string_views(out@) =~= prev.push(alias.text@));
                            assert(span_texts(alias_spans(cs@.take(i + 1))) =~= span_texts(alias_spans(cs@.take(i as int))).push(
                                alias.text@,
                            ));
                        }
                    },
                    _ => {},
                }
                i += 1;
            }
            assert(cs@.take(i as int) =~= cs@);
        },
        None => {
            assert(string_views(out@) =~= Seq::<Seq<char>>::empty());
        },
    }
    out
}

/// The column names an optional body yields.
fn body_columns(source: &str, body: &Option<Box<Node>>) -> (r: Option<Vec<String>>)
    requires
        opt_fits(utf8(source@), *body),
        utf8(source@).len() <= usize::MAX,
    ensures
        columns_view(r) == opt_select_columns(utf8(source@), *body),
{
    match body {
        Some(b) => columns_from_select(source, b),
        None => None,
    }
}

/// See [`binding_enter`].
fn enter_binding(catalog: &mut Catalog, recursive: bool, name: &Span, columns: &Vec<Span>)
    requires
        old(catalog).wf(),
    ensures
        final(catalog).wf(),
        forall|st: PassModel| #[trigger] binding_enter(with_catalog(st, old(catalog)@), recursive, *name, columns@) == with_catalog(st, final(catalog)@),
{
    if recursive && !name.text.as_str().is_empty() {
        let cols = declared_column_list(columns);
        catalog.add_query_table(name.text.as_str(), cols);
    }
}

/// See [`binding_finish`].
fn finish_binding(
    st: &mut PassState,
    catalog: &mut Catalog,
    config: &ValidationConfig,
    source: &str,
    name: &Span,
    columns: &Vec<Span>,
    body: &Option<Box<Node>>,
)
    requires
        old(st).wf(),
        old(catalog).wf(),
        span_fits(utf8(source@), *name),
        spans_fit(utf8(source@), columns@),
        opt_fits(utf8(source@), *body),
        utf8(source@).len() <= usize::MAX,
    ensures
        final(st).wf(),
        final(catalog).wf(),
        final(st).model(final(catalog)@) == binding_finish(old(st).model(old(catalog)@), config@, utf8(source@), *name, columns@, *body),
{
    let ghost src = utf8(source@);
    let ghost cat0 = catalog@;
    let ghost st0 = old(st).model(cat0);
    let text = name.text.as_str();
    if text.is_empty() {
        return;
    }
    let end = name.offset + text.len();
    assert(end == end_of(*name));
    let key = ascii_lowercase(text);
    st.define(key.clone(), (name.offset, end));
    let ghost st1 = st.model(cat0);
    assert(st1 == defined(st0, lower_chars(name.text@), (name.offset, end_of(*name))));
    let ghost named = named_spans(columns@);
    match declared_column_list(columns) {
        Some(declared) => {
            assert(declared@.len() == named.len()) by {
                assert(string_views(declared@).len() == span_texts(named).len());
            }
            match body_count(body) {
                Some(actual) => {
                    if actual != declared.len() {
                        st.emit(
                            config,
                            name.offset,
                            end,
                            DiagnosticMessage::CteColumnCountMismatch { name: text.to_owned(), declared: declared.len(), actual },
                            None,
                        );
                    }
                },
                None => {},
            }
            assert(st.model(cat0) == column_count_check(st1, config@, *name, named.len(), *body));
            define_span_columns(st, &key, columns, Ghost(src));
            let ghost st2 = st.model(cat0);
            assert(st2 == define_columns(column_count_check(st1, config@, *name, named.len(), *body), key@, named));
            let ghost dv = string_views(declared@);
            catalog.add_query_table(text, Some(declared));
            assert(catalog@ == catalog_with_query_table(cat0, name.text@, Some(span_texts(named))));
            assert(st.model(catalog@) == with_catalog(st2, catalog@));
        },
        None => {
            define_alias_columns(st, &key, body, Ghost(src));
            let ghost st2 = st.model(cat0);
            assert(st2 == define_columns(st1, key@, body_aliases(*body)));
            let cols = body_columns(source, body);
            catalog.add_query_table(text, cols);
            assert(st.model(catalog@) == with_catalog(st2, catalog@));
        },
    }
}

/// See [`scoped_source_finish`].
fn finish_scoped_source(st: &mut PassState, source: &str, body: &Option<Box<Node>>, alias: &Span)
    requires
        old(st).wf(),
        opt_fits(utf8(source@), *body),
        utf8(source@).len() <= usize::MAX,
    ensures
        final(st).wf(),
        forall|c: Seq<LayerModel>| #[trigger] final(st).model(c) == scoped_source_finish(old(st).model(c), utf8(source@), *body, *alias),
{
    let cols = body_columns(source, body);
    if alias.text.as_str().is_empty() {
        st.scope.add_anonymous(cols);
    } else {
        st.scope.add_table(alias.text.as_str(), cols, RowIdPolicy::WithRowId);
    }
}

/// See [`aliases_step`].
fn register_aliases(st: &mut PassState, results: &Option<Vec<Node>>)
    requires
        old(st).wf(),
    ensures
        final(st).wf(),
        forall|c: Seq<LayerModel>| #[trigger] final(st).model(c) == aliases_step(old(st).model(c), *results),
{
    let aliases = select_aliases(results);
    if aliases.len() > 0 {
        let empty = String::new();
        st.scope.add_table(empty.as_str(), Some(aliases), RowIdPolicy::WithRowId);
    }
}


// ── The walk, executed ───────────────────────────────────────────────────────

/// Walk a node (see [`walk`]).
pub fn visit(st: &mut PassState, catalog: &mut Catalog, config: &ValidationConfig, source: &str, node: &Node)
    requires
        old(st).wf(),
        old(catalog).wf(),
        node_fits(utf8(source@), *node),
        utf8(source@).len() <= usize::MAX,
    ensures
        final(st).wf(),
        final(catalog).wf(),
        final(st).model(final(catalog)@) == walk(old(st).model(old(catalog)@), config@, utf8(source@), *node),
    decreases *node,
{
    let ghost src = utf8(source@);
    match node {
        Node::Plain { children, .. } => {
            visit_all(st, catalog, config, source, children);
        },
        Node::CreateTable { select, .. } => {
            visit_opt(st, catalog, config, source, select);
        },
        Node::CreateView { select, .. } => {
            visit_opt(st, catalog, config, source, select);
        },
        Node::CreateFunction { select, .. } => {
            visit_opt(st, catalog, config, source, select);
        },
        Node::Opaque => {},
        Node::ResultColumn { expr, .. } => {
            visit_opt(st, catalog, config, source, expr);
        },
        Node::ColumnRef { column, table } => {
            visit_column_ref(st, config, column, table, Ghost(src));
        },
        Node::Call { name, args, rest } => {
            visit_call_check(st, catalog, config, name, args.len(), Ghost(src));
            visit_all(st, catalog, config, source, args);
            visit_all(st, catalog, config, source, rest);
        },
        Node::SourceRef { name, alias } => {
            visit_source_ref(st, catalog, config, name, alias, Ghost(src));
        },
        Node::ScopedSource { body, alias } => {
            st.scope.push();
            visit_opt(st, catalog, config, source, body);
            st.scope.pop();
            finish_scoped_source(st, source, body, alias);
        },
        Node::Query { from, results, clauses } => {
            st.scope.push();
            visit_opt(st, catalog, config, source, from);
            match results {
                Some(cs) => visit_all(st, catalog, config, source, cs),
                None => {},
            }
            register_aliases(st, results);
            visit_all(st, catalog, config, source, clauses);
            st.scope.pop();
        },
        Node::CteScope { recursive, bindings, body } => {
            catalog.push_query_scope();
            visit_bindings(st, catalog, config, source, *recursive, bindings);
            visit_opt(st, catalog, config, source, body);
            catalog.pop_query_scope();
        },
        Node::CteBinding { body, .. } => {
            visit_opt(st, catalog, config, source, body);
        },
        Node::TriggerScope { when, body } => {
            st.scope.push();
            st.scope.add_table("OLD", None, RowIdPolicy::WithRowId);
            st.scope.add_table("NEW", None, RowIdPolicy::WithRowId);
            visit_opt(st, catalog, config, source, when);
            visit_opt(st, catalog, config, source, body);
            st.scope.pop();
        },
        Node::DmlScope { children } => {
            st.scope.push();
            visit_all(st, catalog, config, source, children);
            st.scope.pop();
        },
    }
}

/// Walk each node of a list in order (see [`walk_all`]).
fn visit_all(st: &mut PassState, catalog: &mut Catalog, config: &ValidationConfig, source: &str, ns: &Vec<Node>)
    requires
        old(st).wf(),
        old(catalog).wf(),
        nodes_fit(utf8(source@), ns@),
        utf8(source@).len() <= usize::MAX,
    ensures
        final(st).wf(),
        final(catalog).wf(),
        final(st).model(final(catalog)@) == walk_all(old(st).model(old(catalog)@), config@, utf8(source@), ns@),
    decreases *ns,
{
    let ghost src = utf8(source@);
    let ghost st0 = st.model(catalog@);
    let mut i: usize = 0;
    while i < ns.len()
        invariant
            0 <= i <= ns@.len(),
            st.wf(),
            catalog.wf(),
            src == utf8(source@),
            nodes_fit(src, ns@),
            src.len() <= usize::MAX,
            st.model(catalog@) == walk_all(st0, config@, src, ns@.take(i as int)),
        decreases ns@.len() - i,
    {
        proof {
            lemma_nodes_fit_at(src, ns@, i as int);
        }
        assert(ns@.take(i + 1).drop_last() =~= ns@.take(i as int));
        assert(ns@.take(i + 1).last() == ns@[i as int]);
        visit(st, catalog, config, source, &ns[i]);
        i += 1;
    }
    assert(ns@.take(i as int) =~= ns@);
}

/// Walk an optional node (see [`walk_opt`]).
fn visit_opt(st: &mut PassState, catalog: &mut Catalog, config: &ValidationConfig, source: &str, o: &Option<Box<Node>>)
    requires
        old(st).wf(),
        old(catalog).wf(),
        opt_fits(utf8(source@), *o),
        utf8(source@).len() <= usize::MAX,
    ensures
        final(st).wf(),
        final(catalog).wf(),
        final(st).model(final(catalog)@) == walk_opt(old(st).model(old(catalog)@), config@, utf8(source@), *o),
    decreases *o,
{
    match o {
        Some(n) => visit(st, catalog, config, source, n),
        None => {},
    }
}

/// Walk the bindings of a `WITH` clause (see [`walk_bindings`]).
fn visit_bindings(st: &mut PassState, catalog: &mut Catalog, config: &ValidationConfig, source: &str, recursive: bool, bs: &Vec<Node>)
    requires
        old(st).wf(),
        old(catalog).wf(),
        nodes_fit(utf8(source@), bs@),
        utf8(source@).len() <= usize::MAX,
    ensures
        final(st).wf(),
        final(catalog).wf(),
        final(st).model(final(catalog)@) == walk_bindings(old(st).model(old(catalog)@), config@, utf8(source@), recursive, bs@),
    decreases *bs,
{
    let ghost src = utf8(source@);
    let ghost st0 = st.model(catalog@);
    let mut i: usize = 0;
    while i < bs.len()
        invariant
            0 <= i <= bs@.len(),
            st.wf(),
            catalog.wf(),
            src == utf8(source@),
            nodes_fit(src, bs@),
            src.len() <= usize::MAX,
            st.model(catalog@) == walk_bindings(st0, config@, src, recursive, bs@.take(i as int)),
        decreases bs@.len() - i,
    {
        proof {
            lemma_nodes_fit_at(src, bs@, i as int);
        }
        assert(bs@.take(i + 1).drop_last() =~= bs@.take(i as int));
        assert(bs@.take(i + 1).last() == bs@[i as int]);
        match &bs[i] {
            Node::CteBinding { name, columns, body } => {
                let ghost before = st.model(catalog@);
                let ghost cat_before = catalog@;
                enter_binding(catalog, recursive, name, columns);
                assert(with_catalog(before, cat_before) == before);
                assert(binding_enter(with_catalog(before, cat_before), recursive, *name, columns@) == with_catalog(before, catalog@));
                assert(st.model(catalog@) == binding_enter(before, recursive, *name, columns@));
                st.scope.push();
                visit_opt(st, catalog, config, source, body);
                st.scope.pop();
                finish_binding(st, catalog, config, source, name, columns, body);
            },
            _ => {},
        }
        i += 1;
    }
    assert(bs@.take(i as int) =~= bs@);
}


// ── Documents ────────────────────────────────────────────────────────────────

/// The range a parse error is reported at: its own range when it has a
/// length, the byte at its offset (the last byte when past the end), or the
/// last byte of the source when its position is unknown.
pub open spec fn error_span(offset: Option<usize>, length: Option<usize>, n: nat) -> (usize, usize) {
    match offset {
        Some(off) => match length {
            Some(len) if len > 0 => (off, (off + len) as usize),
            _ => if off >= n && n > 0 {
                ((n - 1) as usize, n as usize)
            } else {
                (off, (if off + 1 <= n { off + 1 } else { n as int }) as usize)
            },
        },
        None => if n > 0 {
            ((n - 1) as usize, n as usize)
        } else {
            (0, 0)
        },
    }
}

/// A parse error's position can be turned into a range without overflow.
pub open spec fn error_position_ok(offset: Option<usize>, length: Option<usize>, n: nat) -> bool {
    match offset {
        Some(off) => match length {
            Some(len) if len > 0 => off + len <= usize::MAX,
            _ => n == 0 ==> off < usize::MAX,
        },
        None => true,
    }
}

/// Every parse error of a document has a usable position.
pub open spec fn errors_ok(items: Seq<ParseItem>, n: nat) -> bool {
    forall|i: int| 0 <= i < items.len() ==> (#[trigger] items[i] matches ParseItem::Error { offset, length, .. } ==> error_position_ok(offset, length, n))
}

/// The range a parse error is reported at (see [`error_span`]).
pub fn parse_error_span(offset: Option<usize>, length: Option<usize>, source_len: usize) -> (r: (usize, usize))
    requires
        error_position_ok(offset, length, source_len as nat),
    ensures
        r == error_span(offset, length, source_len as nat),
{
    match offset {
        Some(off) => {
            match length {
                Some(len) => {
                    if len > 0 {
                        return (off, off + len);
                    }
                },
                None => {},
            }
            if off >= source_len && source_len > 0 {
                (source_len - 1, source_len)
            } else {
                let next = off + 1;
                (off, if next <= source_len { next } else { source_len })
            }
        },
        None => {
            let end = source_len;
            let start = if end > 0 { end - 1 } else { 0 };
            (start, end)
        },
    }
}

/// The definition sites a table or view definition records: each declared
/// column as `table.column`, then the table itself.
pub open spec fn ddl_definitions(st: PassModel, n: Node) -> PassModel {
    match ddl_name_site(n) {
        Some((key, site)) => {
            let cols = match n {
                Node::CreateTable { columns, .. } => named_spans(columns@),
                Node::CreateView { columns, .. } => named_spans(columns@),
                _ => Seq::empty(),
            };
            defined(define_columns(st, key, cols), key, site)
        },
        None => st,
    }
}

/// One statement: what it defines enters the document layer and its
/// definition sites are recorded, then it is walked in a fresh scope.
pub open spec fn statement_step(st: PassModel, cfg: ValidationSettings, src: Seq<u8>, n: Node) -> PassModel {
    let st1 = with_catalog(st, ddl_catalog(st.catalog, 3, src, n));
    walk(with_scope(ddl_definitions(st1, n), Seq::empty()), cfg, src, n)
}

/// One item of a document: a statement, or a parse error reported at its
/// range.
pub open spec fn item_step(st: PassModel, cfg: ValidationSettings, src: Seq<u8>, it: ParseItem) -> PassModel {
    match it {
        ParseItem::Statement(n) => statement_step(st, cfg, src, n),
        ParseItem::Error { message, offset, length } => {
            let sp = error_span(offset, length, src.len());
            emitted(st, cfg, sp.0, sp.1, MessageView::Other(message@), None)
        },
    }
}

/// The state after every item of a document, in order.
pub open spec fn run_items(st: PassModel, cfg: ValidationSettings, src: Seq<u8>, items: Seq<ParseItem>) -> PassModel
    decreases items.len(),
{
    if items.len() == 0 {
        st
    } else {
        item_step(run_items(st, cfg, src, items.drop_last()), cfg, src, items.last())
    }
}

/// A pass that has recorded nothing yet.
pub open spec fn fresh_pass(catalog: Seq<LayerModel>) -> PassModel {
    PassModel { catalog, scope: Seq::empty(), diagnostics: Seq::empty(), resolutions: Seq::empty(), definitions: Seq::empty() }
}


// ── Laws ─────────────────────────────────────────────────────────────────────

/// Every diagnostic has the severity its category's level gives (so none
/// belongs to an allowed category).
pub open spec fn diagnostics_follow_levels(cfg: ValidationSettings, ds: Seq<DiagnosticView>) -> bool {
    forall|i: int| 0 <= i < ds.len() ==> level_severity(message_level(cfg.checks, #[trigger] ds[i].message)) == Some(ds[i].severity)
}

/// `b` extends `a`: the same diagnostics first, maybe more after.
pub open spec fn extends(a: Seq<DiagnosticView>, b: Seq<DiagnosticView>) -> bool {
    a.len() <= b.len() && b.take(a.len() as int) == a
}

/// What a step of the walk keeps: earlier diagnostics stay, new ones follow
/// the levels, the number of scope frames is the same, and the catalog is
/// restored.
pub open spec fn keeps(st0: PassModel, st1: PassModel, cfg: ValidationSettings) -> bool {
    &&& extends(st0.diagnostics, st1.diagnostics)
    &&& (diagnostics_follow_levels(cfg, st0.diagnostics) ==> diagnostics_follow_levels(cfg, st1.diagnostics))
    &&& st1.scope.len() == st0.scope.len()
    &&& (st0.catalog.len() >= 4 ==> st1.catalog == st0.catalog)
}

/// What walking CTE bindings keeps: as [`keeps`], except that the innermost
/// query scope of the catalog gains the CTEs.
pub open spec fn bindings_keep(st0: PassModel, st1: PassModel, cfg: ValidationSettings) -> bool {
    &&& extends(st0.diagnostics, st1.diagnostics)
    &&& (diagnostics_follow_levels(cfg, st0.diagnostics) ==> diagnostics_follow_levels(cfg, st1.diagnostics))
    &&& st1.scope.len() == st0.scope.len()
    &&& (st0.catalog.len() > 4 ==> st1.catalog.len() == st0.catalog.len() && st1.catalog.drop_last() == st0.catalog.drop_last())
}

proof fn lemma_extends_trans(a: Seq<DiagnosticView>, b: Seq<DiagnosticView>, c: Seq<DiagnosticView>)
    requires
        extends(a, b),
        extends(b, c),
    ensures
        extends(a, c),
{
    assert(c.take(a.len() as int) =~= c.take(b.len() as int).take(a.len() as int));
}

proof fn lemma_keeps_trans(a: PassModel, b: PassModel, c: PassModel, cfg: ValidationSettings)
    requires
        keeps(a, b, cfg),
        keeps(b, c, cfg),
    ensures
        keeps(a, c, cfg),
{
    lemma_extends_trans(a.diagnostics, b.diagnostics, c.diagnostics);
}

proof fn lemma_extends_refl(a: Seq<DiagnosticView>)
    ensures
        extends(a, a),
{
    assert(a.take(a.len() as int) =~= a);
}

/// Emitting keeps what a step must keep.
proof fn lemma_emitted_keeps(st: PassModel, cfg: ValidationSettings, start: usize, end: usize, m: MessageView, h: Option<Seq<char>>)
    ensures
        keeps(st, emitted(st, cfg, start, end, m, h), cfg),
{
    let st1 = emitted(st, cfg, start, end, m, h);
    lemma_extends_refl(st.diagnostics);
    if level_severity(message_level(cfg.checks, m)) is Some {
        assert(st1.diagnostics.take(st.diagnostics.len() as int) =~= st.diagnostics);
        if diagnostics_follow_levels(cfg, st.diagnostics) {
            assert forall|i: int| 0 <= i < st1.diagnostics.len() implies level_severity(
                message_level(cfg.checks, #[trigger] st1.diagnostics[i].message),
            ) == Some(st1.diagnostics[i].severity) by {
                if i < st.diagnostics.len() {
                    assert(st1.diagnostics[i] == st.diagnostics[i]);
                }
            }
        }
    }
}

/// A step that changes neither diagnostics, scope depth nor catalog keeps.
proof fn lemma_quiet_keeps(st0: PassModel, st1: PassModel, cfg: ValidationSettings)
    requires
        st1.diagnostics == st0.diagnostics,
        st1.scope.len() == st0.scope.len(),
        st1.catalog == st0.catalog,
    ensures
        keeps(st0, st1, cfg),
{
    lemma_extends_refl(st0.diagnostics);
}

/// Recording definition sites changes nothing else.
proof fn lemma_define_columns(st: PassModel, key: Seq<char>, sps: Seq<Span>)
    ensures
        define_columns(st, key, sps).diagnostics == st.diagnostics,
        define_columns(st, key, sps).scope == st.scope,
        define_columns(st, key, sps).catalog == st.catalog,
        define_columns(st, key, sps).resolutions == st.resolutions,
    decreases sps.len(),
{
    if sps.len() > 0 {
        lemma_define_columns(st, key, sps.drop_last());
    }
}

proof fn lemma_source_ref_keeps(st: PassModel, cfg: ValidationSettings, name: Span, alias: Span)
    ensures
        keeps(st, source_ref_step(st, cfg, name, alias), cfg),
{
    if name.text@.len() > 0 {
        let k = lower_chars(name.text@);
        let known = top_relation(st.catalog, k) is Some || top_table_function(st.catalog, k) is Some;
        if known {
            lemma_extends_refl(st.diagnostics);
        } else {
            lemma_emitted_keeps(
                st,
                cfg,
                name.offset,
                end_of(name),
                MessageView::UnknownTable { name: name.text@ },
                suggestion(name.text@, relation_candidates(st.catalog), cfg.suggestion_threshold as nat),
            );
        }
    } else {
        lemma_extends_refl(st.diagnostics);
    }
}

proof fn lemma_call_keeps(st: PassModel, cfg: ValidationSettings, name: Span, n: nat)
    ensures
        keeps(st, call_step(st, cfg, name, n), cfg),
{
    lemma_extends_refl(st.diagnostics);
    if name.text@.len() > 0 {
        match top_function(st.catalog, lower_chars(name.text@)) {
            None => lemma_emitted_keeps(
                st,
                cfg,
                name.offset,
                end_of(name),
                MessageView::UnknownFunction { name: name.text@ },
                suggestion(name.text@, function_candidates(st.catalog), cfg.suggestion_threshold as nat),
            ),
            Some(set) => if !(exists|i: int| 0 <= i < set.overloads.len() && accepts(#[trigger] set.overloads[i], n)) {
                lemma_emitted_keeps(
                    st,
                    cfg,
                    name.offset,
                    end_of(name),
                    MessageView::FunctionArity { name: name.text@, expected: fixed_arities(set.overloads), got: n as usize },
                    None,
                );
            },
        }
    }
}

proof fn lemma_column_ref_keeps(st: PassModel, cfg: ValidationSettings, column: Span, table: Span)
    ensures
        keeps(st, column_ref_step(st, cfg, column, table), cfg),
{
    lemma_extends_refl(st.diagnostics);
    if st.scope.len() > 0 && column.text@.len() > 0 {
        let t = qualifier(table);
        match column_resolution(st.scope, column.text@, t) {
            ResolutionView::TableFoundColumnMissing => lemma_emitted_keeps(
                st,
                cfg,
                column.offset,
                end_of(column),
                MessageView::UnknownColumn { column: column.text@, table: t },
                suggestion(column.text@, column_candidates(st.scope, t), cfg.suggestion_threshold as nat),
            ),
            ResolutionView::NotFound => lemma_emitted_keeps(
                st,
                cfg,
                column.offset,
                end_of(column),
                MessageView::UnknownColumn { column: column.text@, table: None },
                suggestion(column.text@, column_candidates(st.scope, None), cfg.suggestion_threshold as nat),
            ),
            _ => {},
        }
    }
}

proof fn lemma_binding_finish_keeps(
    st: PassModel,
    cfg: ValidationSettings,
    src: Seq<u8>,
    name: Span,
    columns: Seq<Span>,
    body: Option<Box<Node>>,
)
    ensures
        bindings_keep(st, binding_finish(st, cfg, src, name, columns, body), cfg),
{
    lemma_extends_refl(st.diagnostics);
    if name.text@.len() > 0 {
        let key = lower_chars(name.text@);
        let st1 = defined(st, key, (name.offset, end_of(name)));
        let named = named_spans(columns);
        if named.len() > 0 {
            let st_c = column_count_check(st1, cfg, name, named.len(), body);
            match body_column_count(body) {
                Some(actual) => if actual != named.len() {
                    lemma_emitted_keeps(
                        st1,
                        cfg,
                        name.offset,
                        end_of(name),
                        MessageView::CteColumnCountMismatch { name: name.text@, declared: named.len() as usize, actual: actual as usize },
                        None,
                    );
                },
                None => {},
            }
            lemma_define_columns(st_c, key, named);
            let st2 = define_columns(st_c, key, named);
            if body_column_count(body) is None || body_column_count(body) == Some(named.len()) {
                assert(st_c == st1);
            }
            assert(keeps(st1, st_c, cfg));
            assert(st_c.catalog == st.catalog);
            let c = catalog_with_query_table(st2.catalog, name.text@, Some(span_texts(named)));
            if st.catalog.len() > 4 {
                assert(c.drop_last() =~= st.catalog.drop_last());
            }
        } else {
            lemma_define_columns(st1, key, body_aliases(body));
            let st2 = define_columns(st1, key, body_aliases(body));
            let c = catalog_with_query_table(st2.catalog, name.text@, opt_select_columns(src, body));
            if st.catalog.len() > 4 {
                assert(c.drop_last() =~= st.catalog.drop_last());
            }
        }
    }
}

/// Walking a node keeps what a step must keep.
pub proof fn lemma_walk_keeps(st: PassModel, cfg: ValidationSettings, src: Seq<u8>, n: Node)
    ensures
        keeps(st, walk(st, cfg, src, n), cfg),
    decreases n,
{
    lemma_extends_refl(st.diagnostics);
    match n {
        Node::Plain { children, .. } => lemma_walk_all_keeps(st, cfg, src, children@),
        Node::CreateTable { select, .. } => lemma_walk_opt_keeps(st, cfg, src, select),
        Node::CreateView { select, .. } => lemma_walk_opt_keeps(st, cfg, src, select),
        Node::CreateFunction { select, .. } => lemma_walk_opt_keeps(st, cfg, src, select),
        Node::Opaque => {},
        Node::ResultColumn { expr, .. } => lemma_walk_opt_keeps(st, cfg, src, expr),
        Node::ColumnRef { column, table } => lemma_column_ref_keeps(st, cfg, column, table),
        Node::Call { name, args, rest } => {
            let st1 = call_step(st, cfg, name, args@.len());
            let st2 = walk_all(st1, cfg, src, args@);
            lemma_call_keeps(st, cfg, name, args@.len());
            lemma_walk_all_keeps(st1, cfg, src, args@);
            lemma_walk_all_keeps(st2, cfg, src, rest@);
            lemma_keeps_trans(st, st1, st2, cfg);
            lemma_keeps_trans(st, st2, walk_all(st2, cfg, src, rest@), cfg);
        },
        Node::SourceRef { name, alias } => lemma_source_ref_keeps(st, cfg, name, alias),
        Node::ScopedSource { body, alias } => {
            let st0 = with_scope(st, scope_push(st.scope));
            lemma_walk_opt_keeps(st0, cfg, src, body);
        },
        Node::Query { from, results, clauses } => {
            let st0 = with_scope(st, scope_push(st.scope));
            let st1 = walk_opt(st0, cfg, src, from);
            lemma_walk_opt_keeps(st0, cfg, src, from);
            let st2 = match results {
                Some(cs) => walk_all(st1, cfg, src, cs@),
                None => st1,
            };
            match results {
                Some(cs) => lemma_walk_all_keeps(st1, cfg, src, cs@),
                None => lemma_extends_refl(st1.diagnostics),
            }
            lemma_keeps_trans(st0, st1, st2, cfg);
            let st3 = aliases_step(st2, results);
            lemma_quiet_keeps(st2, st3, cfg);
            lemma_keeps_trans(st0, st2, st3, cfg);
            lemma_walk_all_keeps(st3, cfg, src, clauses@);
            lemma_keeps_trans(st0, st3, walk_all(st3, cfg, src, clauses@), cfg);
        },
        Node::CteScope { recursive, bindings, body } => {
            let st0 = with_catalog(st, catalog_push(st.catalog));
            let st1 = walk_bindings(st0, cfg, src, recursive, bindings@);
            lemma_walk_bindings_keeps(st0, cfg, src, recursive, bindings@);
            lemma_walk_opt_keeps(st1, cfg, src, body);
            let st2 = walk_opt(st1, cfg, src, body);
            lemma_extends_trans(st0.diagnostics, st1.diagnostics, st2.diagnostics);
            if st.catalog.len() >= 4 {
                assert(st0.catalog.drop_last() =~= st.catalog);
            }
        },
        Node::CteBinding { body, .. } => lemma_walk_opt_keeps(st, cfg, src, body),
        Node::TriggerScope { when, body } => {
            let fs = scope_with_table(
                scope_with_table(scope_push(st.scope), "OLD"@, None, RowIdPolicy::WithRowId),
                "NEW"@,
                None,
                RowIdPolicy::WithRowId,
            );
            let st0 = with_scope(st, fs);
            let st1 = walk_opt(st0, cfg, src, when);
            lemma_walk_opt_keeps(st0, cfg, src, when);
            lemma_walk_opt_keeps(st1, cfg, src, body);
            lemma_keeps_trans(st0, st1, walk_opt(st1, cfg, src, body), cfg);
        },
        Node::DmlScope { children } => {
            let st0 = with_scope(st, scope_push(st.scope));
            lemma_walk_all_keeps(st0, cfg, src, children@);
        },
    }
}

/// Walking a list keeps what a step must keep.
pub proof fn lemma_walk_all_keeps(st: PassModel, cfg: ValidationSettings, src: Seq<u8>, ns: Seq<Node>)
    ensures
        keeps(st, walk_all(st, cfg, src, ns), cfg),
    decreases ns,
{
    if ns.len() == 0 {
        lemma_extends_refl(st.diagnostics);
    } else {
        let prev = walk_all(st, cfg, src, ns.drop_last());
        lemma_walk_all_keeps(st, cfg, src, ns.drop_last());
        lemma_walk_keeps(prev, cfg, src, ns.last());
        lemma_keeps_trans(st, prev, walk(prev, cfg, src, ns.last()), cfg);
    }
}

/// Walking an optional node keeps what a step must keep.
pub proof fn lemma_walk_opt_keeps(st: PassModel, cfg: ValidationSettings, src: Seq<u8>, o: Option<Box<Node>>)
    ensures
        keeps(st, walk_opt(st, cfg, src, o), cfg),
    decreases o,
{
    match o {
        Some(n) => lemma_walk_keeps(st, cfg, src, *n),
        None => lemma_extends_refl(st.diagnostics),
    }
}

/// Walking CTE bindings keeps what it must keep.
pub proof fn lemma_walk_bindings_keeps(st: PassModel, cfg: ValidationSettings, src: Seq<u8>, recursive: bool, bs: Seq<Node>)
    ensures
        bindings_keep(st, walk_bindings(st, cfg, src, recursive, bs), cfg),
    decreases bs,
{
    lemma_extends_refl(st.diagnostics);
    if bs.len() > 0 {
        let st0 = walk_bindings(st, cfg, src, recursive, bs.drop_last());
        lemma_walk_bindings_keeps(st, cfg, src, recursive, bs.drop_last());
        match bs.last() {
            Node::CteBinding { name, columns, body } => {
                let st1 = binding_enter(st0, recursive, name, columns@);
                let st1p = with_scope(st1, scope_push(st1.scope));
                let st2 = walk_opt(st1p, cfg, src, body);
                lemma_walk_opt_keeps(st1p, cfg, src, body);
                let st3 = with_scope(st2, scope_pop(st2.scope));
                lemma_binding_finish_keeps(st3, cfg, src, name, columns@, body);
                let st4 = binding_finish(st3, cfg, src, name, columns@, body);
                lemma_extends_trans(st0.diagnostics, st2.diagnostics, st4.diagnostics);
                lemma_extends_trans(st.diagnostics, st0.diagnostics, st4.diagnostics);
                if st.catalog.len() > 4 {
                    assert(st1.catalog.len() == st0.catalog.len());
                    assert(st1.catalog.drop_last() =~= st0.catalog.drop_last());
                }
            },
            _ => {},
        }
    }
}

/// The walk only adds diagnostics, each with the severity its category's
/// level gives; it leaves the number of open query scopes as it found them,
/// and restores the catalog (the CTE scopes it opens are closed again).
pub proof fn law_walk_keeps_state(st: PassModel, cfg: ValidationSettings, src: Seq<u8>, n: Node)
    requires
        diagnostics_follow_levels(cfg, st.diagnostics),
        st.catalog.len() >= 4,
    ensures
        extends(st.diagnostics, walk(st, cfg, src, n).diagnostics),
        diagnostics_follow_levels(cfg, walk(st, cfg, src, n).diagnostics),
        walk(st, cfg, src, n).scope.len() == st.scope.len(),
        walk(st, cfg, src, n).catalog == st.catalog,
{
    lemma_walk_keeps(st, cfg, src, n);
}


/// Recording what a statement defines changes only the definition sites.
proof fn lemma_ddl_definitions(st: PassModel, n: Node)
    ensures
        ddl_definitions(st, n).diagnostics == st.diagnostics,
        ddl_definitions(st, n).catalog == st.catalog,
{
    match ddl_name_site(n) {
        Some((key, site)) => {
            let cols = match n {
                Node::CreateTable { columns, .. } => named_spans(columns@),
                Node::CreateView { columns, .. } => named_spans(columns@),
                _ => Seq::empty(),
            };
            lemma_define_columns(st, key, cols);
        },
        None => {},
    }
}

/// Running a document only adds diagnostics, each following the levels.
proof fn lemma_run_items_follow(st: PassModel, cfg: ValidationSettings, src: Seq<u8>, items: Seq<ParseItem>)
    requires
        diagnostics_follow_levels(cfg, st.diagnostics),
    ensures
        extends(st.diagnostics, run_items(st, cfg, src, items).diagnostics),
        diagnostics_follow_levels(cfg, run_items(st, cfg, src, items).diagnostics),
    decreases items.len(),
{
    if items.len() == 0 {
        lemma_extends_refl(st.diagnostics);
    } else {
        let prev = run_items(st, cfg, src, items.drop_last());
        lemma_run_items_follow(st, cfg, src, items.drop_last());
        match items.last() {
            ParseItem::Statement(n) => {
                let st1 = with_catalog(prev, ddl_catalog(prev.catalog, 3, src, n));
                lemma_ddl_definitions(st1, n);
                let st2 = with_scope(ddl_definitions(st1, n), Seq::empty());
                lemma_walk_keeps(st2, cfg, src, n);
                lemma_extends_trans(st.diagnostics, prev.diagnostics, walk(st2, cfg, src, n).diagnostics);
            },
            ParseItem::Error { message, offset, length } => {
                let sp = error_span(offset, length, src.len());
                lemma_emitted_keeps(prev, cfg, sp.0, sp.1, MessageView::Other(message@), None);
                lemma_extends_trans(st.diagnostics, prev.diagnostics, item_step(prev, cfg, src, items.last()).diagnostics);
            },
        }
    }
}

/// Severity is determined entirely by the check level: every diagnostic of
/// an analysis has the severity its category's level gives, so none
/// belongs to a category set to `allow`.
pub proof fn law_diagnostics_follow_levels(catalog: Seq<LayerModel>, cfg: ValidationSettings, src: Seq<u8>, items: Seq<ParseItem>)
    ensures
        diagnostics_follow_levels(cfg, run_items(fresh_pass(catalog), cfg, src, items).diagnostics),
{
    lemma_run_items_follow(fresh_pass(catalog), cfg, src, items);
}

/// With every category allowed, an analysis reports nothing.
pub proof fn law_allow_all_is_silent(catalog: Seq<LayerModel>, cfg: ValidationSettings, src: Seq<u8>, items: Seq<ParseItem>)
    requires
        cfg.checks == with_all_spec(CheckLevel::Allow),
    ensures
        run_items(fresh_pass(catalog), cfg, src, items).diagnostics.len() == 0,
{
    let ds = run_items(fresh_pass(catalog), cfg, src, items).diagnostics;
    lemma_run_items_follow(fresh_pass(catalog), cfg, src, items);
    if ds.len() > 0 {
        assert(level_severity(message_level(cfg.checks, ds[0].message)) == Some(ds[0].severity));
    }
}

/// A table a statement creates, temporary or not, is a known relation for
/// every statement after it (the walk of the statement itself leaves the
/// catalog as the definition made it).
pub proof fn law_created_table_is_visible_afterwards(
    st: PassModel,
    cfg: ValidationSettings,
    src: Seq<u8>,
    name: Span,
    columns: Vec<Span>,
    select: Option<Box<Node>>,
    without_rowid: bool,
    temporary: bool,
    query: Seq<char>,
)
    requires
        st.catalog.len() >= 4,
        layer_wf(st.catalog[2]),
        layer_wf(st.catalog[3]),
        name.text@.len() > 0,
        same_ignoring_case(name.text@, query),
    ensures
        top_relation(
            statement_step(st, cfg, src, Node::CreateTable { name, columns, select, without_rowid, temporary }).catalog,
            lower_chars(query),
        ) is Some,
{
    let n = Node::CreateTable { name, columns, select, without_rowid, temporary };
    let st1 = with_catalog(st, ddl_catalog(st.catalog, 3, src, n));
    lemma_ddl_definitions(st1, n);
    let st2 = with_scope(ddl_definitions(st1, n), Seq::empty());
    lemma_walk_keeps(st2, cfg, src, n);
    law_registered_relation_resolves(
        st.catalog,
        crate::ddl::ddl_target(3, n),
        name.text@,
        crate::ddl::ddl_columns(src, columns@, select),
        without_rowid,
        false,
        query,
    );
}


/// A FROM source with no relation or table-valued function behind it has
/// no known columns.
proof fn lemma_unknown_source_columns(ls: Seq<LayerModel>, k: Seq<char>)
    requires
        top_relation(ls, k) is None,
        top_table_function(ls, k) is None,
    ensures
        table_source_columns(ls, k) is None,
        table_source_without_rowid(ls, k) == false,
    decreases ls.len(),
{
    if ls.len() > 0 {
        lemma_unknown_source_columns(ls.drop_last(), k);
    }
}

/// A table reference that names no known relation or table-valued function
/// makes the table active with unknown columns: afterwards no column
/// reference checked against it, qualified by its alias (or name) or
/// unqualified, is reported missing.
pub proof fn law_unknown_table_accepts_every_column(
    st: PassModel,
    cfg: ValidationSettings,
    name: Span,
    alias: Span,
    column: Seq<char>,
    table: Option<Seq<char>>,
)
    requires
        st.scope.len() > 0,
        keys_unique(st.scope.last().named),
        name.text@.len() > 0,
        top_relation(st.catalog, lower_chars(name.text@)) is None,
        top_table_function(st.catalog, lower_chars(name.text@)) is None,
        table matches Some(t) ==> same_ignoring_case(t, if alias.text@.len() == 0 { name.text@ } else { alias.text@ }),
    ensures
        column_resolution(source_ref_step(st, cfg, name, alias).scope, column, table) is Found,
{
    let k = lower_chars(name.text@);
    lemma_unknown_source_columns(st.catalog, k);
    let scope_name = if alias.text@.len() == 0 {
        name.text@
    } else {
        alias.text@
    };
    let entry = ActiveView { columns: None, rowid: RowIdPolicy::WithRowId };
    let st1 = emitted(
        st,
        cfg,
        name.offset,
        end_of(name),
        MessageView::UnknownTable { name: name.text@ },
        suggestion(name.text@, relation_candidates(st.catalog), cfg.suggestion_threshold as nat),
    );
    let fs = st1.scope;
    assert(fs == st.scope);
    let fs1 = scope_with_table(fs, scope_name, None, RowIdPolicy::WithRowId);
    assert(source_ref_step(st, cfg, name, alias).scope == fs1);
    match table {
        Some(t) => {
            law_registered_table_answers_qualified(fs, scope_name, entry, t, column);
        },
        None => {
            let named = assoc_insert(fs.last().named, lower_chars(scope_name), entry);
            lemma_assoc_insert(fs.last().named, lower_chars(scope_name), entry);
            lemma_last_index_of(named, lower_chars(scope_name));
            let j = last_index_of(named, lower_chars(scope_name));
            assert(fs1.last().named == named);
            assert(frame_sources(fs1.last())[j] == named[j]);
            law_unknown_columns_block_outer_frames(fs1, column, j);
        },
    }
}

/// The aliases of a query's result columns are visible to its later
/// clauses: right after they are registered, each resolves unqualified.
pub proof fn law_select_aliases_resolve(st: PassModel, results: Option<Vec<Node>>, i: int)
    requires
        st.scope.len() > 0,
        keys_unique(st.scope.last().named),
        0 <= i < result_aliases(results).len(),
    ensures
        column_resolution(aliases_step(st, results).scope, result_aliases(results)[i].text@, None) is Found,
{
    let aliases = span_texts(result_aliases(results));
    let entry = ActiveView { columns: Some(aliases), rowid: RowIdPolicy::WithRowId };
    let fs = st.scope;
    let key = lower_chars(Seq::<char>::empty());
    let named = assoc_insert(fs.last().named, key, entry);
    let fs1 = scope_with_table(fs, Seq::empty(), Some(aliases), RowIdPolicy::WithRowId);
    assert(aliases.len() > 0);
    assert(aliases_step(st, results).scope == fs1);
    lemma_assoc_insert(fs.last().named, key, entry);
    lemma_last_index_of(named, key);
    let j = last_index_of(named, key);
    assert(fs1.last().named == named);
    assert(frame_sources(fs1.last())[j] == named[j]);
    let c = result_aliases(results)[i].text@;
    assert(aliases[i] == c);
    assert(same_ignoring_case(aliases[i], c));
    assert(has_column(aliases, c));
    law_accepting_source_resolves_unqualified(fs1, c, j);
}

} // verus!
