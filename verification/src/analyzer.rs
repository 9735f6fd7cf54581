//! The semantic analyzer's configuration and the query scope it keeps while
//! walking a statement.

use vstd::prelude::*;

use crate::catalog::{
    law_promotion_keeps_document_entries, layer_wf, lemma_top_relation_some, top_relation, any_column_matches, columns_view, dialect_layer, empty_layer, merged_layer, CatalogLayer, has_column, is_rowid_alias, is_rowid_alias_spec,
    opt_str_view, AritySpec, Catalog, ColumnResolution, LayerModel, ResolutionView,
};
use crate::config::{AnalysisMode, ValidationConfig, ValidationSettings};
use crate::ddl::ddl_name_offset;
use crate::diagnostics::DiagnosticMessage;
use crate::lineage::{lineage_view, QueryLineage, QueryLineageView};
use crate::model::{ModelView, SemanticModel};
use crate::resolver::{compute_lineage, statement_lineage};
use crate::pass::{
    ddl_definitions, define_span_columns, error_position_ok, errors_ok, fresh_pass, parse_error_span, run_items, statement_step,
    visit, with_catalog, PassModel, PassState,
};
use crate::tree::{items_fit, node_fits, Node, ParseItem};
use crate::diagnostics::{decimal, usize_to_string};
use crate::dialect::{BuiltinFunction, Dialect};
use crate::table::{assoc_insert, copy_strings, lemma_assoc_insert, lookup, NameTable};
use crate::text::{
    add_to_key_summary, ascii_lowercase, eq_ignore_ascii_case, is_key_summary, lemma_key_summary_empty, lower_chars,
    same_ignoring_case, string_views, utf8,
};

verus! {

// ── Analyzer ────────────────────────────────────────────────────────────────

/// The analyzer's state as plain values.
pub struct AnalyzerView {
    /// The layers of the analyzer's own catalog.
    pub catalog: Seq<LayerModel>,
    /// Document or execute mode.
    pub mode: AnalysisMode,
    /// Whether unregistered `name!(args)` calls are treated as macros.
    pub macro_fallback: bool,
}

/// Semantic analyzer: a dialect, a catalog that accumulates DDL across
/// passes, and the analysis mode.
pub struct SemanticAnalyzer {
    dialect: Dialect,
    catalog: Catalog,
    mode: AnalysisMode,
    macro_fallback: bool,
}

impl View for SemanticAnalyzer {
    type V = AnalyzerView;

    closed spec fn view(&self) -> AnalyzerView {
        AnalyzerView { catalog: self.catalog@, mode: self.mode, macro_fallback: self.macro_fallback }
    }
}

impl SemanticAnalyzer {
    /// The analyzer's catalog is consistent.
    pub closed spec fn wf(&self) -> bool {
        self.catalog.wf()
    }

    /// The built-in functions of the analyzer's dialect.
    pub closed spec fn dialect_functions(&self) -> Seq<BuiltinFunction> {
        self.dialect.functions()
    }

    /// The analyzer's internal catalog (includes DDL from the last analysis).
    pub fn catalog(&self) -> (r: &Catalog)
        requires
            self.wf(),
        ensures
            r.wf(),
            r@ == self@.catalog,
    {
        &self.catalog
    }

    /// Create an analyzer bound to a specific dialect: its catalog holds the
    /// dialect's built-ins, the mode is `Document` and macro fallback is off.
    pub fn with_dialect(dialect: Dialect) -> (r: Self)
        ensures
            r.wf(),
            r.dialect_functions() == dialect.functions(),
            r@ == (AnalyzerView {
                catalog: seq![dialect_layer(dialect.functions()), empty_layer(), empty_layer(), empty_layer()],
                mode: AnalysisMode::Document,
                macro_fallback: false,
            }),
    {
        let catalog = Catalog::new(&dialect);
        SemanticAnalyzer { dialect, catalog, mode: AnalysisMode::Document, macro_fallback: false }
    }

    /// Set the analysis mode (builder pattern).
    pub fn with_mode(self, mode: AnalysisMode) -> (r: Self)
        requires
            self.wf(),
        ensures
            r.wf(),
            r.dialect_functions() == self.dialect_functions(),
            r@ == (AnalyzerView { mode, ..self@ }),
    {
        let mut a = self;
        a.mode = mode;
        a
    }

    /// Set the analysis mode on an existing analyzer.
    pub fn set_mode(&mut self, mode: AnalysisMode)
        requires
            old(self).wf(),
        ensures
            final(self).wf(),
            final(self).dialect_functions() == old(self).dialect_functions(),
            final(self)@ == (AnalyzerView { mode, ..old(self)@ }),
    {
        self.mode = mode;
    }

    /// Enable or disable macro fallback (builder pattern).
    pub fn with_macro_fallback(self, enabled: bool) -> (r: Self)
        requires
            self.wf(),
        ensures
            r.wf(),
            r.dialect_functions() == self.dialect_functions(),
            r@ == (AnalyzerView { macro_fallback: enabled, ..self@ }),
    {
        let mut a = self;
        a.macro_fallback = enabled;
        a
    }

    /// The dialect this analyzer was constructed for.
    pub fn dialect(&self) -> (r: &Dialect)
        ensures
            r.functions() == self.dialect_functions(),
    {
        &self.dialect
    }
}

/// The catalog an analysis pass starts from: the analyzer's own layers with
/// an empty document layer and no query scope, and the user catalog's
/// database layer (and, in document mode, its connection layer too).
pub open spec fn document_start(own: Seq<LayerModel>, mode: AnalysisMode, user: Seq<LayerModel>) -> Seq<LayerModel> {
    let c = seq![own[0], own[1], own[2], empty_layer()];
    match mode {
        AnalysisMode::Document => c.update(1, user[1]).update(2, user[2]),
        AnalysisMode::Execute => c.update(1, user[1]),
    }
}

/// What the analyzer's catalog keeps after a pass: in execute mode the
/// document's definitions join the connection layer.
pub open spec fn after_pass(fin: Seq<LayerModel>, mode: AnalysisMode) -> Seq<LayerModel> {
    match mode {
        AnalysisMode::Execute => fin.update(2, merged_layer(fin[2], fin[3])),
        AnalysisMode::Document => fin,
    }
}

/// The result of a pass as plain values.
pub open spec fn model_of(source: Seq<char>, fin: PassModel, lineage: Option<QueryLineageView>) -> ModelView {
    ModelView { source, diagnostics: fin.diagnostics, resolutions: fin.resolutions, definitions: fin.definitions, lineage }
}

/// The lineage of a statement when it is a query, else the one kept before.
pub open spec fn newer_lineage(new: Option<QueryLineageView>, kept: Option<QueryLineageView>) -> Option<QueryLineageView> {
    match new {
        Some(l) => Some(l),
        None => kept,
    }
}

/// The lineage a document leaves: that of its last statement that is a
/// query, resolved against the catalog as it stands after that statement.
pub open spec fn items_lineage(st: PassModel, cfg: ValidationSettings, src: Seq<u8>, items: Seq<ParseItem>) -> Option<QueryLineageView>
    decreases items.len(),
{
    if items.len() == 0 {
        None
    } else {
        let kept = items_lineage(st, cfg, src, items.drop_last());
        match items.last() {
            ParseItem::Statement(n) => newer_lineage(statement_lineage(src, run_items(st, cfg, src, items).catalog, n), kept),
            ParseItem::Error { .. } => kept,
        }
    }
}

impl SemanticAnalyzer {
    /// Run a complete analysis of a parsed document: each statement's
    /// definitions become visible to the statements after it, and every
    /// reference is checked against the user catalog's schema and the
    /// dialect's built-ins.
    ///
    /// `user_catalog` supplies the database layer (and, in document mode,
    /// the connection layer). In [`AnalysisMode::Execute`], what the
    /// document defines is kept in the connection layer for later calls.
    pub fn analyze(&mut self, source: &str, items: &Vec<ParseItem>, user_catalog: &Catalog, config: &ValidationConfig) -> (r: SemanticModel)
        requires
            old(self).wf(),
            user_catalog.wf(),
            items_fit(utf8(source@), items@),
            errors_ok(items@, utf8(source@).len()),
            utf8(source@).len() <= usize::MAX,
        ensures
            final(self).wf(),
            r.wf(),
            final(self).dialect_functions() == old(self).dialect_functions(),
            ({
                let start = fresh_pass(document_start(old(self)@.catalog, old(self)@.mode, user_catalog@));
                let fin = run_items(start, config@, utf8(source@), items@);
                &&& r@ == model_of(source@, fin, items_lineage(start, config@, utf8(source@), items@))
                &&& final(self)@ == AnalyzerView { catalog: after_pass(fin.catalog, old(self)@.mode), ..old(self)@ }
            }),
    {
        proof {
            self.catalog.lemma_fixed_layers();
        }
        self.catalog.new_document();
        match self.mode {
            AnalysisMode::Document => {
                self.catalog.copy_schema_layers_from(user_catalog);
            },
            AnalysisMode::Execute => {
                self.catalog.copy_database_from(user_catalog);
            },
        }
        assert(self.catalog@ =~= document_start(old(self)@.catalog, old(self)@.mode, user_catalog@));
        let model = self.analyze_inner(source, items, config);
        if self.mode == AnalysisMode::Execute {
            self.catalog.promote_document_to_connection();
        }
        model
    }

    fn analyze_inner(&mut self, source: &str, items: &Vec<ParseItem>, config: &ValidationConfig) -> (r: SemanticModel)
        requires
            old(self).wf(),
            items_fit(utf8(source@), items@),
            errors_ok(items@, utf8(source@).len()),
            utf8(source@).len() <= usize::MAX,
        ensures
            final(self).wf(),
            r.wf(),
            final(self).dialect_functions() == old(self).dialect_functions(),
            final(self)@.mode == old(self)@.mode,
            final(self)@.macro_fallback == old(self)@.macro_fallback,
            ({
                let start = fresh_pass(old(self)@.catalog);
                let fin = run_items(start, config@, utf8(source@), items@);
                &&& r@ == model_of(source@, fin, items_lineage(start, config@, utf8(source@), items@))
                &&& final(self)@.catalog == fin.catalog
            }),
    {
        let ghost src = utf8(source@);
        let ghost start = fresh_pass(self.catalog@);
        let mut st = PassState::new();
        assert(st.model(self.catalog@) == start);
        let mut lineage: Option<QueryLineage> = None;
        let mut i: usize = 0;
        while i < items.len()
            invariant
                0 <= i <= items@.len(),
                self.wf(),
                st.wf(),
                src == utf8(source@),
                items_fit(src, items@),
                errors_ok(items@, src.len()),
                src.len() <= usize::MAX,
                self.dialect_functions() == old(self).dialect_functions(),
                self@.mode == old(self)@.mode,
                self@.macro_fallback == old(self)@.macro_fallback,
                st.model(self.catalog@) == run_items(start, config@, src, items@.take(i as int)),
                lineage_view(lineage) == items_lineage(start, config@, src, items@.take(i as int)),
            decreases items@.len() - i,
        {
            assert(items@.take(i + 1).drop_last() =~= items@.take(i as int));
            assert(items@.take(i + 1).last() == items@[i as int]);
            match &items[i] {
                ParseItem::Statement(n) => {
                    assert(items@[i as int] matches ParseItem::Statement(n) ==> node_fits(src, n));
                    self.analyze_statement(&mut st, &mut lineage, source, n, config);
                    proof {
                        st.lemma_model(self.catalog@, self.catalog@);
                    }
                },
                ParseItem::Error { message, offset, length } => {
                    assert(items@[i as int] matches ParseItem::Error { offset, length, .. } ==> error_position_ok(
                        offset,
                        length,
                        src.len(),
                    ));
                    let (start_offset, end_offset) = parse_error_span(*offset, *length, source.len());
                    st.emit(config, start_offset, end_offset, DiagnosticMessage::Other(message.clone()), None);
                },
            }
            i += 1;
        }
        assert(items@.take(i as int) =~= items@);
        let ghost fin = st.model(self.catalog@);
        proof {
            st.lemma_model(self.catalog@, self.catalog@);
        }
        let (diagnostics, resolutions, definitions) = st.into_parts();
        SemanticModel::new(source.to_owned(), diagnostics, resolutions, definitions, lineage)
    }

    /// One statement (see [`statement_step`]).
    fn analyze_statement(
        &mut self,
        st: &mut PassState,
        lineage: &mut Option<QueryLineage>,
        source: &str,
        node: &Node,
        config: &ValidationConfig,
    )
        requires
            old(self).wf(),
            old(st).wf(),
            node_fits(utf8(source@), *node),
            utf8(source@).len() <= usize::MAX,
        ensures
            final(self).wf(),
            final(st).wf(),
            final(self).dialect_functions() == old(self).dialect_functions(),
            final(self)@.mode == old(self)@.mode,
            final(self)@.macro_fallback == old(self)@.macro_fallback,
            final(st).model(final(self)@.catalog) == statement_step(old(st).model(old(self)@.catalog), config@, utf8(source@), *node),
            lineage_view(*final(lineage)) == newer_lineage(
                statement_lineage(utf8(source@), final(self)@.catalog, *node),
                lineage_view(*old(lineage)),
            ),
    {
        let ghost src = utf8(source@);
        let ghost st0 = st.model(self.catalog@);
        proof {
            self.catalog.lemma_fixed_layers();
        }
        self.catalog.accumulate_ddl(CatalogLayer::Document, source, node);
        let ghost st1 = with_catalog(st0, self.catalog@);
        proof {
            st.lemma_model(old(self)@.catalog, self.catalog@);
        }
        assert(st.model(self.catalog@) == st1);
        match ddl_name_offset(source, node) {
            Some((table_name, site)) => {
                match node {
                    Node::CreateTable { columns, .. } => {
                        define_span_columns(st, &table_name, columns, Ghost(src));
                    },
                    Node::CreateView { columns, .. } => {
                        define_span_columns(st, &table_name, columns, Ghost(src));
                    },
                    _ => {},
                }
                st.define(table_name, site);
            },
            None => {},
        }
        assert(st.model(self.catalog@) == ddl_definitions(st1, *node));
        st.reset_scope();
        visit(st, &mut self.catalog, config, source, node);
        match compute_lineage(source, &self.catalog, node) {
            Some(l) => {
                *lineage = Some(l);
            },
            None => {},
        }
    }
}

// ── Function signature text ─────────────────────────────────────────────────

/// `["arg1", "arg2", ..., "argn"]`.
pub open spec fn arg_names(n: nat) -> Seq<Seq<char>> {
    Seq::new(n, |i: int| "arg"@ + decimal((i + 1) as nat))
}

/// The parts separated by `", "`.
pub open spec fn comma_joined(parts: Seq<Seq<char>>) -> Seq<char>
    decreases parts.len(),
{
    if parts.len() == 0 {
        Seq::empty()
    } else if parts.len() == 1 {
        parts[0]
    } else {
        comma_joined(parts.drop_last()) + ", "@ + parts.last()
    }
}

/// A call signature for display: `f(arg1, arg2)`, `f(arg1, ...)` or `f(...)`.
pub open spec fn arity_signature(name: Seq<char>, arity: AritySpec) -> Seq<char> {
    match arity {
        AritySpec::Exact(n) => name + "("@ + comma_joined(arg_names(n as nat)) + ")"@,
        AritySpec::AtLeast(n) => name + "("@ + comma_joined(arg_names(n as nat).push("..."@)) + ")"@,
        AritySpec::Any => name + "(...)"@,
    }
}

/// Render a call signature such as `substr(arg1, arg2)` or `printf(arg1, ...)`.
pub fn format_arity(name: &str, arity: AritySpec) -> (r: String)
    ensures
        r@ == arity_signature(name@, arity),
{
    let mut s = String::from_str(name);
    match arity {
        AritySpec::Any => {
            s.append("(...)");
            return s;
        },
        _ => {},
    }
    let (n, open) = match arity {
        AritySpec::Exact(n) => (n, false),
        AritySpec::AtLeast(n) => (n, true),
        AritySpec::Any => (0, false),
    };
    s.append("(");
    let ghost args = arg_names(n as nat);
    let mut i: usize = 0;
    while i < n
        invariant
            0 <= i <= n,
            args == arg_names(n as nat),
            s@ == name@ + "("@ + comma_joined(args.take(i as int)),
        decreases n - i,
    {
        if i > 0 {
            s.append(", ");
        }
        s.append("arg");
        let digits = usize_to_string(i + 1);
        s.append(digits.as_str());
        proof {
            assert(args.take(i + 1).drop_last() =~= args.take(i as int));
            assert(args.take(i + 1).last() == "arg"@ + decimal((i + 1) as nat));
            assert(args.take(i + 1).last() =~= "arg"@ + digits@);
        }
        i += 1;
    }
    assert(args.take(i as int) =~= args);
    if open {
        if n > 0 {
            s.append(", ");
        }
        s.append("...");
        proof {
            let all = args.push("..."@);
            assert(all.drop_last() =~= args);
        }
    }
    s.append(")");
    s
}


// ── Query scope ─────────────────────────────────────────────────────────────

/// Whether a table has an implicit rowid column.
#[derive(Debug, Clone, Copy, PartialEq, Eq, Structural)]
pub enum RowIdPolicy {
    /// Normal table — `rowid`, `oid`, `_rowid_` are valid implicit columns.
    WithRowId,
    /// WITHOUT ROWID table — no implicit rowid column exists.
    WithoutRowId,
}

impl From<bool> for RowIdPolicy {
    fn from(without_rowid: bool) -> (r: Self) {
        if without_rowid {
            RowIdPolicy::WithoutRowId
        } else {
            RowIdPolicy::WithRowId
        }
    }
}

impl vstd::std_specs::convert::FromSpecImpl<bool> for RowIdPolicy {
    open spec fn obeys_from_spec() -> bool {
        true
    }

    open spec fn from_spec(v: bool) -> Self {
        if v {
            RowIdPolicy::WithoutRowId
        } else {
            RowIdPolicy::WithRowId
        }
    }
}

/// A table active in a query scope, as plain values.
pub struct ActiveView {
    /// The known columns; `None` when the table's columns are unknown.
    pub columns: Option<Seq<Seq<char>>>,
    /// Whether the table has an implicit rowid.
    pub rowid: RowIdPolicy,
}

/// A table entry in the query scope.
pub struct ActiveTable {
    /// `None` = table exists but column list is unknown (accept any ref).
    columns: Option<Vec<String>>,
    rowid: RowIdPolicy,
}

impl View for ActiveTable {
    type V = ActiveView;

    closed spec fn view(&self) -> ActiveView {
        ActiveView { columns: columns_view(self.columns), rowid: self.rowid }
    }
}

/// The table accepts `column`: it is one of its known columns (ignoring
/// case), its implicit rowid, or its columns are unknown.
pub open spec fn active_has_column(t: ActiveView, column: Seq<char>) -> bool {
    match t.columns {
        Some(cols) => has_column(cols, column) || (t.rowid == RowIdPolicy::WithRowId && is_rowid_alias_spec(column)),
        None => true,
    }
}

/// The known columns, or none.
pub open spec fn columns_or_empty(c: Option<Seq<Seq<char>>>) -> Seq<Seq<char>> {
    match c {
        Some(v) => v,
        None => Seq::empty(),
    }
}

impl ActiveTable {
    /// Does this table have `column` (by name or implicit rowid)?
    pub fn has_column(&self, column: &str) -> (r: bool)
        ensures
            r == active_has_column(self@, column@),
    {
        match &self.columns {
            Some(cs) => any_column_matches(cs, column) || (self.rowid == RowIdPolicy::WithRowId && is_rowid_alias(column)),
            None => true,
        }
    }

    fn columns_copy(&self) -> (r: Vec<String>)
        ensures
            string_views(r@) == columns_or_empty(self@.columns),
    {
        match &self.columns {
            Some(cs) => copy_strings(cs),
            None => {
                let v: Vec<String> = Vec::new();
                assert(string_views(v@) =~= Seq::<Seq<char>>::empty());
                v
            },
        }
    }
}

/// One scope frame as plain values.
pub struct FrameModel {
    /// Named tables and aliases, keyed by lowercase name, in insertion order.
    pub named: Seq<(Seq<char>, ActiveView)>,
    /// Anonymous sources (unaliased subqueries), in insertion order.
    pub anonymous: Seq<ActiveView>,
}

/// A frame with no sources.
pub open spec fn empty_frame() -> FrameModel {
    FrameModel { named: Seq::empty(), anonymous: Seq::empty() }
}

/// A single scope frame: named tables plus anonymous sources.
struct ScopeFrame {
    named: NameTable<ActiveTable>,
    anonymous: Vec<ActiveTable>,
}

impl View for ScopeFrame {
    type V = FrameModel;

    closed spec fn view(&self) -> FrameModel {
        FrameModel { named: self.named.entries(), anonymous: self.anonymous@.map_values(|t: ActiveTable| t@) }
    }
}

/// The sources of a frame in resolution order: named tables, then
/// anonymous sources (with an empty name).
pub open spec fn frame_sources(f: FrameModel) -> Seq<(Seq<char>, ActiveView)> {
    f.named + f.anonymous.map_values(|a: ActiveView| (Seq::<char>::empty(), a))
}

/// `j` is the first source in `srcs` that accepts `column`.
pub open spec fn first_source_having(srcs: Seq<(Seq<char>, ActiveView)>, column: Seq<char>, j: int) -> bool {
    &&& 0 <= j < srcs.len()
    &&& active_has_column(srcs[j].1, column)
    &&& forall|k: int| 0 <= k < j ==> !active_has_column(#[trigger] srcs[k].1, column)
}

/// How an unqualified column resolves within one frame, if it does.
pub open spec fn frame_resolution(f: FrameModel, column: Seq<char>) -> Option<ResolutionView> {
    let srcs = frame_sources(f);
    if exists|j: int| first_source_having(srcs, column, j) {
        let j = choose|j: int| first_source_having(srcs, column, j);
        Some(ResolutionView::Found { table: srcs[j].0, all_columns: columns_or_empty(srcs[j].1.columns) })
    } else {
        None
    }
}

/// Unqualified resolution against frames `0..i`, innermost (highest) first.
pub open spec fn scope_unqualified(fs: Seq<FrameModel>, i: int, column: Seq<char>) -> ResolutionView
    decreases i,
{
    if i <= 0 {
        ResolutionView::NotFound
    } else {
        match frame_resolution(fs[i - 1], column) {
            Some(r) => r,
            None => scope_unqualified(fs, i - 1, column),
        }
    }
}

/// Qualified resolution against frames `0..i`: the innermost frame naming
/// the table decides.
pub open spec fn scope_qualified(fs: Seq<FrameModel>, i: int, table: Seq<char>, column: Seq<char>) -> ResolutionView
    decreases i,
{
    if i <= 0 {
        ResolutionView::TableNotFound
    } else {
        match lookup(fs[i - 1].named, lower_chars(table)) {
            Some(e) => if active_has_column(e, column) {
                ResolutionView::Found { table, all_columns: columns_or_empty(e.columns) }
            } else {
                ResolutionView::TableFoundColumnMissing
            },
            None => scope_qualified(fs, i - 1, table, column),
        }
    }
}

/// The lowercase known columns of the named entries passing the filter, in
/// order.
pub open spec fn named_column_names(es: Seq<(Seq<char>, ActiveView)>, table: Option<Seq<char>>) -> Seq<Seq<char>>
    decreases es.len(),
{
    if es.len() == 0 {
        Seq::empty()
    } else {
        let e = es.last();
        named_column_names(es.drop_last(), table) + if (table matches Some(t) ==> same_ignoring_case(e.0, t)) && e.1.columns is Some {
            e.1.columns->0.map_values(|c: Seq<char>| lower_chars(c))
        } else {
            Seq::empty()
        }
    }
}

/// The lowercase known columns of anonymous sources, in order.
pub open spec fn anonymous_column_names(ts: Seq<ActiveView>) -> Seq<Seq<char>>
    decreases ts.len(),
{
    if ts.len() == 0 {
        Seq::empty()
    } else {
        anonymous_column_names(ts.drop_last()) + match ts.last().columns {
            Some(cols) => cols.map_values(|c: Seq<char>| lower_chars(c)),
            None => Seq::empty(),
        }
    }
}

/// The lowercase column names a frame offers: its named tables passing the
/// filter, and its anonymous sources when there is no filter.
pub open spec fn frame_column_names(f: FrameModel, table: Option<Seq<char>>) -> Seq<Seq<char>> {
    named_column_names(f.named, table) + if table is None {
        anonymous_column_names(f.anonymous)
    } else {
        Seq::empty()
    }
}

/// The column names of frames `i..`, innermost first.
pub open spec fn scope_column_names_from(fs: Seq<FrameModel>, i: int, table: Option<Seq<char>>) -> Seq<Seq<char>>
    decreases fs.len() - i,
{
    if i < 0 || i >= fs.len() {
        Seq::empty()
    } else {
        scope_column_names_from(fs, i + 1, table) + frame_column_names(fs[i], table)
    }
}

/// The scope with a new, empty innermost frame.
pub open spec fn scope_push(fs: Seq<FrameModel>) -> Seq<FrameModel> {
    fs.push(empty_frame())
}

/// The scope without its innermost frame (unchanged when empty).
pub open spec fn scope_pop(fs: Seq<FrameModel>) -> Seq<FrameModel> {
    if fs.len() > 0 {
        fs.drop_last()
    } else {
        fs
    }
}

/// The scope after registering a named table in its innermost frame
/// (unchanged without a frame).
pub open spec fn scope_with_table(
    fs: Seq<FrameModel>,
    name: Seq<char>,
    columns: Option<Seq<Seq<char>>>,
    rowid: RowIdPolicy,
) -> Seq<FrameModel> {
    if fs.len() > 0 {
        fs.update(
            fs.len() - 1,
            FrameModel { named: assoc_insert(fs.last().named, lower_chars(name), ActiveView { columns, rowid }), ..fs.last() },
        )
    } else {
        fs
    }
}

/// The scope after registering an anonymous source in its innermost frame
/// (unchanged without a frame).
pub open spec fn scope_with_anonymous(fs: Seq<FrameModel>, columns: Option<Seq<Seq<char>>>) -> Seq<FrameModel> {
    if fs.len() > 0 {
        fs.update(
            fs.len() - 1,
            FrameModel {
                anonymous: fs.last().anonymous.push(ActiveView { columns, rowid: RowIdPolicy::WithRowId }),
                ..fs.last()
            },
        )
    } else {
        fs
    }
}

/// Tracks which tables are active (in FROM/JOIN) for column resolution.
///
/// Frames are pushed and popped as the walk enters and leaves SELECT
/// statements, subqueries and DML blocks. Inner frames are searched first,
/// so correlated subqueries see the columns of their outer queries.
pub struct QueryScope {
    frames: Vec<ScopeFrame>,
}

impl View for QueryScope {
    type V = Seq<FrameModel>;

    closed spec fn view(&self) -> Seq<FrameModel> {
        self.frames@.map_values(|f: ScopeFrame| f@)
    }
}

impl Default for QueryScope {
    fn default() -> (r: Self)
        ensures
            r.wf(),
            r@ == Seq::<FrameModel>::empty(),
    {
        let r = QueryScope { frames: Vec::new() };
        assert(r@ =~= Seq::<FrameModel>::empty());
        r
    }
}

impl QueryScope {
    /// Every frame's named table is consistent.
    pub closed spec fn wf(&self) -> bool {
        forall|i: int| 0 <= i < self.frames@.len() ==> (#[trigger] self.frames@[i]).named.wf()
    }

    /// Whether any frame is open.
    pub fn has_frames(&self) -> (r: bool)
        ensures
            r == (self@.len() > 0),
    {
        self.frames.len() > 0
    }

    /// Open a new, empty innermost frame.
    pub fn push(&mut self)
        requires
            old(self).wf(),
        ensures
            final(self).wf(),
            final(self)@ == scope_push(old(self)@),
    {
        let frame = ScopeFrame { named: NameTable::new(), anonymous: Vec::new() };
        assert(frame@.anonymous =~= Seq::<ActiveView>::empty());
        self.frames.push(frame);
        assert(self@ =~= old(self)@.push(empty_frame()));
    }

    /// Close the innermost frame, if any.
    pub fn pop(&mut self)
        requires
            old(self).wf(),
        ensures
            final(self).wf(),
            final(self)@ == scope_pop(old(self)@),
    {
        if self.frames.len() > 0 {
            self.frames.pop();
            assert(self@ =~= old(self)@.drop_last());
        }
    }

    /// Register a named table (or alias) in the innermost frame, replacing
    /// one with the same name ignoring case. Does nothing without a frame.
    pub fn add_table(&mut self, name: &str, columns: Option<Vec<String>>, rowid: RowIdPolicy)
        requires
            old(self).wf(),
        ensures
            final(self).wf(),
            final(self)@ == scope_with_table(old(self)@, name@, columns_view(columns), rowid),
    {
        let n = self.frames.len();
        if n > 0 {
            let key = ascii_lowercase(name);
            let frame = &mut self.frames[n - 1];
            frame.named.insert(key, ActiveTable { columns, rowid });
            assert(self@ =~= old(self)@.update(
                n - 1,
                FrameModel {
                    named: assoc_insert(old(self)@.last().named, lower_chars(name@), ActiveView { columns: columns_view(columns), rowid }),
                    ..old(self)@.last()
                },
            ));
        }
    }

    /// Register an anonymous source (unaliased subquery) in the innermost
    /// frame. Does nothing without a frame.
    pub fn add_anonymous(&mut self, columns: Option<Vec<String>>)
        requires
            old(self).wf(),
        ensures
            final(self).wf(),
            final(self)@ == scope_with_anonymous(old(self)@, columns_view(columns)),
    {
        let n = self.frames.len();
        if n > 0 {
            let ghost cv = columns_view(columns);
            let frame = &mut self.frames[n - 1];
            frame.anonymous.push(ActiveTable { columns, rowid: RowIdPolicy::WithRowId });
            assert(self@[n - 1].anonymous =~= old(self)@.last().anonymous.push(ActiveView { columns: cv, rowid: RowIdPolicy::WithRowId }));
            assert(self@ =~= old(self)@.update(
                n - 1,
                FrameModel {
                    anonymous: old(self)@.last().anonymous.push(ActiveView { columns: cv, rowid: RowIdPolicy::WithRowId }),
                    ..old(self)@.last()
                },
            ));
        }
    }

    /// Resolve a column reference against the active FROM tables.
    pub fn resolve_column(&self, table: Option<&str>, column: &str) -> (r: ColumnResolution)
        requires
            self.wf(),
        ensures
            r@ == match table {
                Some(t) => scope_qualified(self@, self@.len() as int, t@, column@),
                None => scope_unqualified(self@, self@.len() as int, column@),
            },
    {
        match table {
            Some(tbl) => self.resolve_qualified(tbl, column),
            None => self.resolve_unqualified(column),
        }
    }

    /// Resolve `table.column`: the innermost frame naming `table` decides.
    pub fn resolve_qualified(&self, table: &str, column: &str) -> (r: ColumnResolution)
        requires
            self.wf(),
        ensures
            r@ == scope_qualified(self@, self@.len() as int, table@, column@),
    {
        let ghost fs = self@;
        let key = ascii_lowercase(table);
        let mut i = self.frames.len();
        while i > 0
            invariant
                0 <= i <= fs.len(),
                fs == self@,
                self.wf(),
                key@ == lower_chars(table@),
                scope_qualified(fs, fs.len() as int, table@, column@) == scope_qualified(fs, i as int, table@, column@),
            decreases i,
        {
            i -= 1;
            let frame = &self.frames[i];
            assert(frame@ == fs[i as int]);
            match frame.named.find(key.as_str()) {
                Some(j) => {
                    let entry = frame.named.get(j);
                    proof {
                        lemma_lookup_at(frame.named.entries(), key@, j as int);
                    }
                    if entry.has_column(column) {
                        return ColumnResolution::Found { table: table.to_owned(), all_columns: entry.columns_copy() };
                    }
                    return match &entry.columns {
                        Some(_) => ColumnResolution::TableFoundColumnMissing,
                        None => {
                            let v: Vec<String> = Vec::new();
                            ColumnResolution::Found { table: table.to_owned(), all_columns: v }
                        },
                    };
                },
                None => {},
            }
        }
        ColumnResolution::TableNotFound
    }

    /// Resolve a bare column: in the innermost frame that has a source
    /// accepting it, the first such source (named tables first).
    pub fn resolve_unqualified(&self, column: &str) -> (r: ColumnResolution)
        requires
            self.wf(),
        ensures
            r@ == scope_unqualified(self@, self@.len() as int, column@),
    {
        let ghost fs = self@;
        let mut i = self.frames.len();
        while i > 0
            invariant
                0 <= i <= fs.len(),
                fs == self@,
                self.wf(),
                scope_unqualified(fs, fs.len() as int, column@) == scope_unqualified(fs, i as int, column@),
            decreases i,
        {
            i -= 1;
            let frame = &self.frames[i];
            assert(frame@ == fs[i as int]);
            match frame.resolve_here(column) {
                Some(res) => {
                    return res;
                },
                None => {},
            }
        }
        ColumnResolution::NotFound
    }

    /// Collect the distinct lowercase column names of the active tables
    /// (only those named `table`, ignoring case, when it is given), sorted.
    pub fn all_column_names(&self, table: Option<&str>) -> (r: Vec<String>)
        requires
            self.wf(),
        ensures
            is_key_summary(string_views(r@), scope_column_names_from(self@, 0, opt_str_view(table))),
    {
        let ghost fs = self@;
        let ghost t = opt_str_view(table);
        let mut out: Vec<String> = Vec::new();
        let mut i = self.frames.len();
        proof {
            lemma_key_summary_empty();
            assert(string_views(out@) =~= Seq::<Seq<char>>::empty());
        }
        while i > 0
            invariant
                0 <= i <= fs.len(),
                fs == self@,
                self.wf(),
                t == opt_str_view(table),
                is_key_summary(string_views(out@), scope_column_names_from(fs, i as int, t)),
            decreases i,
        {
            i -= 1;
            let frame = &self.frames[i];
            assert(frame@ == fs[i as int]);
            frame.add_column_names(&mut out, table, Ghost(scope_column_names_from(fs, i + 1, t)));
        }
        out
    }
}

/// The entry found at position `j` is the one stored under `key`.
proof fn lemma_lookup_at<V>(es: Seq<(Seq<char>, V)>, key: Seq<char>, j: int)
    requires
        0 <= j < es.len(),
        j == crate::table::last_index_of(es, key),
    ensures
        lookup(es, key) == Some(es[j].1),
{
}

impl ScopeFrame {
    /// How an unqualified column resolves within this frame, if it does.
    fn resolve_here(&self, column: &str) -> (r: Option<ColumnResolution>)
        requires
            self.named.wf(),
        ensures
            match frame_resolution(self@, column@) {
                None => r is None,
                Some(v) => r matches Some(x) && x@ == v,
            },
    {
        let ghost srcs = frame_sources(self@);
        let ghost nn = self@.named.len();
        let n = self.named.len();
        let mut j: usize = 0;
        while j < n
            invariant
                0 <= j <= n,
                n == nn,
                nn == self@.named.len(),
                self.named.wf(),
                srcs == frame_sources(self@),
                forall|k: int| 0 <= k < j ==> !active_has_column(#[trigger] srcs[k].1, column@),
            decreases n - j,
        {
            let entry = self.named.get(j);
            assert(srcs[j as int] == self@.named[j as int]);
            if entry.has_column(column) {
                let name = self.named.key(j);
                proof {
                    assert(first_source_having(srcs, column@, j as int));
                    assert forall|q: int| #[trigger] first_source_having(srcs, column@, q) implies q == j by {}
                }
                return Some(ColumnResolution::Found { table: name.clone(), all_columns: entry.columns_copy() });
            }
            j += 1;
        }
        let m = self.anonymous.len();
        let mut a: usize = 0;
        while a < m
            invariant
                0 <= a <= m,
                n == nn,
                nn == self@.named.len(),
                m == self@.anonymous.len(),
                srcs == frame_sources(self@),
                forall|k: int| 0 <= k < nn + a ==> !active_has_column(#[trigger] srcs[k].1, column@),
            decreases m - a,
        {
            let entry = &self.anonymous[a];
            assert(srcs[nn + a] == (Seq::<char>::empty(), self@.anonymous[a as int]));
            if entry.has_column(column) {
                proof {
                    assert(first_source_having(srcs, column@, nn + a));
                    assert forall|q: int| #[trigger] first_source_having(srcs, column@, q) implies q == nn + a by {}
                }
                let empty_name = String::new();
                assert(empty_name@ =~= Seq::<char>::empty());
                return Some(ColumnResolution::Found { table: empty_name, all_columns: entry.columns_copy() });
            }
            a += 1;
        }
        proof {
            assert forall|q: int| !first_source_having(srcs, column@, q) by {
                if first_source_having(srcs, column@, q) {
                    assert(!active_has_column(srcs[q].1, column@));
                }
            }
        }
        None
    }

    /// Adds this frame's column names to a key summary.
    fn add_column_names(&self, out: &mut Vec<String>, table: Option<&str>, Ghost(before): Ghost<Seq<Seq<char>>>)
        requires
            self.named.wf(),
            is_key_summary(string_views(old(out)@), before),
        ensures
            is_key_summary(string_views(final(out)@), before + frame_column_names(self@, opt_str_view(table))),
    {
        let ghost t = opt_str_view(table);
        let ghost es = self@.named;
        let n = self.named.len();
        let mut j: usize = 0;
        assert(before + named_column_names(es.take(0), t) =~= before);
        while j < n
            invariant
                0 <= j <= n,
                n == es.len(),
                es == self@.named,
                self.named.wf(),
                t == opt_str_view(table),
                is_key_summary(string_views(out@), before + named_column_names(es.take(j as int), t)),
            decreases n - j,
        {
            let name = self.named.key(j);
            let entry = self.named.get(j);
            let ghost acc = before + named_column_names(es.take(j as int), t);
            proof {
                assert(es.take(j + 1).drop_last() =~= es.take(j as int));
                assert(es.take(j + 1).last() == es[j as int]);
            }
            let passes = match table {
                Some(tn) => eq_ignore_ascii_case(name.as_str(), tn),
                None => true,
            };
            match &entry.columns {
                Some(cs) => {
                    if passes {
                        let ghost own = string_views(cs@).map_values(|c: Seq<char>| lower_chars(c));
                        add_lowercase_all(out, cs, Ghost(acc));
                        assert(acc + own =~= before + named_column_names(es.take(j + 1), t));
                    } else {
                        assert(acc =~= before + named_column_names(es.take(j + 1), t));
                    }
                },
                None => {
                    assert(acc =~= before + named_column_names(es.take(j + 1), t));
                },
            }
            j += 1;
        }
        assert(es.take(n as int) =~= es);
        let ghost mid = before + named_column_names(es, t);
        if table.is_none() {
            let ghost an = self@.anonymous;
            let m = self.anonymous.len();
            let mut a: usize = 0;
            assert(mid + anonymous_column_names(an.take(0)) =~= mid);
            while a < m
                invariant
                    0 <= a <= m,
                    m == an.len(),
                    an == self@.anonymous,
                    is_key_summary(string_views(out@), mid + anonymous_column_names(an.take(a as int))),
                decreases m - a,
            {
                let entry = &self.anonymous[a];
                let ghost acc = mid + anonymous_column_names(an.take(a as int));
                proof {
                    assert(an.take(a + 1).drop_last() =~= an.take(a as int));
                    assert(an.take(a + 1).last() == an[a as int]);
                }
                match &entry.columns {
                    Some(cs) => {
                        add_lowercase_all(out, cs, Ghost(acc));
                        assert(acc + string_views(cs@).map_values(|c: Seq<char>| lower_chars(c))
                            =~= mid + anonymous_column_names(an.take(a + 1)));
                    },
                    None => {
                        assert(acc =~= mid + anonymous_column_names(an.take(a + 1)));
                    },
                }
                a += 1;
            }
            assert(an.take(m as int) =~= an);
            assert(mid + anonymous_column_names(an) =~= before + frame_column_names(self@, t));
        } else {
            assert(mid =~= before + frame_column_names(self@, t));
        }
    }
}

/// Adds the lowercase form of every name in `cols` to a key summary.
fn add_lowercase_all(out: &mut Vec<String>, cols: &Vec<String>, Ghost(before): Ghost<Seq<Seq<char>>>)
    requires
        is_key_summary(string_views(old(out)@), before),
    ensures
        is_key_summary(string_views(final(out)@), before + string_views(cols@).map_values(|c: Seq<char>| lower_chars(c))),
{
    let ghost own = string_views(cols@).map_values(|c: Seq<char>| lower_chars(c));
    let mut c: usize = 0;
    assert(before + own.take(0) =~= before);
    while c < cols.len()
        invariant
            0 <= c <= cols@.len(),
            own == string_views(cols@).map_values(|c: Seq<char>| lower_chars(c)),
            is_key_summary(string_views(out@), before + own.take(c as int)),
        decreases cols@.len() - c,
    {
        let lower = ascii_lowercase(cols[c].as_str());
        add_to_key_summary(out, lower.as_str(), Ghost(before + own.take(c as int)));
        proof {
            assert(before + own.take(c + 1) =~= (before + own.take(c as int)).push(lower@));
        }
        c += 1;
    }
    assert(own.take(c as int) =~= own);
}


// ── Laws of the query scope ─────────────────────────────────────────────────

/// If some source accepts `column`, a first one does.
proof fn lemma_first_source_exists(srcs: Seq<(Seq<char>, ActiveView)>, column: Seq<char>, j: int)
    requires
        0 <= j < srcs.len(),
        active_has_column(srcs[j].1, column),
    ensures
        exists|q: int| first_source_having(srcs, column, q),
    decreases j,
{
    if exists|k: int| 0 <= k < j && active_has_column(#[trigger] srcs[k].1, column) {
        let k = choose|k: int| 0 <= k < j && active_has_column(#[trigger] srcs[k].1, column);
        lemma_first_source_exists(srcs, column, k);
    } else {
        assert(first_source_having(srcs, column, j));
    }
}

/// A source with unknown columns in the innermost frame stops unqualified
/// resolution there: the column resolves within that frame and never to a
/// table of an outer query.
pub proof fn law_unknown_columns_block_outer_frames(fs: Seq<FrameModel>, column: Seq<char>, j: int)
    requires
        fs.len() > 0,
        0 <= j < frame_sources(fs.last()).len(),
        frame_sources(fs.last())[j].1.columns is None,
    ensures
        frame_resolution(fs.last(), column) is Some,
        scope_unqualified(fs, fs.len() as int, column) == frame_resolution(fs.last(), column)->0,
{
    lemma_first_source_exists(frame_sources(fs.last()), column, j);
}

/// Anonymous sources take no part in qualified resolution.
pub proof fn law_anonymous_sources_not_qualified(
    fs: Seq<FrameModel>,
    source: ActiveView,
    i: int,
    table: Seq<char>,
    column: Seq<char>,
)
    requires
        fs.len() > 0,
        0 <= i <= fs.len(),
    ensures
        scope_qualified(
            fs.update(fs.len() - 1, FrameModel { anonymous: fs.last().anonymous.push(source), ..fs.last() }),
            i,
            table,
            column,
        ) == scope_qualified(fs, i, table, column),
    decreases i,
{
    let fs2 = fs.update(fs.len() - 1, FrameModel { anonymous: fs.last().anonymous.push(source), ..fs.last() });
    if i > 0 {
        assert(fs2[i - 1].named == fs[i - 1].named);
        law_anonymous_sources_not_qualified(fs, source, i - 1, table, column);
    }
}

/// Right after a table is registered in the innermost frame, a qualified
/// reference to it (in any ASCII case) resolves against that table.
pub proof fn law_registered_table_answers_qualified(
    fs: Seq<FrameModel>,
    name: Seq<char>,
    entry: ActiveView,
    query: Seq<char>,
    column: Seq<char>,
)
    requires
        fs.len() > 0,
        crate::table::keys_unique(fs.last().named),
        same_ignoring_case(name, query),
    ensures
        scope_qualified(
            fs.update(fs.len() - 1, FrameModel { named: assoc_insert(fs.last().named, lower_chars(name), entry), ..fs.last() }),
            fs.len() as int,
            query,
            column,
        ) == if active_has_column(entry, column) {
            ResolutionView::Found { table: query, all_columns: columns_or_empty(entry.columns) }
        } else {
            ResolutionView::TableFoundColumnMissing
        },
{
    lemma_assoc_insert(fs.last().named, lower_chars(name), entry);
}

/// Closing a frame undoes opening one.
pub proof fn law_scope_pop_undoes_push(fs: Seq<FrameModel>)
    ensures
        fs.push(empty_frame()).len() > 0,
        fs.push(empty_frame()).drop_last() == fs,
{
    assert(fs.push(empty_frame()).drop_last() =~= fs);
}


/// A source in the innermost frame that accepts `column` makes unqualified
/// resolution succeed there.
pub proof fn law_accepting_source_resolves_unqualified(fs: Seq<FrameModel>, column: Seq<char>, j: int)
    requires
        fs.len() > 0,
        0 <= j < frame_sources(fs.last()).len(),
        active_has_column(frame_sources(fs.last())[j].1, column),
    ensures
        frame_resolution(fs.last(), column) is Some,
        scope_unqualified(fs, fs.len() as int, column) is Found,
{
    lemma_first_source_exists(frame_sources(fs.last()), column, j);
}


// ── Laws of analysis modes ──────────────────────────────────────────────────

/// In document mode an analysis does not depend on what earlier analyses
/// left in the analyzer: it starts from the analyzer's dialect layer and the
/// user catalog's database and connection layers alone.
pub proof fn law_document_mode_forgets_earlier_passes(a: Seq<LayerModel>, b: Seq<LayerModel>, user: Seq<LayerModel>)
    requires
        a[0] == b[0],
    ensures
        document_start(a, AnalysisMode::Document, user) == document_start(b, AnalysisMode::Document, user),
        document_start(a, AnalysisMode::Document, user)[3] == empty_layer(),
{
    assert(document_start(a, AnalysisMode::Document, user) =~= document_start(b, AnalysisMode::Document, user));
}

/// In execute mode what one analysis defines is known to the next: a
/// relation of the document layer at the end of a pass sits in the
/// connection layer the next pass starts from, and resolves there.
pub proof fn law_execute_mode_keeps_definitions(fin: Seq<LayerModel>, user: Seq<LayerModel>, k: Seq<char>)
    requires
        fin.len() >= 4,
        layer_wf(fin[2]),
        lookup(fin[3].relations, k) is Some,
    ensures
        lookup(document_start(after_pass(fin, AnalysisMode::Execute), AnalysisMode::Execute, user)[2].relations, k) == lookup(
            fin[3].relations,
            k,
        ),
        top_relation(document_start(after_pass(fin, AnalysisMode::Execute), AnalysisMode::Execute, user), k) is Some,
{
    law_promotion_keeps_document_entries(fin[2], fin[3], k);
    let start = document_start(after_pass(fin, AnalysisMode::Execute), AnalysisMode::Execute, user);
    assert(start[2] == merged_layer(fin[2], fin[3]));
    lemma_top_relation_some(start, 2, k);
}

} // verus!
