//! Result types for a single semantic analysis pass.

use vstd::prelude::*;

use crate::diagnostics::{diagnostic_views, Diagnostic, DiagnosticView};
use crate::lineage::{
    column_views, copy_columns, copy_relations, copy_tables, lineage_view, relation_views, table_views, ColumnLineage,
    LineageResult, QueryLineage, QueryLineageView, RelationAccess, TableAccess,
};
use crate::table::{last_index_of, lookup, NameTable};
use crate::text::{eq_ignore_ascii_case, lower_chars, same_ignoring_case, string_views};

verus! {

// ── Resolved symbols ──────────────────────────────────────────────────────────

/// A definition site that a reference points to (byte offsets).
#[derive(Debug, Clone, Copy, PartialEq, Eq, Structural)]
pub struct DefinitionLocation {
    pub start: usize,
    pub end: usize,
}

/// A symbol resolution recorded during the validation pass.
#[derive(Debug)]
pub enum ResolvedSymbol {
    /// A table or view reference that resolved successfully.
    Table {
        name: String,
        columns: Option<Vec<String>>,
        /// Where this table or CTE was defined, if known.
        definition: Option<DefinitionLocation>,
    },
    /// A column reference that resolved successfully.
    Column {
        column: String,
        table: String,
        all_columns: Vec<String>,
        /// Where this column was defined, if known.
        definition: Option<DefinitionLocation>,
    },
    /// A function call that resolved successfully.
    Function { category: String, arities: Vec<String> },
}

/// A resolved symbol as plain values.
pub enum SymbolView {
    Table { name: Seq<char>, columns: Option<Seq<Seq<char>>>, definition: Option<DefinitionLocation> },
    Column { column: Seq<char>, table: Seq<char>, all_columns: Seq<Seq<char>>, definition: Option<DefinitionLocation> },
    Function { category: Seq<char>, arities: Seq<Seq<char>> },
}

impl View for ResolvedSymbol {
    type V = SymbolView;

    open spec fn view(&self) -> SymbolView {
        match self {
            ResolvedSymbol::Table { name, columns, definition } => SymbolView::Table {
                name: name@,
                columns: match columns {
                    Some(cs) => Some(string_views(cs@)),
                    None => None,
                },
                definition: *definition,
            },
            ResolvedSymbol::Column { column, table, all_columns, definition } => SymbolView::Column {
                column: column@,
                table: table@,
                all_columns: string_views(all_columns@),
                definition: *definition,
            },
            ResolvedSymbol::Function { category, arities } => SymbolView::Function {
                category: category@,
                arities: string_views(arities@),
            },
        }
    }
}

/// A resolved symbol at a specific source location.
#[derive(Debug)]
pub struct Resolution {
    pub start: usize,
    pub end: usize,
    pub symbol: ResolvedSymbol,
}

/// A resolution as plain values.
pub struct ResolutionAt {
    pub start: usize,
    pub end: usize,
    pub symbol: SymbolView,
}

impl View for Resolution {
    type V = ResolutionAt;

    open spec fn view(&self) -> ResolutionAt {
        ResolutionAt { start: self.start, end: self.end, symbol: self.symbol@ }
    }
}

/// The views of a list of resolutions.
pub open spec fn resolution_views(rs: Seq<Resolution>) -> Seq<ResolutionAt> {
    rs.map_values(|r: Resolution| r@)
}

// ── SemanticModel ─────────────────────────────────────────────────────────────

/// The result of one analysis pass as plain values.
pub struct ModelView {
    /// The analyzed source text.
    pub source: Seq<char>,
    /// Parse errors and semantic issues, in source order of discovery.
    pub diagnostics: Seq<DiagnosticView>,
    /// Every resolved reference, in the order the walk met them.
    pub resolutions: Seq<ResolutionAt>,
    /// Definition sites keyed by lowercase name (`table`) or
    /// `table.column`.
    pub definitions: Seq<(Seq<char>, (usize, usize))>,
    /// The lineage of the last statement that is a query, if any.
    pub lineage: Option<QueryLineageView>,
}

/// Result of a single analysis pass: the source, its diagnostics, the
/// references that resolved and the definition sites found in it.
pub struct SemanticModel {
    source: String,
    diagnostics: Vec<Diagnostic>,
    resolutions: Vec<Resolution>,
    definition_offsets: NameTable<(usize, usize)>,
    query_lineage: Option<QueryLineage>,
}

impl View for SemanticModel {
    type V = ModelView;

    closed spec fn view(&self) -> ModelView {
        ModelView {
            source: self.source@,
            diagnostics: diagnostic_views(self.diagnostics@),
            resolutions: resolution_views(self.resolutions@),
            definitions: self.definition_offsets.entries(),
            lineage: lineage_view(self.query_lineage),
        }
    }
}

/// `i` is the first resolution whose range covers `offset`.
pub open spec fn first_covering(rs: Seq<ResolutionAt>, offset: usize, i: int) -> bool {
    &&& 0 <= i < rs.len()
    &&& rs[i].start <= offset < rs[i].end
    &&& forall|j: int| 0 <= j < i ==> !(#[trigger] rs[j].start <= offset < rs[j].end)
}

/// The definition a symbol points to, if it has one.
pub open spec fn symbol_definition(s: SymbolView) -> Option<DefinitionLocation> {
    match s {
        SymbolView::Table { definition, .. } => definition,
        SymbolView::Column { definition, .. } => definition,
        SymbolView::Function { .. } => None,
    }
}

impl SemanticModel {
    /// The definition table is consistent.
    pub closed spec fn wf(&self) -> bool {
        self.definition_offsets.wf()
    }

    /// Assemble a model.
    pub fn new(
        source: String,
        diagnostics: Vec<Diagnostic>,
        resolutions: Vec<Resolution>,
        definition_offsets: NameTable<(usize, usize)>,
        query_lineage: Option<QueryLineage>,
    ) -> (r: Self)
        requires
            definition_offsets.wf(),
        ensures
            r.wf(),
            r@ == (ModelView {
                source: source@,
                diagnostics: diagnostic_views(diagnostics@),
                resolutions: resolution_views(resolutions@),
                definitions: definition_offsets.entries(),
                lineage: lineage_view(query_lineage),
            }),
    {
        SemanticModel { source, diagnostics, resolutions, definition_offsets, query_lineage }
    }

    /// Column lineage of the last query in the document: complete when every
    /// source was traced to tables, partial otherwise; `None` when no
    /// statement was a query.
    pub fn lineage(&self) -> (r: Option<LineageResult<Vec<ColumnLineage>>>)
        ensures
            match (r, self@.lineage) {
                (Some(res), Some(l)) => (res is Complete) == l.complete && column_views(res.inner()@) == l.columns,
                (None, None) => true,
                _ => false,
            },
    {
        match &self.query_lineage {
            Some(l) => {
                let cols = copy_columns(&l.columns);
                if l.complete {
                    Some(LineageResult::Complete(cols))
                } else {
                    Some(LineageResult::Partial(cols))
                }
            },
            None => None,
        }
    }

    /// The catalog relations (tables and views) the last query reads in its
    /// FROM clauses, sorted by name; CTEs and subqueries are not listed.
    pub fn relations_accessed(&self) -> (r: Option<LineageResult<Vec<RelationAccess>>>)
        ensures
            match (r, self@.lineage) {
                (Some(res), Some(l)) => (res is Complete) == l.complete && relation_views(res.inner()@) == l.relations,
                (None, None) => true,
                _ => false,
            },
    {
        match &self.query_lineage {
            Some(l) => {
                let rels = copy_relations(&l.relations);
                if l.complete {
                    Some(LineageResult::Complete(rels))
                } else {
                    Some(LineageResult::Partial(rels))
                }
            },
            None => None,
        }
    }

    /// The tables the last query reads once CTEs and subqueries are traced
    /// through, sorted by name.
    pub fn tables_accessed(&self) -> (r: Option<LineageResult<Vec<TableAccess>>>)
        ensures
            match (r, self@.lineage) {
                (Some(res), Some(l)) => (res is Complete) == l.complete && table_views(res.inner()@) == l.tables,
                (None, None) => true,
                _ => false,
            },
    {
        match &self.query_lineage {
            Some(l) => {
                let tables = copy_tables(&l.tables);
                if l.complete {
                    Some(LineageResult::Complete(tables))
                } else {
                    Some(LineageResult::Partial(tables))
                }
            },
            None => None,
        }
    }

    /// The source text that was analyzed.
    pub fn source(&self) -> (r: &str)
        ensures
            r@ == self@.source,
    {
        self.source.as_str()
    }

    /// All diagnostics produced by the analysis pass (parse errors and
    /// semantic issues).
    pub fn diagnostics(&self) -> (r: &[Diagnostic])
        ensures
            diagnostic_views(r@) == self@.diagnostics,
    {
        self.diagnostics.as_slice()
    }

    /// The resolutions recorded by the pass.
    pub fn resolutions(&self) -> (r: &[Resolution])
        ensures
            resolution_views(r@) == self@.resolutions,
    {
        self.resolutions.as_slice()
    }

    /// The definition site recorded under `key` (a lowercase name, or
    /// `table.column`).
    pub fn definition_offset(&self, key: &str) -> (r: Option<(usize, usize)>)
        requires
            self.wf(),
        ensures
            r == lookup(self@.definitions, key@),
    {
        match self.definition_offsets.find(key) {
            Some(i) => Some(*self.definition_offsets.get(i)),
            None => None,
        }
    }

    /// Find the resolved symbol at a byte offset, if any: that of the first
    /// resolution covering it.
    pub fn resolution_at(&self, offset: usize) -> (r: Option<&ResolvedSymbol>)
        ensures
            match r {
                Some(s) => exists|i: int| first_covering(self@.resolutions, offset, i) && s@ == self@.resolutions[i].symbol,
                None => forall|i: int| 0 <= i < self@.resolutions.len() ==> !(#[trigger] self@.resolutions[i].start <= offset
                    < self@.resolutions[i].end),
            },
    {
        match self.covering_index(offset) {
            Some(i) => Some(&self.resolutions[i].symbol),
            None => None,
        }
    }

    /// Find the definition location for the symbol at a byte offset: that
    /// of the first resolution covering it, when it is a table or a column.
    pub fn definition_at(&self, offset: usize) -> (r: Option<DefinitionLocation>)
        ensures
            match r {
                Some(d) => exists|i: int| first_covering(self@.resolutions, offset, i) && symbol_definition(
                    self@.resolutions[i].symbol,
                ) == Some(d),
                None => forall|i: int| first_covering(self@.resolutions, offset, i) ==> symbol_definition(
                    self@.resolutions[i].symbol,
                ) is None,
            },
    {
        match self.covering_index(offset) {
            Some(i) => match &self.resolutions[i].symbol {
                ResolvedSymbol::Table { definition, .. } => *definition,
                ResolvedSymbol::Column { definition, .. } => *definition,
                ResolvedSymbol::Function { .. } => None,
            },
            None => {
                proof {
                    assert forall|i: int| first_covering(self@.resolutions, offset, i) implies symbol_definition(
                        self@.resolutions[i].symbol,
                    ) is None by {
                        assert(self@.resolutions[i].start <= offset < self@.resolutions[i].end);
                    }
                }
                None
            },
        }
    }

    /// The position of the first resolution covering `offset`.
    fn covering_index(&self, offset: usize) -> (r: Option<usize>)
        ensures
            match r {
                Some(i) => first_covering(self@.resolutions, offset, i as int),
                None => forall|i: int| 0 <= i < self@.resolutions.len() ==> !(#[trigger] self@.resolutions[i].start <= offset
                    < self@.resolutions[i].end),
            },
    {
        let ghost rs = self@.resolutions;
        let mut i: usize = 0;
        while i < self.resolutions.len()
            invariant
                0 <= i <= self.resolutions@.len(),
                rs == self@.resolutions,
                rs.len() == self.resolutions@.len(),
                forall|j: int| 0 <= j < i ==> !(#[trigger] rs[j].start <= offset < rs[j].end),
            decreases self.resolutions@.len() - i,
        {
            let r = &self.resolutions[i];
            assert(rs[i as int] == r@);
            if r.start <= offset && offset < r.end {
                return Some(i);
            }
            i += 1;
        }
        None
    }

    /// The ranges of all resolutions that refer to the symbol `kind`
    /// identifies, in order.
    pub fn references_matching(&self, kind: &SymbolIdentity) -> (r: Vec<(usize, usize)>)
        ensures
            r@ == references_of(self@.resolutions, kind@),
    {
        let ghost rs = self@.resolutions;
        let mut out: Vec<(usize, usize)> = Vec::new();
        let mut i: usize = 0;
        while i < self.resolutions.len()
            invariant
                0 <= i <= self.resolutions@.len(),
                rs == self@.resolutions,
                rs.len() == self.resolutions@.len(),
                out@ == references_of(rs.take(i as int), kind@),
            decreases self.resolutions@.len() - i,
        {
            let r = &self.resolutions[i];
            assert(rs[i as int] == r@);
            assert(rs.take(i + 1).drop_last() =~= rs.take(i as int));
            if kind.matches(&r.symbol) {
                out.push((r.start, r.end));
            }
            i += 1;
        }
        assert(rs.take(i as int) =~= rs);
        out
    }
}

// ── Symbol identity ───────────────────────────────────────────────────────────

/// Identity of a symbol for matching across resolutions (find-references,
/// rename).
#[derive(Debug)]
pub enum SymbolIdentity {
    Table(String),
    Column { table: String, column: String },
}

/// A symbol identity as plain values.
pub enum IdentityView {
    Table(Seq<char>),
    Column { table: Seq<char>, column: Seq<char> },
}

impl View for SymbolIdentity {
    type V = IdentityView;

    open spec fn view(&self) -> IdentityView {
        match self {
            SymbolIdentity::Table(name) => IdentityView::Table(name@),
            SymbolIdentity::Column { table, column } => IdentityView::Column { table: table@, column: column@ },
        }
    }
}

/// The identity refers to the symbol: same table (or same table and
/// column), ignoring ASCII case.
pub open spec fn identity_matches(id: IdentityView, s: SymbolView) -> bool {
    match (id, s) {
        (IdentityView::Table(name), SymbolView::Table { name: n, .. }) => same_ignoring_case(n, name),
        (IdentityView::Column { table, column }, SymbolView::Column { table: t, column: c, .. }) => same_ignoring_case(t, table)
            && same_ignoring_case(c, column),
        _ => false,
    }
}

/// The ranges of the resolutions matching `id`, in order.
pub open spec fn references_of(rs: Seq<ResolutionAt>, id: IdentityView) -> Seq<(usize, usize)>
    decreases rs.len(),
{
    if rs.len() == 0 {
        Seq::empty()
    } else if identity_matches(id, rs.last().symbol) {
        references_of(rs.drop_last(), id).push((rs.last().start, rs.last().end))
    } else {
        references_of(rs.drop_last(), id)
    }
}

/// Resolution `i` is to column `c` of table `t`, ignoring ASCII case.
pub open spec fn resolves_to_column(rs: Seq<ResolutionAt>, i: int, t: Seq<char>, c: Seq<char>) -> bool {
    &&& 0 <= i < rs.len()
    &&& rs[i].symbol matches SymbolView::Column { table: t2, column: c2, .. }
    &&& same_ignoring_case(t2, t)
    &&& same_ignoring_case(c2, c)
}

/// The ranges of the references to column `c` of table `t`.
pub open spec fn column_references(rs: Seq<ResolutionAt>, t: Seq<char>, c: Seq<char>) -> Seq<(usize, usize)> {
    references_of(rs, IdentityView::Column { table: t, column: c })
}

/// Every reference found for column `c` of table `t` is the range of a
/// resolution to that very column (ignoring ASCII case): never of a
/// same-named column of another table. The resolution is returned.
pub proof fn law_column_reference_is_that_column(rs: Seq<ResolutionAt>, t: Seq<char>, c: Seq<char>, k: int) -> (i: int)
    requires
        0 <= k < column_references(rs, t, c).len(),
    ensures
        resolves_to_column(rs, i, t, c),
        column_references(rs, t, c)[k] == (rs[i].start, rs[i].end),
    decreases rs.len(),
{
    let id = IdentityView::Column { table: t, column: c };
    let prev = rs.drop_last();
    if k < column_references(prev, t, c).len() {
        let i = law_column_reference_is_that_column(prev, t, c, k);
        assert(rs[i] == prev[i]);
        i
    } else {
        let j = rs.len() - 1;
        assert(rs[j] == rs.last());
        j
    }
}

/// Every resolution to column `c` of table `t` (ignoring ASCII case) has its
/// range among the references found for that column: none is left out.
pub proof fn law_column_reference_is_listed(rs: Seq<ResolutionAt>, t: Seq<char>, c: Seq<char>, i: int)
    requires
        resolves_to_column(rs, i, t, c),
    ensures
        column_references(rs, t, c).contains((rs[i].start, rs[i].end)),
    decreases rs.len(),
{
    let prev = rs.drop_last();
    let refs = column_references(rs, t, c);
    if i < rs.len() - 1 {
        assert(prev[i] == rs[i]);
        law_column_reference_is_listed(prev, t, c, i);
        let k = choose|k: int| 0 <= k < column_references(prev, t, c).len() && column_references(prev, t, c)[k] == (rs[i].start, rs[i].end);
        assert(refs[k] == column_references(prev, t, c)[k]);
    } else {
        assert(rs.last() == rs[i]);
        assert(refs[refs.len() - 1] == (rs[i].start, rs[i].end));
    }
}

/// Resolution `i` is to table (or view) `t`, ignoring ASCII case.
pub open spec fn resolves_to_table(rs: Seq<ResolutionAt>, i: int, t: Seq<char>) -> bool {
    &&& 0 <= i < rs.len()
    &&& rs[i].symbol matches SymbolView::Table { name, .. }
    &&& same_ignoring_case(name, t)
}

/// Every reference found for table `t` is the range of a resolution to that
/// table (ignoring ASCII case), never to a column or another table. The
/// resolution is returned.
pub proof fn law_table_reference_is_that_table(rs: Seq<ResolutionAt>, t: Seq<char>, k: int) -> (i: int)
    requires
        0 <= k < references_of(rs, IdentityView::Table(t)).len(),
    ensures
        resolves_to_table(rs, i, t),
        references_of(rs, IdentityView::Table(t))[k] == (rs[i].start, rs[i].end),
    decreases rs.len(),
{
    let prev = rs.drop_last();
    if k < references_of(prev, IdentityView::Table(t)).len() {
        let i = law_table_reference_is_that_table(prev, t, k);
        assert(rs[i] == prev[i]);
        i
    } else {
        let j = rs.len() - 1;
        assert(rs[j] == rs.last());
        j
    }
}

/// Every resolution to table `t` (ignoring ASCII case) has its range among
/// the references found for that table.
pub proof fn law_table_reference_is_listed(rs: Seq<ResolutionAt>, t: Seq<char>, i: int)
    requires
        resolves_to_table(rs, i, t),
    ensures
        references_of(rs, IdentityView::Table(t)).contains((rs[i].start, rs[i].end)),
    decreases rs.len(),
{
    let prev = rs.drop_last();
    let refs = references_of(rs, IdentityView::Table(t));
    if i < rs.len() - 1 {
        assert(prev[i] == rs[i]);
        law_table_reference_is_listed(prev, t, i);
        let k = choose|k: int|
            0 <= k < references_of(prev, IdentityView::Table(t)).len() && references_of(prev, IdentityView::Table(t))[k] == (
                rs[i].start,
                rs[i].end,
            );
        assert(refs[k] == references_of(prev, IdentityView::Table(t))[k]);
    } else {
        assert(rs.last() == rs[i]);
        assert(refs[refs.len() - 1] == (rs[i].start, rs[i].end));
    }
}

/// The identity of a symbol: lowercase table name, or lowercase table and
/// column names; functions have none.
pub open spec fn identity_of(s: SymbolView) -> Option<IdentityView> {
    match s {
        SymbolView::Table { name, .. } => Some(IdentityView::Table(lower_chars(name))),
        SymbolView::Column { column, table, .. } => Some(IdentityView::Column { table: lower_chars(table), column: lower_chars(column) }),
        SymbolView::Function { .. } => None,
    }
}

/// The key of a definition site: the table name, or `table.column`.
pub open spec fn identity_key(id: IdentityView) -> Seq<char> {
    match id {
        IdentityView::Table(name) => name,
        IdentityView::Column { table, column } => table + "."@ + column,
    }
}

impl SymbolIdentity {
    /// Derive the identity from a resolved symbol.
    pub fn from_resolved(sym: &ResolvedSymbol) -> (r: Option<Self>)
        ensures
            match r {
                Some(id) => identity_of(sym@) == Some(id@),
                None => identity_of(sym@) is None,
            },
    {
        match sym {
            ResolvedSymbol::Table { name, .. } => Some(SymbolIdentity::Table(crate::text::ascii_lowercase(name.as_str()))),
            ResolvedSymbol::Column { column, table, .. } => Some(
                SymbolIdentity::Column {
                    table: crate::text::ascii_lowercase(table.as_str()),
                    column: crate::text::ascii_lowercase(column.as_str()),
                },
            ),
            ResolvedSymbol::Function { .. } => None,
        }
    }

    /// Does this identity refer to `sym`?
    pub fn matches(&self, sym: &ResolvedSymbol) -> (r: bool)
        ensures
            r == identity_matches(self@, sym@),
    {
        match (self, sym) {
            (SymbolIdentity::Table(name), ResolvedSymbol::Table { name: n, .. }) => eq_ignore_ascii_case(n.as_str(), name.as_str()),
            (SymbolIdentity::Column { table, column }, ResolvedSymbol::Column { table: t, column: c, .. }) => {
                eq_ignore_ascii_case(t.as_str(), table.as_str()) && eq_ignore_ascii_case(c.as_str(), column.as_str())
            },
            _ => false,
        }
    }

    /// Key into the definition sites for this symbol.
    pub fn definition_key(&self) -> (r: String)
        ensures
            r@ == identity_key(self@),
    {
        match self {
            SymbolIdentity::Table(name) => name.clone(),
            SymbolIdentity::Column { table, column } => {
                let mut key = table.clone();
                key.append(".");
                key.append(column.as_str());
                key
            },
        }
    }
}

} // verus!
