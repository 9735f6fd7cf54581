//! Data types for column lineage results.

use vstd::prelude::*;

verus! {

/// Whether lineage was fully or partially resolved.
///
/// `Complete` means all sources traced to physical tables.
/// `Partial` means at least one source (e.g. a view with unavailable body)
/// could not be fully resolved.
#[derive(Debug, Clone, PartialEq, Eq)]
pub enum LineageResult<T> {
    /// All lineage fully resolved.
    Complete(T),
    /// Best-effort result — some view bodies unavailable.
    Partial(T),
}

impl<T> LineageResult<T> {
    /// The value, whether complete or partial.
    pub open spec fn inner(self) -> T {
        match self {
            LineageResult::Complete(v) => v,
            LineageResult::Partial(v) => v,
        }
    }

    /// Returns `true` if fully resolved.
    pub fn is_complete(&self) -> (r: bool)
        ensures
            r == (*self is Complete),
    {
        match self {
            LineageResult::Complete(_) => true,
            LineageResult::Partial(_) => false,
        }
    }

    /// Unwrap the inner value regardless of completeness.
    pub fn into_inner(self) -> (r: T)
        ensures
            r == self.inner(),
    {
        match self {
            LineageResult::Complete(v) => v,
            LineageResult::Partial(v) => v,
        }
    }

    /// Convert `&LineageResult<T>` to `LineageResult<&T>`.
    pub fn as_ref(&self) -> (r: LineageResult<&T>)
        ensures
            (r is Complete) == (*self is Complete),
            *r.inner() == self.inner(),
    {
        match self {
            LineageResult::Complete(v) => LineageResult::Complete(v),
            LineageResult::Partial(v) => LineageResult::Partial(v),
        }
    }

    /// Map the inner value, keeping completeness.
    pub fn map<U, F: FnOnce(T) -> U>(self, f: F) -> (r: LineageResult<U>)
        requires
            f.requires((self.inner(),)),
        ensures
            (r is Complete) == (self is Complete),
            f.ensures((self.inner(),), r.inner()),
            forall|g: spec_fn(T) -> U|
                (forall|x: T, y: U| #[trigger] f.ensures((x,), y) ==> y == g(x)) ==> r == lineage_map(self, g),
    {
        match self {
            LineageResult::Complete(v) => LineageResult::Complete(f(v)),
            LineageResult::Partial(v) => LineageResult::Partial(f(v)),
        }
    }
}

/// A lineage result with its value mapped by `g`, keeping completeness.
pub open spec fn lineage_map<T, U>(r: LineageResult<T>, g: spec_fn(T) -> U) -> LineageResult<U> {
    match r {
        LineageResult::Complete(v) => LineageResult::Complete(g(v)),
        LineageResult::Partial(v) => LineageResult::Partial(g(v)),
    }
}

/// Mapping by the identity gives the result back.
pub proof fn law_lineage_map_identity<T>(r: LineageResult<T>)
    ensures
        lineage_map(r, |x: T| x) == r,
{
}

/// Mapping by `g` and then by `h` is mapping by their composition; either
/// way completeness is kept.
pub proof fn law_lineage_map_composes<T, U, V>(r: LineageResult<T>, g: spec_fn(T) -> U, h: spec_fn(U) -> V)
    ensures
        lineage_map(lineage_map(r, g), h) == lineage_map(r, |x: T| h(g(x))),
        (lineage_map(r, g) is Complete) == (r is Complete),
{
}

/// The origin of a result column — which table and column it traces back to.
#[derive(Debug, Clone, PartialEq, Eq)]
pub struct ColumnOrigin {
    /// The physical table name.
    pub table: String,
    /// The column name in that table.
    pub column: String,
}

/// Lineage information for a single result column.
#[derive(Debug, Clone, PartialEq, Eq)]
pub struct ColumnLineage {
    /// The output column name (alias or inferred).
    pub name: String,
    /// Zero-based index in the result column list.
    pub index: u32,
    /// The origin table.column, or `None` for expressions/literals/aggregates.
    pub origin: Option<ColumnOrigin>,
}

/// What kind of catalog relation was accessed.
#[derive(Debug, Clone, Copy, PartialEq, Eq, Structural)]
pub enum RelationKind {
    /// A physical table.
    Table,
    /// A view (body may or may not be available for resolution).
    View,
}

/// A catalog relation (table or view) referenced in the query's FROM clause.
///
/// CTEs and subquery aliases are not included — only relations that exist
/// in the catalog.
#[derive(Debug, Clone, PartialEq, Eq)]
pub struct RelationAccess {
    /// The relation name as it appears in the catalog.
    pub name: String,
    /// Whether this is a table or a view.
    pub kind: RelationKind,
}

/// A physical table accessed by the query (after resolving CTEs and
/// subqueries).
#[derive(Debug, Clone, PartialEq, Eq)]
pub struct TableAccess {
    /// The physical table name.
    pub name: String,
}

/// A column origin as plain values.
pub struct ColumnOriginView {
    pub table: Seq<char>,
    pub column: Seq<char>,
}

impl View for ColumnOrigin {
    type V = ColumnOriginView;

    open spec fn view(&self) -> ColumnOriginView {
        ColumnOriginView { table: self.table@, column: self.column@ }
    }
}

/// The view of an optional origin.
pub open spec fn origin_view(o: Option<ColumnOrigin>) -> Option<ColumnOriginView> {
    match o {
        Some(x) => Some(x@),
        None => None,
    }
}

/// The lineage of one result column as plain values.
pub struct ColumnLineageView {
    pub name: Seq<char>,
    pub index: u32,
    pub origin: Option<ColumnOriginView>,
}

impl View for ColumnLineage {
    type V = ColumnLineageView;

    open spec fn view(&self) -> ColumnLineageView {
        ColumnLineageView { name: self.name@, index: self.index, origin: origin_view(self.origin) }
    }
}

/// The lineage of a query: whether it is complete, each result column's
/// lineage, the catalog relations it reads (sorted by name, each once) and
/// the tables those come down to.
pub struct QueryLineage {
    /// Whether all sources were fully resolved.
    pub complete: bool,
    /// Per-column lineage information.
    pub columns: Vec<ColumnLineage>,
    /// Relations referenced directly in FROM clauses.
    pub relations: Vec<RelationAccess>,
    /// Physical tables accessed (after resolving CTEs/subqueries/views).
    pub tables: Vec<TableAccess>,
}

/// A query lineage as plain values.
pub struct QueryLineageView {
    pub complete: bool,
    pub columns: Seq<ColumnLineageView>,
    pub relations: Seq<(Seq<char>, RelationKind)>,
    pub tables: Seq<Seq<char>>,
}

impl View for QueryLineage {
    type V = QueryLineageView;

    open spec fn view(&self) -> QueryLineageView {
        QueryLineageView {
            complete: self.complete,
            columns: column_views(self.columns@),
            relations: relation_views(self.relations@),
            tables: table_views(self.tables@),
        }
    }
}

/// The view of an optional lineage.
pub open spec fn lineage_view(o: Option<QueryLineage>) -> Option<QueryLineageView> {
    match o {
        Some(l) => Some(l@),
        None => None,
    }
}

/// The views of a list of column lineages.
pub open spec fn column_views(v: Seq<ColumnLineage>) -> Seq<ColumnLineageView> {
    v.map_values(|c: ColumnLineage| c@)
}

/// The relations of a list as (name, kind) pairs.
pub open spec fn relation_views(v: Seq<RelationAccess>) -> Seq<(Seq<char>, RelationKind)> {
    v.map_values(|r: RelationAccess| (r.name@, r.kind))
}

/// The names of a list of table accesses.
pub open spec fn table_views(v: Seq<TableAccess>) -> Seq<Seq<char>> {
    v.map_values(|t: TableAccess| t.name@)
}

/// A copy of an origin.
fn copy_origin(o: &Option<ColumnOrigin>) -> (r: Option<ColumnOrigin>)
    ensures
        origin_view(r) == origin_view(*o),
{
    match o {
        Some(x) => Some(ColumnOrigin { table: x.table.clone(), column: x.column.clone() }),
        None => None,
    }
}

/// A copy of a list of column lineages.
pub fn copy_columns(v: &Vec<ColumnLineage>) -> (r: Vec<ColumnLineage>)
    ensures
        column_views(r@) == column_views(v@),
{
    let mut r: Vec<ColumnLineage> = Vec::new();
    let mut i: usize = 0;
    while i < v.len()
        invariant
            0 <= i <= v@.len(),
            r@.len() == i,
            column_views(r@) == column_views(v@).take(i as int),
        decreases v@.len() - i,
    {
        let ghost r0 = r@;
        let c = &v[i];
        r.push(ColumnLineage { name: c.name.clone(), index: c.index, origin: copy_origin(&c.origin) });
        proof {
            assert forall|j: int| 0 <= j <= i implies #[trigger] column_views(r@)[j] == column_views(v@).take(i + 1)[j] by {
                if j < i {
                    assert(r@[j] == r0[j]);
                    assert(column_views(r0)[j] == column_views(v@).take(i as int)[j]);
                }
            }
            assert(column_views(r@) =~= column_views(v@).take(i + 1));
        }
        i += 1;
    }
    assert(column_views(v@).take(i as int) =~= column_views(v@));
    r
}

/// A copy of a list of relation accesses.
pub fn copy_relations(v: &Vec<RelationAccess>) -> (r: Vec<RelationAccess>)
    ensures
        relation_views(r@) == relation_views(v@),
{
    let mut r: Vec<RelationAccess> = Vec::new();
    let mut i: usize = 0;
    while i < v.len()
        invariant
            0 <= i <= v@.len(),
            r@.len() == i,
            relation_views(r@) == relation_views(v@).take(i as int),
        decreases v@.len() - i,
    {
        let ghost r0 = r@;
        let a = &v[i];
        r.push(RelationAccess { name: a.name.clone(), kind: a.kind });
        proof {
            assert forall|j: int| 0 <= j <= i implies #[trigger] relation_views(r@)[j] == relation_views(v@).take(i + 1)[j] by {
                if j < i {
                    assert(r@[j] == r0[j]);
                    assert(relation_views(r0)[j] == relation_views(v@).take(i as int)[j]);
                }
            }
            assert(relation_views(r@) =~= relation_views(v@).take(i + 1));
        }
        i += 1;
    }
    assert(relation_views(v@).take(i as int) =~= relation_views(v@));
    r
}

/// A copy of a list of table accesses.
pub fn copy_tables(v: &Vec<TableAccess>) -> (r: Vec<TableAccess>)
    ensures
        table_views(r@) == table_views(v@),
{
    let mut r: Vec<TableAccess> = Vec::new();
    let mut i: usize = 0;
    while i < v.len()
        invariant
            0 <= i <= v@.len(),
            r@.len() == i,
            table_views(r@) == table_views(v@).take(i as int),
        decreases v@.len() - i,
    {
        let ghost r0 = r@;
        r.push(TableAccess { name: v[i].name.clone() });
        proof {
            assert forall|j: int| 0 <= j <= i implies #[trigger] table_views(r@)[j] == table_views(v@).take(i + 1)[j] by {
                if j < i {
                    assert(r@[j] == r0[j]);
                    assert(table_views(r0)[j] == table_views(v@).take(i as int)[j]);
                }
            }
            assert(table_views(r@) =~= table_views(v@).take(i + 1));
        }
        i += 1;
    }
    assert(table_views(v@).take(i as int) =~= table_views(v@));
    r
}

} // verus!
