//! Column lineage: each result column of a query traced back to the table
//! and column it comes from, through CTEs and subqueries, and the catalog
//! relations and tables the query reads.

use vstd::prelude::*;

use crate::catalog::{columns_view, table_source_columns, top_relation, Catalog, LayerModel};
use crate::lineage::{lineage_view, origin_view, ColumnLineage, ColumnLineageView, ColumnOrigin, ColumnOriginView, QueryLineage, QueryLineageView, RelationAccess, RelationKind, TableAccess};
use crate::table::{assoc_insert, keys_unique, lookup, NameTable};
use crate::text::{lemma_sorted_names, add_to_sorted_set, is_sorted_set, lemma_sorted_sets_equal, ascii_lowercase, eq_ignore_ascii_case, str_equal, lemma_lower_chars_idempotent, lower_chars, same_ignoring_case, sorted_names, string_views, utf8};
use crate::tree::{Span, columns_from_select, result_column_name_of, node_fits, result_column_name, select_columns, Node};

verus! {

// ── Sizes ────────────────────────────────────────────────────────────────────

/// The number of nodes of a tree.
pub open spec fn node_size(n: Node) -> nat
    decreases n,
{
    match n {
        Node::Plain { children, .. } => 1 + nodes_size(children@),
        Node::CreateTable { select, .. } => 1 + opt_size(select),
        Node::CreateView { select, .. } => 1 + opt_size(select),
        Node::CreateFunction { select, .. } => 1 + opt_size(select),
        Node::Opaque => 1,
        Node::ResultColumn { expr, .. } => 1 + opt_size(expr),
        Node::ColumnRef { .. } => 1,
        Node::Call { args, rest, .. } => 1 + nodes_size(args@) + nodes_size(rest@),
        Node::SourceRef { .. } => 1,
        Node::ScopedSource { body, .. } => 1 + opt_size(body),
        Node::Query { from, results, clauses } => 1 + opt_size(from) + match results {
            Some(rs) => nodes_size(rs@),
            None => 0,
        } + nodes_size(clauses@),
        Node::CteScope { bindings, body, .. } => 1 + nodes_size(bindings@) + opt_size(body),
        Node::CteBinding { body, .. } => 1 + opt_size(body),
        Node::TriggerScope { when, body } => 1 + opt_size(when) + opt_size(body),
        Node::DmlScope { children } => 1 + nodes_size(children@),
    }
}

pub open spec fn nodes_size(ns: Seq<Node>) -> nat
    decreases ns,
{
    if ns.len() == 0 {
        0
    } else {
        nodes_size(ns.drop_last()) + node_size(ns.last())
    }
}

pub open spec fn opt_size(o: Option<Box<Node>>) -> nat
    decreases o,
{
    match o {
        Some(n) => node_size(*n),
        None => 0,
    }
}

/// The size of an optional body.
pub open spec fn body_size(o: Option<Node>) -> nat {
    match o {
        Some(n) => node_size(n),
        None => 0,
    }
}

/// The node held by an optional box.
pub open spec fn unboxed(o: Option<Box<Node>>) -> Option<Node> {
    match o {
        Some(b) => Some(*b),
        None => None,
    }
}

// ── Sources ──────────────────────────────────────────────────────────────────

/// What kind of FROM source an entry is.
pub enum SourceKindView {
    /// A CTE, by its lowercase name.
    Cte(Seq<char>),
    /// A subquery and its body.
    Subquery(Option<Node>),
    /// A table of the catalog.
    Table,
    /// A view of the catalog.
    View,
}

/// A FROM source: its lowercase name before aliasing, its columns (`None`
/// when unknown) and its kind.
pub struct SourceInfoView {
    pub canonical: Seq<char>,
    pub columns: Option<Seq<Seq<char>>>,
    pub kind: SourceKindView,
}

/// FROM sources keyed by the lowercase name the query uses for them.
pub type Sources = Seq<(Seq<char>, SourceInfoView)>;

/// CTE bodies keyed by lowercase CTE name.
pub type CteBodies = Seq<(Seq<char>, Option<Node>)>;

/// The bodies after registering one more binding of a WITH clause.
pub open spec fn register_cte(ctes: CteBodies, b: Node) -> CteBodies {
    match b {
        Node::CteBinding { name, body, .. } => if name.text@.len() > 0 {
            assoc_insert(ctes, lower_chars(name.text@), unboxed(body))
        } else {
            ctes
        },
        _ => ctes,
    }
}

/// The bodies after registering the bindings of a WITH clause in order.
pub open spec fn cte_bindings(ctes: CteBodies, bs: Seq<Node>) -> CteBodies
    decreases bs.len(),
{
    if bs.len() == 0 {
        ctes
    } else {
        register_cte(cte_bindings(ctes, bs.drop_last()), bs.last())
    }
}

/// Whether the catalog's relation named `k` is a view.
pub open spec fn catalog_is_view(cat: Seq<LayerModel>, k: Seq<char>) -> bool {
    top_relation(cat, k) matches Some(rel) && rel.is_view
}

/// The entry for a table, view or CTE named in FROM (by its lowercase name).
pub open spec fn named_source(src: Seq<u8>, cat: Seq<LayerModel>, ctes: CteBodies, canonical: Seq<char>) -> SourceInfoView {
    match lookup(ctes, canonical) {
        Some(body) => SourceInfoView {
            canonical,
            columns: match body {
                Some(b) => select_columns(src, b),
                None => None,
            },
            kind: SourceKindView::Cte(canonical),
        },
        None => SourceInfoView {
            canonical,
            columns: table_source_columns(cat, canonical),
            kind: if catalog_is_view(cat, canonical) {
                SourceKindView::View
            } else {
                SourceKindView::Table
            },
        },
    }
}

/// The sources after walking a FROM clause: a table reference is entered
/// under its alias (or name), an aliased subquery under its alias; other
/// nodes are searched for sources in order.
pub open spec fn collect_sources(src: Seq<u8>, cat: Seq<LayerModel>, ctes: CteBodies, n: Node, target: Sources) -> Sources
    decreases n,
{
    match n {
        Node::SourceRef { name, alias } => if name.text@.len() == 0 {
            target
        } else {
            let display = lower_chars(
                if alias.text@.len() > 0 {
                    alias.text@
                } else {
                    name.text@
                },
            );
            assoc_insert(target, display, named_source(src, cat, ctes, lower_chars(name.text@)))
        },
        Node::ScopedSource { body, alias } => if alias.text@.len() > 0 {
            let a = lower_chars(alias.text@);
            assoc_insert(
                target,
                a,
                SourceInfoView {
                    canonical: a,
                    columns: match body {
                        Some(b) => select_columns(src, *b),
                        None => None,
                    },
                    kind: SourceKindView::Subquery(unboxed(body)),
                },
            )
        } else {
            target
        },
        Node::Plain { children, .. } => collect_all(src, cat, ctes, children@, target),
        Node::CreateTable { select, .. } => collect_opt(src, cat, ctes, select, target),
        Node::CreateView { select, .. } => collect_opt(src, cat, ctes, select, target),
        Node::CreateFunction { select, .. } => collect_opt(src, cat, ctes, select, target),
        Node::Opaque => target,
        Node::ResultColumn { expr, .. } => collect_opt(src, cat, ctes, expr, target),
        Node::ColumnRef { .. } => target,
        Node::Call { args, rest, .. } => collect_all(src, cat, ctes, rest@, collect_all(src, cat, ctes, args@, target)),
        Node::Query { from, results, clauses } => {
            let t1 = collect_opt(src, cat, ctes, from, target);
            let t2 = match results {
                Some(rs) => collect_all(src, cat, ctes, rs@, t1),
                None => t1,
            };
            collect_all(src, cat, ctes, clauses@, t2)
        },
        Node::CteScope { bindings, body, .. } => collect_opt(src, cat, ctes, body, collect_all(src, cat, ctes, bindings@, target)),
        Node::CteBinding { body, .. } => collect_opt(src, cat, ctes, body, target),
        Node::TriggerScope { when, body } => collect_opt(src, cat, ctes, body, collect_opt(src, cat, ctes, when, target)),
        Node::DmlScope { children } => collect_all(src, cat, ctes, children@, target),
    }
}

pub open spec fn collect_all(src: Seq<u8>, cat: Seq<LayerModel>, ctes: CteBodies, ns: Seq<Node>, target: Sources) -> Sources
    decreases ns,
{
    if ns.len() == 0 {
        target
    } else {
        collect_sources(src, cat, ctes, ns.last(), collect_all(src, cat, ctes, ns.drop_last(), target))
    }
}

pub open spec fn collect_opt(src: Seq<u8>, cat: Seq<LayerModel>, ctes: CteBodies, o: Option<Box<Node>>, target: Sources) -> Sources
    decreases o,
{
    match o {
        Some(n) => collect_sources(src, cat, ctes, *n, target),
        None => target,
    }
}

/// The sources of an optional FROM clause.
pub open spec fn from_sources(src: Seq<u8>, cat: Seq<LayerModel>, ctes: CteBodies, from: Option<Box<Node>>) -> Sources {
    collect_opt(src, cat, ctes, from, Seq::empty())
}

// ── Finding the query ───────────────────────────────────────────────────────

/// The query a body comes down to: itself, the body of its WITH clause, or
/// the first query among the children of a node without a role.
pub open spec fn find_select(n: Node) -> Option<Node>
    decreases n,
{
    match n {
        Node::Query { .. } => Some(n),
        Node::CteScope { body, .. } => match body {
            Some(b) => find_select(*b),
            None => None,
        },
        Node::Plain { children, .. } => first_select(children@),
        _ => None,
    }
}

pub open spec fn first_select(ns: Seq<Node>) -> Option<Node>
    decreases ns,
{
    if ns.len() == 0 {
        None
    } else {
        match find_select(ns[0]) {
            Some(q) => Some(q),
            None => first_select(ns.drop_first()),
        }
    }
}

// ── Tracing columns ─────────────────────────────────────────────────────────

/// How many CTE entries are not being traced.
pub open spec fn untraced(ctes: CteBodies, tracing: Seq<Seq<char>>) -> nat
    decreases ctes.len(),
{
    if ctes.len() == 0 {
        0
    } else {
        untraced(ctes.drop_last(), tracing) + if tracing.contains(ctes.last().0) {
            0nat
        } else {
            1nat
        }
    }
}

/// The first source entered under canonical name `c`.
pub open spec fn first_with_canonical(s: Sources, c: Seq<char>) -> Option<SourceInfoView>
    decreases s.len(),
{
    if s.len() == 0 {
        None
    } else if s[0].1.canonical == c {
        Some(s[0].1)
    } else {
        first_with_canonical(s.drop_first(), c)
    }
}

/// The source a (lowercase) name stands for: the one entered under that
/// name, else the first whose canonical name it is.
pub open spec fn find_source(s: Sources, name: Seq<char>) -> Option<SourceInfoView> {
    match lookup(s, name) {
        Some(info) => Some(info),
        None => first_with_canonical(s, name),
    }
}

/// Some column of the list is `col` (ignoring ASCII case).
pub open spec fn lists_column(cols: Seq<Seq<char>>, col: Seq<char>) -> bool {
    exists|j: int| 0 <= j < cols.len() && same_ignoring_case(#[trigger] cols[j], col)
}

/// The first source whose known columns include `col`.
pub open spec fn first_listing(s: Sources, col: Seq<char>) -> Option<Seq<char>>
    decreases s.len(),
{
    if s.len() == 0 {
        None
    } else if s[0].1.columns matches Some(cols) && lists_column(cols, col) {
        Some(s[0].0)
    } else {
        first_listing(s.drop_first(), col)
    }
}

/// The source an unqualified column is taken from: the first that lists it,
/// else the first source.
pub open spec fn source_for_column(s: Sources, col: Seq<char>) -> Option<Seq<char>> {
    match first_listing(s, col) {
        Some(k) => Some(k),
        None => if s.len() > 0 {
            Some(s[0].0)
        } else {
            None
        },
    }
}

/// Where column `col` of the source named `source` comes from: a table's
/// column is its own origin; a CTE's or subquery's is traced through its
/// body (a CTE already being traced yields nothing); a view's is unknown.
pub open spec fn trace_column(
    src: Seq<u8>,
    cat: Seq<LayerModel>,
    ctes: CteBodies,
    tracing: Seq<Seq<char>>,
    bound: nat,
    source: Seq<char>,
    col: Seq<char>,
    sources: Sources,
) -> Option<ColumnOriginView>
    decreases untraced(ctes, tracing), bound, 0nat,
{
    match find_source(sources, source) {
        None => None,
        Some(info) => match info.kind {
            SourceKindView::Cte(name) => if tracing.contains(name) {
                None
            } else {
                match lookup(ctes, name) {
                    Some(body) => {
                        proof {
                            lemma_untraced_push(ctes, tracing, name);
                        }
                        trace_through(src, cat, ctes, tracing.push(name), body, col)
                    },
                    None => None,
                }
            },
            SourceKindView::Subquery(body) => if body_size(body) < bound {
                trace_through(src, cat, ctes, tracing, body, col)
            } else {
                None
            },
            SourceKindView::Table => Some(ColumnOriginView { table: info.canonical, column: lower_chars(col) }),
            SourceKindView::View => None,
        },
    }
}

/// The origin of column `col` of a CTE or subquery body: the first result
/// column whose name is `col`, traced through the body's own sources.
pub open spec fn trace_through(
    src: Seq<u8>,
    cat: Seq<LayerModel>,
    ctes: CteBodies,
    tracing: Seq<Seq<char>>,
    body: Option<Node>,
    col: Seq<char>,
) -> Option<ColumnOriginView>
    decreases untraced(ctes, tracing), body_size(body), 0nat,
{
    match body {
        None => None,
        Some(b) => match find_select(b) {
            Some(Node::Query { from, results: Some(rs), .. }) => {
                proof {
                    lemma_find_select_size(b);
                }
                trace_results(src, cat, ctes, tracing, opt_size(from), rs@, col, from_sources(src, cat, ctes, from))
            },
            _ => None,
        },
    }
}

/// The origin of the first result column named `col`; nothing when a result
/// column before it cannot be named.
pub open spec fn trace_results(
    src: Seq<u8>,
    cat: Seq<LayerModel>,
    ctes: CteBodies,
    tracing: Seq<Seq<char>>,
    bound: nat,
    rs: Seq<Node>,
    col: Seq<char>,
    sources: Sources,
) -> Option<ColumnOriginView>
    decreases untraced(ctes, tracing), bound, rs.len() + 2,
{
    if rs.len() == 0 {
        None
    } else {
        match rs[0] {
            Node::ResultColumn { alias, expr, .. } => match result_column_name(src, alias, expr) {
                None => None,
                Some(name) => if same_ignoring_case(name, col) {
                    trace_expr_origin(src, cat, ctes, tracing, bound, expr, sources)
                } else {
                    trace_results(src, cat, ctes, tracing, bound, rs.drop_first(), col, sources)
                },
            },
            _ => trace_results(src, cat, ctes, tracing, bound, rs.drop_first(), col, sources),
        }
    }
}

/// The origin of a result column's expression: a column reference is traced
/// to its source (the qualifier's, or the first listing it); anything else
/// has none.
pub open spec fn trace_expr_origin(
    src: Seq<u8>,
    cat: Seq<LayerModel>,
    ctes: CteBodies,
    tracing: Seq<Seq<char>>,
    bound: nat,
    expr: Option<Box<Node>>,
    sources: Sources,
) -> Option<ColumnOriginView>
    decreases untraced(ctes, tracing), bound, 1nat,
{
    match expr {
        Some(e) => match *e {
            Node::ColumnRef { column, table } => if column.text@.len() == 0 {
                None
            } else {
                let c = lower_chars(column.text@);
                let s = if table.text@.len() > 0 {
                    Some(lower_chars(table.text@))
                } else {
                    source_for_column(sources, c)
                };
                match s {
                    Some(sn) => trace_column(src, cat, ctes, tracing, bound, sn, c, sources),
                    None => None,
                }
            },
            _ => None,
        },
        None => None,
    }
}

// ── Relations and tables read ───────────────────────────────────────────────

/// What sources come down to: catalog relations (name and kind), tables,
/// and whether a view was among them.
pub struct Reads {
    pub relations: Seq<(Seq<char>, RelationKind)>,
    pub tables: Seq<Seq<char>>,
    pub view_seen: bool,
}

pub open spec fn no_reads() -> Reads {
    Reads { relations: Seq::empty(), tables: Seq::empty(), view_seen: false }
}

pub open spec fn join_reads(a: Reads, b: Reads) -> Reads {
    Reads { relations: a.relations + b.relations, tables: a.tables + b.tables, view_seen: a.view_seen || b.view_seen }
}

/// The reads of sources in order: a table or view is read itself; a CTE's
/// or subquery's body is searched (a CTE already being traced is skipped).
pub open spec fn gather(src: Seq<u8>, cat: Seq<LayerModel>, ctes: CteBodies, tracing: Seq<Seq<char>>, bound: nat, s: Sources) -> Reads
    decreases untraced(ctes, tracing), bound, s.len() + 1,
{
    if s.len() == 0 {
        no_reads()
    } else {
        let info = s[0].1;
        let first = match info.kind {
            SourceKindView::Table => Reads {
                relations: seq![(info.canonical, RelationKind::Table)],
                tables: seq![info.canonical],
                view_seen: false,
            },
            SourceKindView::View => Reads {
                relations: seq![(info.canonical, RelationKind::View)],
                tables: seq![info.canonical],
                view_seen: true,
            },
            SourceKindView::Cte(name) => if tracing.contains(name) {
                no_reads()
            } else {
                match lookup(ctes, name) {
                    Some(body) => {
                        proof {
                            lemma_untraced_push(ctes, tracing, name);
                        }
                        body_reads(src, cat, ctes, tracing.push(name), body)
                    },
                    None => no_reads(),
                }
            },
            SourceKindView::Subquery(body) => if body_size(body) < bound {
                body_reads(src, cat, ctes, tracing, body)
            } else {
                no_reads()
            },
        };
        join_reads(first, gather(src, cat, ctes, tracing, bound, s.drop_first()))
    }
}

/// The reads of a CTE or subquery body: those of its query's sources.
pub open spec fn body_reads(src: Seq<u8>, cat: Seq<LayerModel>, ctes: CteBodies, tracing: Seq<Seq<char>>, body: Option<Node>) -> Reads
    decreases untraced(ctes, tracing), body_size(body), 0nat,
{
    match body {
        None => no_reads(),
        Some(b) => match find_select(b) {
            Some(Node::Query { from: Some(f), .. }) => {
                proof {
                    lemma_find_select_size(b);
                }
                gather(src, cat, ctes, tracing, node_size(*f), collect_sources(src, cat, ctes, *f, Seq::empty()))
            },
            _ => no_reads(),
        },
    }
}

/// The kind of the first relation named `name`.
pub open spec fn first_kind(rels: Seq<(Seq<char>, RelationKind)>, name: Seq<char>) -> RelationKind
    decreases rels.len(),
{
    if rels.len() == 0 {
        RelationKind::Table
    } else if rels[0].0 == name {
        rels[0].1
    } else {
        first_kind(rels.drop_first(), name)
    }
}

/// The relations sorted by name, each name once with the kind it first had.
pub open spec fn sorted_relations(rels: Seq<(Seq<char>, RelationKind)>) -> Seq<(Seq<char>, RelationKind)> {
    sorted_names(rels.map_values(|r: (Seq<char>, RelationKind)| r.0)).map_values(|n: Seq<char>| (n, first_kind(rels, n)))
}

// ── The lineage of a statement ──────────────────────────────────────────────

/// A result column's name and origin, before numbering.
pub struct Traced {
    pub name: Seq<char>,
    pub origin: Option<ColumnOriginView>,
}

/// The columns `*` stands for: every known column of every source, in order.
pub open spec fn star_columns(src: Seq<u8>, cat: Seq<LayerModel>, ctes: CteBodies, bound: nat, s: Sources, all: Sources) -> Seq<Traced>
    decreases s.len(),
{
    if s.len() == 0 {
        Seq::empty()
    } else {
        let info = s[0].1;
        let own = match info.columns {
            Some(cols) => cols.map_values(
                |c: Seq<char>|
                    Traced {
                        name: lower_chars(c),
                        origin: trace_column(src, cat, ctes, Seq::empty(), bound, info.canonical, c, all),
                    },
            ),
            None => Seq::empty(),
        };
        own + star_columns(src, cat, ctes, bound, s.drop_first(), all)
    }
}

/// The traced result columns of a query, in order.
pub open spec fn traced_columns(src: Seq<u8>, cat: Seq<LayerModel>, ctes: CteBodies, bound: nat, rs: Seq<Node>, s: Sources) -> Seq<Traced>
    decreases rs.len(),
{
    if rs.len() == 0 {
        Seq::empty()
    } else {
        let prev = traced_columns(src, cat, ctes, bound, rs.drop_last(), s);
        match rs.last() {
            Node::ResultColumn { star, alias, expr } => if star {
                prev + star_columns(src, cat, ctes, bound, s, s)
            } else {
                prev.push(
                    Traced {
                        name: match result_column_name(src, alias, expr) {
                            Some(n) => n,
                            None => Seq::empty(),
                        },
                        origin: trace_expr_origin(src, cat, ctes, Seq::empty(), bound, expr, s),
                    },
                )
            },
            _ => prev,
        }
    }
}

/// Traced columns numbered from zero.
pub open spec fn numbered(ts: Seq<Traced>) -> Seq<ColumnLineageView> {
    Seq::new(ts.len(), |i: int| ColumnLineageView { name: ts[i].name, index: i as u32, origin: ts[i].origin })
}

/// The lineage of a query: `None` when it has no result column list.
pub open spec fn select_lineage(src: Seq<u8>, cat: Seq<LayerModel>, ctes: CteBodies, q: Node) -> Option<QueryLineageView> {
    match q {
        Node::Query { from, results: Some(rs), .. } => {
            let s = from_sources(src, cat, ctes, from);
            let bound = opt_size(from);
            let reads = gather(src, cat, ctes, Seq::empty(), bound, s);
            Some(
                QueryLineageView {
                    complete: !reads.view_seen,
                    columns: numbered(traced_columns(src, cat, ctes, bound, rs@, s)),
                    relations: sorted_relations(reads.relations),
                    tables: sorted_names(reads.tables),
                },
            )
        },
        _ => None,
    }
}

/// The CTE bodies after resolving a node, and the lineage of the first
/// query found: a WITH clause registers its bindings and resolves its body;
/// a node without a role, or an INSERT, UPDATE or DELETE, resolves its
/// children in order.
pub open spec fn resolve_node(src: Seq<u8>, cat: Seq<LayerModel>, ctes: CteBodies, n: Node) -> (CteBodies, Option<QueryLineageView>)
    decreases n,
{
    match n {
        Node::CteScope { bindings, body, .. } => {
            let ctes1 = cte_bindings(ctes, bindings@);
            match body {
                Some(b) => resolve_node(src, cat, ctes1, *b),
                None => (ctes1, None),
            }
        },
        Node::Query { .. } => (ctes, select_lineage(src, cat, ctes, n)),
        Node::Plain { children, .. } => resolve_first(src, cat, ctes, children@),
        Node::DmlScope { children } => resolve_first(src, cat, ctes, children@),
        _ => (ctes, None),
    }
}

pub open spec fn resolve_first(src: Seq<u8>, cat: Seq<LayerModel>, ctes: CteBodies, ns: Seq<Node>) -> (CteBodies, Option<QueryLineageView>)
    decreases ns,
{
    if ns.len() == 0 {
        (ctes, None)
    } else {
        let r = resolve_node(src, cat, ctes, ns[0]);
        match r.1 {
            Some(l) => r,
            None => resolve_first(src, cat, r.0, ns.drop_first()),
        }
    }
}

/// The lineage of a statement: `None` unless it is a query.
pub open spec fn statement_lineage(src: Seq<u8>, cat: Seq<LayerModel>, n: Node) -> Option<QueryLineageView> {
    resolve_node(src, cat, Seq::empty(), n).1
}

// ── Lemmas ───────────────────────────────────────────────────────────────────

pub proof fn lemma_untraced_push(ctes: CteBodies, tracing: Seq<Seq<char>>, name: Seq<char>)
    ensures
        untraced(ctes, tracing.push(name)) <= untraced(ctes, tracing),
        lookup(ctes, name) is Some && !tracing.contains(name) ==> untraced(ctes, tracing.push(name)) < untraced(ctes, tracing),
    decreases ctes.len(),
{
    if ctes.len() > 0 {
        lemma_untraced_push(ctes.drop_last(), tracing, name);
        let k = ctes.last().0;
        assert(tracing.push(name).contains(k) <==> (tracing.contains(k) || k == name)) by {
            if tracing.push(name).contains(k) {
                let i = choose|i: int| 0 <= i < tracing.push(name).len() && tracing.push(name)[i] == k;
                if i < tracing.len() {
                    assert(tracing[i] == k);
                }
            }
            if tracing.contains(k) {
                let i = choose|i: int| 0 <= i < tracing.len() && tracing[i] == k;
                assert(tracing.push(name)[i] == k);
            }
            if k == name {
                assert(tracing.push(name)[tracing.len() as int] == k);
            }
        }
        if lookup(ctes, name) is Some && !tracing.contains(name) {
            if k != name {
                crate::table::lemma_last_index_of(ctes, name);
                assert(lookup(ctes.drop_last(), name) is Some) by {
                    crate::table::lemma_last_index_of(ctes.drop_last(), name);
                    let i = crate::table::last_index_of(ctes, name);
                    assert(ctes.drop_last()[i].0 == name);
                }
            }
        }
    }
}

pub proof fn lemma_find_select_size(n: Node)
    ensures
        find_select(n) matches Some(q) ==> q is Query && node_size(q) <= node_size(n),
        find_select(n) matches Some(Node::Query { from, .. }) ==> opt_size(from) < node_size(n),
    decreases n,
{
    match n {
        Node::CteScope { body, .. } => match body {
            Some(b) => lemma_find_select_size(*b),
            None => {},
        },
        Node::Plain { children, .. } => lemma_first_select_size(children@),
        _ => {},
    }
}

pub proof fn lemma_first_select_size(ns: Seq<Node>)
    ensures
        first_select(ns) matches Some(q) ==> q is Query && node_size(q) <= nodes_size(ns),
        first_select(ns) matches Some(Node::Query { from, .. }) ==> opt_size(from) < nodes_size(ns),
    decreases ns,
{
    if ns.len() > 0 {
        lemma_find_select_size(ns[0]);
        lemma_first_select_size(ns.drop_first());
        lemma_nodes_size_split(ns);
    }
}

/// The size of a list is that of its first node plus that of the rest.
pub proof fn lemma_nodes_size_split(ns: Seq<Node>)
    requires
        ns.len() > 0,
    ensures
        nodes_size(ns) == node_size(ns[0]) + nodes_size(ns.drop_first()),
    decreases ns.len(),
{
    if ns.len() > 1 {
        lemma_nodes_size_split(ns.drop_last());
        assert(ns.drop_last().drop_first() =~= ns.drop_first().drop_last());
        assert(ns.drop_last()[0] == ns[0]);
        assert(ns.drop_first().last() == ns.last());
        assert(nodes_size(ns.drop_first()) == nodes_size(ns.drop_first().drop_last()) + node_size(ns.drop_first().last()));
    } else {
        assert(ns.drop_first().len() == 0);
        assert(ns.drop_last().len() == 0);
        assert(nodes_size(ns.drop_last()) == 0);
        assert(ns.last() == ns[0]);
    }
}

// ── Laws ─────────────────────────────────────────────────────────────────────

/// Every column of the lineage, if there is one, is numbered by its position.
pub open spec fn columns_numbered(o: Option<QueryLineageView>) -> bool {
    o matches Some(l) ==> forall|i: int| 0 <= i < l.columns.len() ==> (#[trigger] l.columns[i]).index == i as u32
}

proof fn lemma_resolve_node_numbered(src: Seq<u8>, cat: Seq<LayerModel>, ctes: CteBodies, n: Node)
    ensures
        columns_numbered(resolve_node(src, cat, ctes, n).1),
    decreases n,
{
    match n {
        Node::CteScope { bindings, body, .. } => {
            match body {
                Some(b) => lemma_resolve_node_numbered(src, cat, cte_bindings(ctes, bindings@), *b),
                None => {},
            }
        },
        Node::Plain { children, .. } => lemma_resolve_first_numbered(src, cat, ctes, children@),
        Node::DmlScope { children } => lemma_resolve_first_numbered(src, cat, ctes, children@),
        _ => {},
    }
}

proof fn lemma_resolve_first_numbered(src: Seq<u8>, cat: Seq<LayerModel>, ctes: CteBodies, ns: Seq<Node>)
    ensures
        columns_numbered(resolve_first(src, cat, ctes, ns).1),
    decreases ns,
{
    if ns.len() > 0 {
        lemma_resolve_node_numbered(src, cat, ctes, ns[0]);
        let r = resolve_node(src, cat, ctes, ns[0]);
        lemma_resolve_first_numbered(src, cat, r.0, ns.drop_first());
    }
}

/// The lineage of a statement numbers its result columns from zero, in the
/// order of the result column list.
pub proof fn law_lineage_columns_numbered(src: Seq<u8>, cat: Seq<LayerModel>, n: Node)
    ensures
        columns_numbered(statement_lineage(src, cat, n)),
{
    lemma_resolve_node_numbered(src, cat, Seq::empty(), n);
}

/// Some relation of the list is a view.
pub open spec fn reads_view(rels: Seq<(Seq<char>, RelationKind)>) -> bool {
    exists|i: int| 0 <= i < rels.len() && (#[trigger] rels[i]).1 == RelationKind::View
}

proof fn lemma_join_reads_view(a: Reads, b: Reads)
    ensures
        reads_view(join_reads(a, b).relations) == (reads_view(a.relations) || reads_view(b.relations)),
{
    let j = join_reads(a, b).relations;
    if reads_view(j) {
        let i = choose|i: int| 0 <= i < j.len() && (#[trigger] j[i]).1 == RelationKind::View;
        if i < a.relations.len() {
            assert(a.relations[i] == j[i]);
        } else {
            assert(b.relations[i - a.relations.len()] == j[i]);
        }
    }
    if reads_view(a.relations) {
        let i = choose|i: int| 0 <= i < a.relations.len() && (#[trigger] a.relations[i]).1 == RelationKind::View;
        assert(j[i] == a.relations[i]);
    }
    if reads_view(b.relations) {
        let i = choose|i: int| 0 <= i < b.relations.len() && (#[trigger] b.relations[i]).1 == RelationKind::View;
        assert(j[i + a.relations.len()] == b.relations[i]);
    }
}

/// A view is seen exactly when a view is among the relations read.
proof fn lemma_gather_view_seen(src: Seq<u8>, cat: Seq<LayerModel>, ctes: CteBodies, tracing: Seq<Seq<char>>, bound: nat, s: Sources)
    ensures
        gather(src, cat, ctes, tracing, bound, s).view_seen == reads_view(gather(src, cat, ctes, tracing, bound, s).relations),
    decreases untraced(ctes, tracing), bound, s.len() + 1,
{
    if s.len() > 0 {
        let info = s[0].1;
        let first = match info.kind {
            SourceKindView::Table => Reads {
                relations: seq![(info.canonical, RelationKind::Table)],
                tables: seq![info.canonical],
                view_seen: false,
            },
            SourceKindView::View => Reads {
                relations: seq![(info.canonical, RelationKind::View)],
                tables: seq![info.canonical],
                view_seen: true,
            },
            SourceKindView::Cte(name) => if tracing.contains(name) {
                no_reads()
            } else {
                match lookup(ctes, name) {
                    Some(body) => {
                        lemma_untraced_push(ctes, tracing, name);
                        lemma_body_view_seen(src, cat, ctes, tracing.push(name), body);
                        body_reads(src, cat, ctes, tracing.push(name), body)
                    },
                    None => no_reads(),
                }
            },
            SourceKindView::Subquery(body) => if body_size(body) < bound {
                lemma_body_view_seen(src, cat, ctes, tracing, body);
                body_reads(src, cat, ctes, tracing, body)
            } else {
                no_reads()
            },
        };
        match info.kind {
            SourceKindView::Table => {
                assert(!reads_view(first.relations));
            },
            SourceKindView::View => {
                assert(first.relations[0].1 == RelationKind::View);
            },
            _ => {
                assert(!reads_view(no_reads().relations));
            },
        }
        lemma_gather_view_seen(src, cat, ctes, tracing, bound, s.drop_first());
        let rest = gather(src, cat, ctes, tracing, bound, s.drop_first());
        lemma_join_reads_view(first, rest);
        assert(gather(src, cat, ctes, tracing, bound, s) == join_reads(first, rest));
    } else {
        assert(!reads_view(no_reads().relations));
    }
}

proof fn lemma_body_view_seen(src: Seq<u8>, cat: Seq<LayerModel>, ctes: CteBodies, tracing: Seq<Seq<char>>, body: Option<Node>)
    ensures
        body_reads(src, cat, ctes, tracing, body).view_seen == reads_view(body_reads(src, cat, ctes, tracing, body).relations),
    decreases untraced(ctes, tracing), body_size(body), 0nat,
{
    assert(!reads_view(no_reads().relations));
    match body {
        None => {},
        Some(b) => match find_select(b) {
            Some(Node::Query { from: Some(f), .. }) => {
                lemma_find_select_size(b);
                lemma_gather_view_seen(src, cat, ctes, tracing, node_size(*f), collect_sources(src, cat, ctes, *f, Seq::empty()));
            },
            _ => {},
        },
    }
}

/// The kind recorded for a name is that of one of its entries, unless the
/// name has none.
proof fn lemma_first_kind_view(rels: Seq<(Seq<char>, RelationKind)>, name: Seq<char>)
    ensures
        first_kind(rels, name) == RelationKind::View ==> reads_view(rels),
    decreases rels.len(),
{
    if rels.len() > 0 && rels[0].0 != name {
        lemma_first_kind_view(rels.drop_first(), name);
        if reads_view(rels.drop_first()) {
            let i = choose|i: int| 0 <= i < rels.drop_first().len() && (#[trigger] rels.drop_first()[i]).1 == RelationKind::View;
            assert(rels[i + 1] == rels.drop_first()[i]);
        }
    } else if rels.len() > 0 {
        assert(first_kind(rels, name) == RelationKind::View ==> rels[0].1 == RelationKind::View);
    }
}

/// Each relation is marked a view exactly when the catalog's relation of
/// that name is one.
pub open spec fn rels_honest(cat: Seq<LayerModel>, rels: Seq<(Seq<char>, RelationKind)>) -> bool {
    forall|i: int| 0 <= i < rels.len() ==> ((#[trigger] rels[i]).1 == RelationKind::View) == catalog_is_view(cat, rels[i].0)
}

proof fn lemma_join_honest(cat: Seq<LayerModel>, a: Reads, b: Reads)
    requires
        rels_honest(cat, a.relations),
        rels_honest(cat, b.relations),
    ensures
        rels_honest(cat, join_reads(a, b).relations),
{
    let j = join_reads(a, b).relations;
    assert forall|i: int| 0 <= i < j.len() implies ((#[trigger] j[i]).1 == RelationKind::View) == catalog_is_view(cat, j[i].0) by {
        if i < a.relations.len() {
            assert(j[i] == a.relations[i]);
        } else {
            assert(j[i] == b.relations[i - a.relations.len()]);
        }
    }
}

proof fn lemma_gather_honest(src: Seq<u8>, cat: Seq<LayerModel>, ctes: CteBodies, tracing: Seq<Seq<char>>, bound: nat, s: Sources)
    requires
        kinds_honest(cat, s),
    ensures
        rels_honest(cat, gather(src, cat, ctes, tracing, bound, s).relations),
    decreases untraced(ctes, tracing), bound, s.len() + 1,
{
    if s.len() > 0 {
        let info = s[0].1;
        assert(kind_honest(cat, info));
        let first = match info.kind {
            SourceKindView::Table => Reads {
                relations: seq![(info.canonical, RelationKind::Table)],
                tables: seq![info.canonical],
                view_seen: false,
            },
            SourceKindView::View => Reads {
                relations: seq![(info.canonical, RelationKind::View)],
                tables: seq![info.canonical],
                view_seen: true,
            },
            SourceKindView::Cte(name) => if tracing.contains(name) {
                no_reads()
            } else {
                match lookup(ctes, name) {
                    Some(body) => {
                        lemma_untraced_push(ctes, tracing, name);
                        lemma_body_honest(src, cat, ctes, tracing.push(name), body);
                        body_reads(src, cat, ctes, tracing.push(name), body)
                    },
                    None => no_reads(),
                }
            },
            SourceKindView::Subquery(body) => if body_size(body) < bound {
                lemma_body_honest(src, cat, ctes, tracing, body);
                body_reads(src, cat, ctes, tracing, body)
            } else {
                no_reads()
            },
        };
        assert(rels_honest(cat, first.relations));
        assert forall|i: int| 0 <= i < s.drop_first().len() implies kind_honest(cat, (#[trigger] s.drop_first()[i]).1) by {
            assert(s.drop_first()[i] == s[i + 1]);
        }
        lemma_gather_honest(src, cat, ctes, tracing, bound, s.drop_first());
        let rest = gather(src, cat, ctes, tracing, bound, s.drop_first());
        lemma_join_honest(cat, first, rest);
        assert(gather(src, cat, ctes, tracing, bound, s) == join_reads(first, rest));
    }
}

proof fn lemma_body_honest(src: Seq<u8>, cat: Seq<LayerModel>, ctes: CteBodies, tracing: Seq<Seq<char>>, body: Option<Node>)
    ensures
        rels_honest(cat, body_reads(src, cat, ctes, tracing, body).relations),
    decreases untraced(ctes, tracing), body_size(body), 0nat,
{
    match body {
        None => {},
        Some(b) => match find_select(b) {
            Some(Node::Query { from: Some(f), .. }) => {
                lemma_find_select_size(b);
                let empty: Sources = Seq::empty();
                lemma_collect_ok(src, cat, ctes, *f, empty, 0);
                lemma_gather_honest(src, cat, ctes, tracing, node_size(*f), collect_sources(src, cat, ctes, *f, empty));
            },
            _ => {},
        },
    }
}

/// The kind recorded for a name that occurs is the catalog's.
proof fn lemma_first_kind_honest(cat: Seq<LayerModel>, rels: Seq<(Seq<char>, RelationKind)>, name: Seq<char>)
    requires
        rels_honest(cat, rels),
        rels.map_values(|r: (Seq<char>, RelationKind)| r.0).contains(name),
    ensures
        (first_kind(rels, name) == RelationKind::View) == catalog_is_view(cat, name),
    decreases rels.len(),
{
    let names = rels.map_values(|r: (Seq<char>, RelationKind)| r.0);
    let k = choose|k: int| 0 <= k < names.len() && names[k] == name;
    if rels[0].0 != name {
        let rest = rels.drop_first();
        assert(k > 0);
        assert(rest.map_values(|r: (Seq<char>, RelationKind)| r.0)[k - 1] == name);
        assert forall|i: int| 0 <= i < rest.len() implies ((#[trigger] rest[i]).1 == RelationKind::View) == catalog_is_view(cat, rest[i].0) by {
            assert(rest[i] == rels[i + 1]);
        }
        lemma_first_kind_honest(cat, rest, name);
    } else {
        assert(rels[0].1 == RelationKind::View <==> catalog_is_view(cat, rels[0].0));
    }
}

/// A lineage is complete exactly when none of the relations it lists is a
/// view.
pub open spec fn complete_without_views(o: Option<QueryLineageView>) -> bool {
    o matches Some(l) ==> (l.complete <==> !reads_view(l.relations))
}

proof fn lemma_select_complete(src: Seq<u8>, cat: Seq<LayerModel>, ctes: CteBodies, q: Node)
    ensures
        complete_without_views(select_lineage(src, cat, ctes, q)),
{
    match q {
        Node::Query { from, results: Some(rs), .. } => {
            let s = from_sources(src, cat, ctes, from);
            let bound = opt_size(from);
            let reads = gather(src, cat, ctes, Seq::empty(), bound, s);
            let rels = reads.relations;
            lemma_gather_view_seen(src, cat, ctes, Seq::empty(), bound, s);
            let empty: Sources = Seq::empty();
            lemma_collect_opt_ok(src, cat, ctes, from, empty, 0);
            lemma_gather_honest(src, cat, ctes, Seq::empty(), bound, s);
            let in_names = rels.map_values(|r: (Seq<char>, RelationKind)| r.0);
            let names = sorted_names(in_names);
            let listed = sorted_relations(rels);
            if reads_view(listed) {
                let i = choose|i: int| 0 <= i < listed.len() && (#[trigger] listed[i]).1 == RelationKind::View;
                assert(listed[i] == (names[i], first_kind(rels, names[i])));
                lemma_first_kind_view(rels, names[i]);
            }
            if reads_view(rels) {
                let j = choose|j: int| 0 <= j < rels.len() && (#[trigger] rels[j]).1 == RelationKind::View;
                let m = rels[j].0;
                assert(in_names[j] == m);
                lemma_sorted_names(in_names);
                assert(names.contains(m));
                let k = choose|k: int| 0 <= k < names.len() && names[k] == m;
                lemma_first_kind_honest(cat, rels, m);
                assert(listed[k] == (m, first_kind(rels, m)));
                assert(listed[k].1 == RelationKind::View);
            }
        },
        _ => {},
    }
}

proof fn lemma_resolve_node_complete(src: Seq<u8>, cat: Seq<LayerModel>, ctes: CteBodies, n: Node)
    ensures
        complete_without_views(resolve_node(src, cat, ctes, n).1),
    decreases n,
{
    match n {
        Node::CteScope { bindings, body, .. } => {
            match body {
                Some(b) => lemma_resolve_node_complete(src, cat, cte_bindings(ctes, bindings@), *b),
                None => {},
            }
        },
        Node::Query { .. } => lemma_select_complete(src, cat, ctes, n),
        Node::Plain { children, .. } => lemma_resolve_first_complete(src, cat, ctes, children@),
        Node::DmlScope { children } => lemma_resolve_first_complete(src, cat, ctes, children@),
        _ => {},
    }
}

proof fn lemma_resolve_first_complete(src: Seq<u8>, cat: Seq<LayerModel>, ctes: CteBodies, ns: Seq<Node>)
    ensures
        complete_without_views(resolve_first(src, cat, ctes, ns).1),
    decreases ns,
{
    if ns.len() > 0 {
        lemma_resolve_node_complete(src, cat, ctes, ns[0]);
        let r = resolve_node(src, cat, ctes, ns[0]);
        lemma_resolve_first_complete(src, cat, r.0, ns.drop_first());
    }
}

/// A lineage is complete exactly when none of the relations it reads is a
/// view: a view's body is not traced, so its columns cannot be followed to
/// tables, and every other source can.
pub proof fn law_lineage_complete_without_views(src: Seq<u8>, cat: Seq<LayerModel>, n: Node)
    ensures
        complete_without_views(statement_lineage(src, cat, n)),
{
    lemma_resolve_node_complete(src, cat, Seq::empty(), n);
}

/// The expression of a result column.
pub open spec fn result_expr(n: Node) -> Option<Box<Node>> {
    match n {
        Node::ResultColumn { expr, .. } => expr,
        _ => None,
    }
}

/// Every node of the list is a result column that is not `*`.
pub open spec fn plain_results(rs: Seq<Node>) -> bool {
    forall|i: int| 0 <= i < rs.len() ==> (#[trigger] rs[i]) matches Node::ResultColumn { star: false, .. }
}

proof fn lemma_traced_plain(src: Seq<u8>, cat: Seq<LayerModel>, ctes: CteBodies, bound: nat, rs: Seq<Node>, s: Sources)
    requires
        plain_results(rs),
    ensures
        traced_columns(src, cat, ctes, bound, rs, s).len() == rs.len(),
        forall|k: int| 0 <= k < rs.len() ==> (#[trigger] traced_columns(src, cat, ctes, bound, rs, s)[k]).origin == trace_expr_origin(
            src,
            cat,
            ctes,
            Seq::empty(),
            bound,
            result_expr(rs[k]),
            s,
        ),
    decreases rs.len(),
{
    if rs.len() > 0 {
        let prev = rs.drop_last();
        assert forall|i: int| 0 <= i < prev.len() implies (#[trigger] prev[i]) matches Node::ResultColumn { star: false, .. } by {
            assert(prev[i] == rs[i]);
        }
        lemma_traced_plain(src, cat, ctes, bound, prev, s);
        assert(rs.last() == rs[rs.len() - 1]);
        let t = traced_columns(src, cat, ctes, bound, rs, s);
        assert forall|k: int| 0 <= k < rs.len() implies (#[trigger] t[k]).origin == trace_expr_origin(
            src,
            cat,
            ctes,
            Seq::empty(),
            bound,
            result_expr(rs[k]),
            s,
        ) by {
            if k < rs.len() - 1 {
                assert(rs[k] == prev[k]);
            }
        }
    }
}

/// A result column `q.c`, where `q` names a FROM source that is a catalog
/// table `T`, comes from column `c` (lowercased) of `T`: the qualifier
/// decides the source, whatever other sources also list `c`.
pub proof fn law_qualified_column_comes_from_its_table(
    src: Seq<u8>,
    cat: Seq<LayerModel>,
    from: Option<Box<Node>>,
    rs: Vec<Node>,
    clauses: Vec<Node>,
    k: int,
    column: Span,
    table: Span,
    info: SourceInfoView,
)
    requires
        plain_results(rs@),
        0 <= k < rs@.len(),
        result_expr(rs@[k]) == Some(Box::new(Node::ColumnRef { column, table })),
        column.text@.len() > 0,
        table.text@.len() > 0,
        lookup(from_sources(src, cat, Seq::empty(), from), lower_chars(table.text@)) == Some(info),
        info.kind == SourceKindView::Table,
    ensures
        statement_lineage(src, cat, Node::Query { from, results: Some(rs), clauses }) matches Some(l) && l.columns.len()
            == rs@.len() && l.columns[k].origin == Some(ColumnOriginView { table: info.canonical, column: lower_chars(column.text@) }),
{
    let s = from_sources(src, cat, Seq::empty(), from);
    let bound = opt_size(from);
    lemma_traced_plain(src, cat, Seq::empty(), bound, rs@, s);
    let q = lower_chars(table.text@);
    let c = lower_chars(column.text@);
    assert(find_source(s, q) == Some(info));
    assert(trace_column(src, cat, Seq::empty(), Seq::empty(), bound, q, c, s) == Some(ColumnOriginView { table: info.canonical, column: lower_chars(c) }));
    lemma_lower_chars_idempotent(column.text@);
    let n = Node::Query { from, results: Some(rs), clauses };
    assert(resolve_node(src, cat, Seq::empty(), n).1 == select_lineage(src, cat, Seq::empty(), n));
    let t = traced_columns(src, cat, Seq::empty(), bound, rs@, s);
    assert(t[k].origin == trace_expr_origin(src, cat, Seq::empty(), Seq::empty(), bound, result_expr(rs@[k]), s));
    assert(numbered(t)[k].origin == t[k].origin);
}

/// Source `i` lists a column equal to `col` ignoring ASCII case.
pub open spec fn source_lists(s: Sources, i: int, col: Seq<char>) -> bool {
    s[i].1.columns matches Some(cols) && exists|m: int| 0 <= m < cols.len() && same_ignoring_case(#[trigger] cols[m], col)
}

proof fn lemma_first_listing_at(s: Sources, col: Seq<char>, j: int)
    requires
        0 <= j < s.len(),
        source_lists(s, j, col),
        forall|i: int| 0 <= i < j ==> !source_lists(s, i, col),
    ensures
        first_listing(s, col) == Some(s[j].0),
    decreases j,
{
    if j == 0 {
        let cols = s[0].1.columns->0;
        let m = choose|m: int| 0 <= m < cols.len() && same_ignoring_case(#[trigger] cols[m], col);
        assert(lists_column(cols, col));
    } else {
        if let Some(cols) = s[0].1.columns {
            if lists_column(cols, col) {
                let m = choose|m: int| 0 <= m < cols.len() && same_ignoring_case(#[trigger] cols[m], col);
                assert(source_lists(s, 0, col));
            }
        }
        let rest = s.drop_first();
        assert forall|i: int| 0 <= i < j - 1 implies !source_lists(rest, i, col) by {
            assert(rest[i] == s[i + 1]);
            assert(!source_lists(s, i + 1, col));
        }
        assert(rest[j - 1] == s[j]);
        lemma_first_listing_at(rest, col, j - 1);
    }
}

proof fn lemma_lookup_unique(s: Sources, j: int)
    requires
        keys_unique(s),
        0 <= j < s.len(),
    ensures
        lookup(s, s[j].0) == Some(s[j].1),
{
    crate::table::lemma_last_index_of(s, s[j].0);
    let i = crate::table::last_index_of(s, s[j].0);
    if i != j {
        if i < j {
            assert(s[i].0 != s[j].0);
        } else {
            assert(s[j].0 != s[i].0);
        }
    }
}

/// A result column that is a bare column reference `c` comes from the first
/// FROM source, in the order the FROM clause names them, whose known
/// columns include `c`; when that source is a catalog table `T`, its origin
/// is column `c` (lowercased) of `T`.
pub proof fn law_bare_column_comes_from_first_listing_source(
    src: Seq<u8>,
    cat: Seq<LayerModel>,
    from: Option<Box<Node>>,
    rs: Vec<Node>,
    clauses: Vec<Node>,
    k: int,
    column: Span,
    table: Span,
    j: int,
)
    requires
        plain_results(rs@),
        0 <= k < rs@.len(),
        result_expr(rs@[k]) == Some(Box::new(Node::ColumnRef { column, table })),
        column.text@.len() > 0,
        table.text@.len() == 0,
        0 <= j < from_sources(src, cat, Seq::empty(), from).len(),
        source_lists(from_sources(src, cat, Seq::empty(), from), j, column.text@),
        forall|i: int| 0 <= i < j ==> !source_lists(from_sources(src, cat, Seq::empty(), from), i, column.text@),
        from_sources(src, cat, Seq::empty(), from)[j].1.kind == SourceKindView::Table,
    ensures
        statement_lineage(src, cat, Node::Query { from, results: Some(rs), clauses }) matches Some(l) && l.columns.len()
            == rs@.len() && l.columns[k].origin == Some(
            ColumnOriginView { table: from_sources(src, cat, Seq::empty(), from)[j].1.canonical, column: lower_chars(column.text@) },
        ),
{
    let s = from_sources(src, cat, Seq::empty(), from);
    let bound = opt_size(from);
    let c = lower_chars(column.text@);
    lemma_lower_chars_idempotent(column.text@);
    assert forall|i: int| 0 <= i < s.len() implies source_lists(s, i, c) == source_lists(s, i, column.text@) by {
        if let Some(cols) = s[i].1.columns {
            assert forall|m: int| 0 <= m < cols.len() implies same_ignoring_case(#[trigger] cols[m], c) == same_ignoring_case(
                cols[m],
                column.text@,
            ) by {}
        }
    }
    lemma_first_listing_at(s, c, j);
    let empty: Sources = Seq::empty();
    lemma_collect_opt_ok(src, cat, Seq::empty(), from, empty, 0);
    lemma_lookup_unique(s, j);
    assert(find_source(s, s[j].0) == Some(s[j].1));
    assert(source_for_column(s, c) == Some(s[j].0));
    assert(trace_column(src, cat, Seq::empty(), Seq::empty(), bound, s[j].0, c, s) == Some(ColumnOriginView { table: s[j].1.canonical, column: lower_chars(c) }));
    lemma_traced_plain(src, cat, Seq::empty(), bound, rs@, s);
    let n = Node::Query { from, results: Some(rs), clauses };
    assert(resolve_node(src, cat, Seq::empty(), n).1 == select_lineage(src, cat, Seq::empty(), n));
    let t = traced_columns(src, cat, Seq::empty(), bound, rs@, s);
    assert(t[k].origin == trace_expr_origin(src, cat, Seq::empty(), Seq::empty(), bound, result_expr(rs@[k]), s));
    assert(numbered(t)[k].origin == t[k].origin);
}

// ── Well-formed sources ─────────────────────────────────────────────────────

/// Every subquery body among the sources fits the source text.
pub open spec fn sources_fit(src: Seq<u8>, s: Sources) -> bool {
    forall|i: int| 0 <= i < s.len() ==> ((#[trigger] s[i]).1.kind matches SourceKindView::Subquery(Some(b)) ==> node_fits(src, b))
}

/// Every subquery body among the sources is smaller than `bound`.
pub open spec fn bodies_below(s: Sources, bound: nat) -> bool {
    forall|i: int| 0 <= i < s.len() ==> ((#[trigger] s[i]).1.kind matches SourceKindView::Subquery(b) ==> body_size(b) < bound)
}

/// Every CTE body fits the source text.
pub open spec fn ctes_fit(src: Seq<u8>, ctes: CteBodies) -> bool {
    forall|i: int| 0 <= i < ctes.len() ==> ((#[trigger] ctes[i]).1 matches Some(b) ==> node_fits(src, b))
}

/// A table or view source has the kind the catalog gives its name.
pub open spec fn kind_honest(cat: Seq<LayerModel>, v: SourceInfoView) -> bool {
    match v.kind {
        SourceKindView::Table => !catalog_is_view(cat, v.canonical),
        SourceKindView::View => catalog_is_view(cat, v.canonical),
        _ => true,
    }
}

/// Every table or view among the sources has the kind the catalog gives it.
pub open spec fn kinds_honest(cat: Seq<LayerModel>, s: Sources) -> bool {
    forall|i: int| 0 <= i < s.len() ==> kind_honest(cat, (#[trigger] s[i]).1)
}

proof fn lemma_insert_sources(src: Seq<u8>, cat: Seq<LayerModel>, s: Sources, k: Seq<char>, v: SourceInfoView, bound: nat)
    ensures
        kinds_honest(cat, s) && kind_honest(cat, v) ==> kinds_honest(cat, assoc_insert(s, k, v)),
        keys_unique(s) ==> keys_unique(assoc_insert(s, k, v)),
        sources_fit(src, s) && (v.kind matches SourceKindView::Subquery(Some(b)) ==> node_fits(src, b)) ==> sources_fit(
            src,
            assoc_insert(s, k, v),
        ),
        bodies_below(s, bound) && (v.kind matches SourceKindView::Subquery(b) ==> body_size(b) < bound) ==> bodies_below(
            assoc_insert(s, k, v),
            bound,
        ),
{
    crate::table::lemma_last_index_of(s, k);
    if keys_unique(s) {
        crate::table::lemma_assoc_insert(s, k, v);
    }
}

proof fn lemma_collect_ok(src: Seq<u8>, cat: Seq<LayerModel>, ctes: CteBodies, n: Node, target: Sources, bound: nat)
    ensures
        node_fits(src, n) && sources_fit(src, target) ==> sources_fit(src, collect_sources(src, cat, ctes, n, target)),
        node_size(n) <= bound && bodies_below(target, bound) ==> bodies_below(collect_sources(src, cat, ctes, n, target), bound),
        kinds_honest(cat, target) ==> kinds_honest(cat, collect_sources(src, cat, ctes, n, target)),
        keys_unique(target) ==> keys_unique(collect_sources(src, cat, ctes, n, target)),
    decreases n,
{
    match n {
        Node::SourceRef { name, alias } => {
            if name.text@.len() > 0 {
                let display = lower_chars(
                    if alias.text@.len() > 0 {
                        alias.text@
                    } else {
                        name.text@
                    },
                );
                lemma_insert_sources(src, cat, target, display, named_source(src, cat, ctes, lower_chars(name.text@)), bound);
            }
        },
        Node::ScopedSource { body, alias } => {
            if alias.text@.len() > 0 {
                let a = lower_chars(alias.text@);
                let v = SourceInfoView {
                    canonical: a,
                    columns: match body {
                        Some(b) => select_columns(src, *b),
                        None => None,
                    },
                    kind: SourceKindView::Subquery(unboxed(body)),
                };
                lemma_insert_sources(src, cat, target, a, v, bound);
            }
        },
        Node::Plain { children, .. } => lemma_collect_all_ok(src, cat, ctes, children@, target, bound),
        Node::CreateTable { select, .. } => lemma_collect_opt_ok(src, cat, ctes, select, target, bound),
        Node::CreateView { select, .. } => lemma_collect_opt_ok(src, cat, ctes, select, target, bound),
        Node::CreateFunction { select, .. } => lemma_collect_opt_ok(src, cat, ctes, select, target, bound),
        Node::ResultColumn { expr, .. } => lemma_collect_opt_ok(src, cat, ctes, expr, target, bound),
        Node::Call { args, rest, .. } => {
            lemma_collect_all_ok(src, cat, ctes, args@, target, bound);
            lemma_collect_all_ok(src, cat, ctes, rest@, collect_all(src, cat, ctes, args@, target), bound);
        },
        Node::Query { from, results, clauses } => {
            lemma_collect_opt_ok(src, cat, ctes, from, target, bound);
            let t1 = collect_opt(src, cat, ctes, from, target);
            match results {
                Some(rs) => {
                    lemma_collect_all_ok(src, cat, ctes, rs@, t1, bound);
                    lemma_collect_all_ok(src, cat, ctes, clauses@, collect_all(src, cat, ctes, rs@, t1), bound);
                },
                None => lemma_collect_all_ok(src, cat, ctes, clauses@, t1, bound),
            }
        },
        Node::CteScope { bindings, body, .. } => {
            lemma_collect_all_ok(src, cat, ctes, bindings@, target, bound);
            lemma_collect_opt_ok(src, cat, ctes, body, collect_all(src, cat, ctes, bindings@, target), bound);
        },
        Node::CteBinding { body, .. } => lemma_collect_opt_ok(src, cat, ctes, body, target, bound),
        Node::TriggerScope { when, body } => {
            lemma_collect_opt_ok(src, cat, ctes, when, target, bound);
            lemma_collect_opt_ok(src, cat, ctes, body, collect_opt(src, cat, ctes, when, target), bound);
        },
        Node::DmlScope { children } => lemma_collect_all_ok(src, cat, ctes, children@, target, bound),
        _ => {},
    }
}

proof fn lemma_collect_all_ok(src: Seq<u8>, cat: Seq<LayerModel>, ctes: CteBodies, ns: Seq<Node>, target: Sources, bound: nat)
    ensures
        crate::tree::nodes_fit(src, ns) && sources_fit(src, target) ==> sources_fit(src, collect_all(src, cat, ctes, ns, target)),
        nodes_size(ns) <= bound && bodies_below(target, bound) ==> bodies_below(collect_all(src, cat, ctes, ns, target), bound),
        kinds_honest(cat, target) ==> kinds_honest(cat, collect_all(src, cat, ctes, ns, target)),
        keys_unique(target) ==> keys_unique(collect_all(src, cat, ctes, ns, target)),
    decreases ns,
{
    if ns.len() > 0 {
        lemma_collect_all_ok(src, cat, ctes, ns.drop_last(), target, bound);
        lemma_collect_ok(src, cat, ctes, ns.last(), collect_all(src, cat, ctes, ns.drop_last(), target), bound);
    }
}

proof fn lemma_collect_opt_ok(src: Seq<u8>, cat: Seq<LayerModel>, ctes: CteBodies, o: Option<Box<Node>>, target: Sources, bound: nat)
    ensures
        crate::tree::opt_fits(src, o) && sources_fit(src, target) ==> sources_fit(src, collect_opt(src, cat, ctes, o, target)),
        opt_size(o) <= bound && bodies_below(target, bound) ==> bodies_below(collect_opt(src, cat, ctes, o, target), bound),
        kinds_honest(cat, target) ==> kinds_honest(cat, collect_opt(src, cat, ctes, o, target)),
        keys_unique(target) ==> keys_unique(collect_opt(src, cat, ctes, o, target)),
    decreases o,
{
    match o {
        Some(n) => lemma_collect_ok(src, cat, ctes, *n, target, bound),
        None => {},
    }
}

/// The query a fitting body comes down to fits too.
proof fn lemma_find_select_fits(src: Seq<u8>, n: Node)
    requires
        node_fits(src, n),
    ensures
        find_select(n) matches Some(q) ==> node_fits(src, q),
    decreases n,
{
    match n {
        Node::CteScope { body, .. } => match body {
            Some(b) => lemma_find_select_fits(src, *b),
            None => {},
        },
        Node::Plain { children, .. } => lemma_first_select_fits(src, children@),
        _ => {},
    }
}

proof fn lemma_first_select_fits(src: Seq<u8>, ns: Seq<Node>)
    requires
        crate::tree::nodes_fit(src, ns),
    ensures
        first_select(ns) matches Some(q) ==> node_fits(src, q),
    decreases ns,
{
    if ns.len() > 0 {
        crate::tree::lemma_nodes_fit_at(src, ns, 0);
        lemma_find_select_fits(src, ns[0]);
        lemma_nodes_fit_drop_first(src, ns);
        lemma_first_select_fits(src, ns.drop_first());
    }
}

proof fn lemma_nodes_fit_drop_first(src: Seq<u8>, ns: Seq<Node>)
    requires
        crate::tree::nodes_fit(src, ns),
        ns.len() > 0,
    ensures
        crate::tree::nodes_fit(src, ns.drop_first()),
    decreases ns.len(),
{
    if ns.len() > 1 {
        lemma_nodes_fit_drop_first(src, ns.drop_last());
        assert(ns.drop_last().drop_first() =~= ns.drop_first().drop_last());
        assert(ns.drop_first().last() == ns.last());
    } else {
        assert(ns.drop_first().len() == 0);
    }
}

/// Registering fitting bindings keeps the CTE bodies fitting.
proof fn lemma_cte_bindings_fit(src: Seq<u8>, ctes: CteBodies, bs: Seq<Node>)
    requires
        ctes_fit(src, ctes),
        crate::tree::nodes_fit(src, bs),
    ensures
        ctes_fit(src, cte_bindings(ctes, bs)),
    decreases bs.len(),
{
    if bs.len() > 0 {
        lemma_cte_bindings_fit(src, ctes, bs.drop_last());
        let c0 = cte_bindings(ctes, bs.drop_last());
        assert(node_fits(src, bs.last()));
        match bs.last() {
            Node::CteBinding { name, body, .. } => {
                if name.text@.len() > 0 {
                    let k = lower_chars(name.text@);
                    crate::table::lemma_last_index_of(c0, k);
                    assert(crate::tree::opt_fits(src, body));
                    let c1 = assoc_insert(c0, k, unboxed(body));
                    assert forall|i: int| 0 <= i < c1.len() implies ((#[trigger] c1[i]).1 matches Some(b) ==> node_fits(src, b)) by {
                        if i < c0.len() && c1[i] == c0[i] {
                        } else {
                            assert(c1[i].1 == unboxed(body));
                        }
                    }
                }
            },
            _ => {},
        }
    }
}

// ── The resolver ─────────────────────────────────────────────────────────────

/// What kind of FROM source an entry is.
enum SourceKind<'a> {
    Cte(String),
    Subquery(Option<&'a Node>),
    Table,
    View,
}

/// A FROM source: its lowercase name before aliasing, its known columns and
/// its kind.
struct SourceInfo<'a> {
    canonical: String,
    columns: Option<Vec<String>>,
    kind: SourceKind<'a>,
}

/// The node an optional reference points to.
pub open spec fn deref_opt(o: Option<&Node>) -> Option<Node> {
    match o {
        Some(r) => Some(*r),
        None => None,
    }
}

impl<'a> View for SourceInfo<'a> {
    type V = SourceInfoView;

    closed spec fn view(&self) -> SourceInfoView {
        SourceInfoView {
            canonical: self.canonical@,
            columns: columns_view(self.columns),
            kind: match self.kind {
                SourceKind::Cte(n) => SourceKindView::Cte(n@),
                SourceKind::Subquery(b) => SourceKindView::Subquery(deref_opt(b)),
                SourceKind::Table => SourceKindView::Table,
                SourceKind::View => SourceKindView::View,
            },
        }
    }
}

/// The body of a CTE.
struct CteBody<'a> {
    body: Option<&'a Node>,
}

impl<'a> View for CteBody<'a> {
    type V = Option<Node>;

    closed spec fn view(&self) -> Option<Node> {
        deref_opt(self.body)
    }
}

/// Resolves the lineage of one statement against a catalog.
pub struct LineageResolver<'a> {
    source: &'a str,
    catalog: &'a Catalog,
    cte_bodies: NameTable<CteBody<'a>>,
    tracing: Vec<String>,
}

/// The node an optional box holds, by reference.
fn opt_node<'b>(o: &'b Option<Box<Node>>) -> (r: Option<&'b Node>)
    ensures
        deref_opt(r) == unboxed(*o),
{
    match o {
        Some(b) => Some(&**b),
        None => None,
    }
}

impl<'a> LineageResolver<'a> {
    pub closed spec fn src(&self) -> Seq<u8> {
        utf8(self.source@)
    }

    pub closed spec fn cat(&self) -> Seq<LayerModel> {
        self.catalog@
    }

    pub closed spec fn ctes(&self) -> CteBodies {
        self.cte_bodies.entries()
    }

    pub closed spec fn traced(&self) -> Seq<Seq<char>> {
        string_views(self.tracing@)
    }

    pub closed spec fn wf(&self) -> bool {
        &&& self.catalog.wf()
        &&& self.cte_bodies.wf()
        &&& utf8(self.source@).len() <= usize::MAX
        &&& ctes_fit(utf8(self.source@), self.cte_bodies.entries())
    }

    /// The same source, catalog, CTE bodies and tracing set.
    pub open spec fn same_as(&self, other: &Self) -> bool {
        &&& self.src() == other.src()
        &&& self.cat() == other.cat()
        &&& self.ctes() == other.ctes()
        &&& self.traced() == other.traced()
        &&& self.wf() == other.wf()
    }

    /// A resolver over a statement's source text and a catalog.
    pub fn new(source: &'a str, catalog: &'a Catalog) -> (r: Self)
        requires
            catalog.wf(),
            utf8(source@).len() <= usize::MAX,
        ensures
            r.wf(),
            r.src() == utf8(source@),
            r.cat() == catalog@,
            r.ctes() == Seq::<(Seq<char>, Option<Node>)>::empty(),
            r.traced() == Seq::<Seq<char>>::empty(),
    {
        let r = LineageResolver { source, catalog, cte_bodies: NameTable::new(), tracing: Vec::new() };
        assert(string_views(r.tracing@) =~= Seq::<Seq<char>>::empty());
        r
    }

    /// The entry for a table, view or CTE named in FROM (see [`named_source`]).
    fn named_source(&self, canonical: &str) -> (r: SourceInfo<'a>)
        requires
            self.wf(),
            lower_chars(canonical@) == canonical@,
        ensures
            r@ == named_source(self.src(), self.cat(), self.ctes(), canonical@),
    {
        match self.cte_bodies.find(canonical) {
            Some(i) => {
                let body = self.cte_bodies.get(i).body;
                assert(self.ctes()[i as int].1 == deref_opt(body));
                let columns = match body {
                    Some(b) => columns_from_select(self.source, b),
                    None => None,
                };
                SourceInfo { canonical: canonical.to_owned(), columns, kind: SourceKind::Cte(canonical.to_owned()) }
            },
            None => {
                let (columns, _) = self.catalog.table_source_info(canonical);
                let kind = if self.catalog.is_view(canonical) {
                    SourceKind::View
                } else {
                    SourceKind::Table
                };
                SourceInfo { canonical: canonical.to_owned(), columns, kind }
            },
        }
    }

    /// See [`collect_sources`].
    fn collect_sources(&self, n: &'a Node, target: &mut NameTable<SourceInfo<'a>>)
        requires
            self.wf(),
            old(target).wf(),
            node_fits(self.src(), *n),
        ensures
            final(target).wf(),
            final(target).entries() == collect_sources(self.src(), self.cat(), self.ctes(), *n, old(target).entries()),
        decreases *n,
    {
        match n {
            Node::SourceRef { name, alias } => {
                if name.text.as_str().is_empty() {
                    return;
                }
                let display = if alias.text.as_str().is_empty() {
                    ascii_lowercase(name.text.as_str())
                } else {
                    ascii_lowercase(alias.text.as_str())
                };
                let canonical = ascii_lowercase(name.text.as_str());
                proof {
                    lemma_lower_chars_idempotent(name.text@);
                }
                let info = self.named_source(canonical.as_str());
                target.insert(display, info);
            },
            Node::ScopedSource { body, alias } => {
                if alias.text.as_str().is_empty() {
                    return;
                }
                let a = ascii_lowercase(alias.text.as_str());
                let columns = match body {
                    Some(b) => columns_from_select(self.source, b),
                    None => None,
                };
                let info = SourceInfo { canonical: a.clone(), columns, kind: SourceKind::Subquery(opt_node(body)) };
                target.insert(a, info);
            },
            Node::Plain { children, .. } => self.collect_all(children, target),
            Node::CreateTable { select, .. } => self.collect_opt(select, target),
            Node::CreateView { select, .. } => self.collect_opt(select, target),
            Node::CreateFunction { select, .. } => self.collect_opt(select, target),
            Node::Opaque => {},
            Node::ResultColumn { expr, .. } => self.collect_opt(expr, target),
            Node::ColumnRef { .. } => {},
            Node::Call { args, rest, .. } => {
                self.collect_all(args, target);
                self.collect_all(rest, target);
            },
            Node::Query { from, results, clauses } => {
                self.collect_opt(from, target);
                match results {
                    Some(rs) => self.collect_all(rs, target),
                    None => {},
                }
                self.collect_all(clauses, target);
            },
            Node::CteScope { bindings, body, .. } => {
                self.collect_all(bindings, target);
                self.collect_opt(body, target);
            },
            Node::CteBinding { body, .. } => self.collect_opt(body, target),
            Node::TriggerScope { when, body } => {
                self.collect_opt(when, target);
                self.collect_opt(body, target);
            },
            Node::DmlScope { children } => self.collect_all(children, target),
        }
    }

    /// See [`collect_all`].
    fn collect_all(&self, ns: &'a Vec<Node>, target: &mut NameTable<SourceInfo<'a>>)
        requires
            self.wf(),
            old(target).wf(),
            crate::tree::nodes_fit(self.src(), ns@),
        ensures
            final(target).wf(),
            final(target).entries() == collect_all(self.src(), self.cat(), self.ctes(), ns@, old(target).entries()),
        decreases *ns,
    {
        let ghost t0 = target.entries();
        let mut i: usize = 0;
        while i < ns.len()
            invariant
                0 <= i <= ns@.len(),
                self.wf(),
                target.wf(),
                crate::tree::nodes_fit(self.src(), ns@),
                target.entries() == collect_all(self.src(), self.cat(), self.ctes(), ns@.take(i as int), t0),
            decreases ns@.len() - i,
        {
            proof {
                crate::tree::lemma_nodes_fit_at(self.src(), ns@, i as int);
            }
            assert(ns@.take(i + 1).drop_last() =~= ns@.take(i as int));
            assert(ns@.take(i + 1).last() == ns@[i as int]);
            self.collect_sources(&ns[i], target);
            i += 1;
        }
        assert(ns@.take(i as int) =~= ns@);
    }

    /// See [`collect_opt`].
    fn collect_opt(&self, o: &'a Option<Box<Node>>, target: &mut NameTable<SourceInfo<'a>>)
        requires
            self.wf(),
            old(target).wf(),
            crate::tree::opt_fits(self.src(), *o),
        ensures
            final(target).wf(),
            final(target).entries() == collect_opt(self.src(), self.cat(), self.ctes(), *o, old(target).entries()),
        decreases *o,
    {
        match o {
            Some(n) => self.collect_sources(n, target),
            None => {},
        }
    }

    /// Register the bindings of a WITH clause (see [`cte_bindings`]).
    fn register_ctes(&mut self, bs: &'a Vec<Node>)
        requires
            old(self).wf(),
            crate::tree::nodes_fit(old(self).src(), bs@),
        ensures
            final(self).wf(),
            final(self).src() == old(self).src(),
            final(self).cat() == old(self).cat(),
            final(self).traced() == old(self).traced(),
            final(self).ctes() == cte_bindings(old(self).ctes(), bs@),
    {
        let ghost c0 = self.ctes();
        let mut i: usize = 0;
        while i < bs.len()
            invariant
                0 <= i <= bs@.len(),
                self.wf(),
                self.src() == old(self).src(),
                self.cat() == old(self).cat(),
                self.traced() == old(self).traced(),
                crate::tree::nodes_fit(self.src(), bs@),
                c0 == old(self).ctes(),
                ctes_fit(self.src(), c0),
                self.ctes() == cte_bindings(c0, bs@.take(i as int)),
            decreases bs@.len() - i,
        {
            proof {
                crate::tree::lemma_nodes_fit_at(self.src(), bs@, i as int);
                lemma_nodes_fit_take(self.src(), bs@, i + 1);
                lemma_cte_bindings_fit(self.src(), c0, bs@.take(i + 1));
            }
            assert(bs@.take(i + 1).drop_last() =~= bs@.take(i as int));
            assert(bs@.take(i + 1).last() == bs@[i as int]);
            match &bs[i] {
                Node::CteBinding { name, body, .. } => {
                    if !name.text.as_str().is_empty() {
                        let key = ascii_lowercase(name.text.as_str());
                        self.cte_bodies.insert(key, CteBody { body: opt_node(body) });
                    }
                },
                _ => {},
            }
            i += 1;
        }
        assert(bs@.take(i as int) =~= bs@);
    }
}

/// See [`find_select`].
fn find_select_node<'b>(n: &'b Node) -> (r: Option<&'b Node>)
    ensures
        deref_opt(r) == find_select(*n),
    decreases *n,
{
    match n {
        Node::Query { .. } => Some(n),
        Node::CteScope { body, .. } => match body {
            Some(b) => find_select_node(b),
            None => None,
        },
        Node::Plain { children, .. } => first_select_node(children),
        _ => None,
    }
}

/// See [`first_select`].
fn first_select_node<'b>(ns: &'b Vec<Node>) -> (r: Option<&'b Node>)
    ensures
        deref_opt(r) == first_select(ns@),
    decreases *ns,
{
    let mut i: usize = 0;
    assert(ns@.skip(0) =~= ns@);
    while i < ns.len()
        invariant
            0 <= i <= ns@.len(),
            first_select(ns@) == first_select(ns@.skip(i as int)),
        decreases ns@.len() - i,
    {
        assert(ns@.skip(i as int)[0] == ns@[i as int]);
        assert(ns@.skip(i as int).drop_first() =~= ns@.skip(i + 1));
        match find_select_node(&ns[i]) {
            Some(q) => {
                return Some(q);
            },
            None => {},
        }
        i += 1;
    }
    assert(ns@.skip(i as int).len() == 0);
    None
}

/// A prefix of fitting nodes fits.
proof fn lemma_nodes_fit_take(src: Seq<u8>, ns: Seq<Node>, k: int)
    requires
        crate::tree::nodes_fit(src, ns),
        0 <= k <= ns.len(),
    ensures
        crate::tree::nodes_fit(src, ns.take(k)),
    decreases ns.len(),
{
    if k < ns.len() {
        assert(ns.drop_last().take(k) =~= ns.take(k));
        lemma_nodes_fit_take(src, ns.drop_last(), k);
    } else {
        assert(ns.take(k) =~= ns);
    }
}

impl<'a> LineageResolver<'a> {
    /// Whether the CTE `name` is being traced.
    fn is_tracing(&self, name: &str) -> (r: bool)
        ensures
            r == self.traced().contains(name@),
    {
        let mut i: usize = 0;
        while i < self.tracing.len()
            invariant
                0 <= i <= self.tracing@.len(),
                forall|j: int| 0 <= j < i ==> (#[trigger] self.tracing@[j])@ != name@,
            decreases self.tracing@.len() - i,
        {
            if str_equal(self.tracing[i].as_str(), name) {
                assert(self.traced()[i as int] == name@);
                return true;
            }
            i += 1;
        }
        assert forall|j: int| 0 <= j < self.traced().len() implies #[trigger] self.traced()[j] != name@ by {
            assert(self.traced()[j] == self.tracing@[j]@);
        }
        false
    }

    /// See [`find_source`].
    fn find_source<'s>(sources: &'s NameTable<SourceInfo<'a>>, name: &str) -> (r: Option<&'s SourceInfo<'a>>)
        requires
            sources.wf(),
        ensures
            match r {
                Some(info) => find_source(sources.entries(), name@) == Some(info@),
                None => find_source(sources.entries(), name@) is None,
            },
    {
        match sources.find(name) {
            Some(i) => Some(sources.get(i)),
            None => {
                let ghost e = sources.entries();
                let mut j: usize = 0;
                assert(e.skip(0) =~= e);
                while j < sources.len()
                    invariant
                        0 <= j <= e.len(),
                        sources.wf(),
                        e == sources.entries(),
                        lookup(e, name@) is None,
                        first_with_canonical(e, name@) == first_with_canonical(e.skip(j as int), name@),
                    decreases e.len() - j,
                {
                    assert(e.skip(j as int)[0] == e[j as int]);
                    assert(e.skip(j as int).drop_first() =~= e.skip(j + 1));
                    let info = sources.get(j);
                    if str_equal(info.canonical.as_str(), name) {
                        return Some(info);
                    }
                    j += 1;
                }
                assert(e.skip(j as int).len() == 0);
                None
            },
        }
    }

    /// Whether a column list names `col` (ignoring ASCII case).
    fn lists_column(cols: &Vec<String>, col: &str) -> (r: bool)
        ensures
            r == lists_column(string_views(cols@), col@),
    {
        let mut i: usize = 0;
        while i < cols.len()
            invariant
                0 <= i <= cols@.len(),
                forall|j: int| 0 <= j < i ==> !same_ignoring_case(#[trigger] string_views(cols@)[j], col@),
            decreases cols@.len() - i,
        {
            if eq_ignore_ascii_case(cols[i].as_str(), col) {
                assert(same_ignoring_case(string_views(cols@)[i as int], col@));
                return true;
            }
            i += 1;
        }
        false
    }

    /// See [`source_for_column`].
    fn source_for_column(sources: &NameTable<SourceInfo<'a>>, col: &str) -> (r: Option<String>)
        requires
            sources.wf(),
        ensures
            match r {
                Some(k) => source_for_column(sources.entries(), col@) == Some(k@),
                None => source_for_column(sources.entries(), col@) is None,
            },
    {
        let ghost e = sources.entries();
        let mut j: usize = 0;
        assert(e.skip(0) =~= e);
        while j < sources.len()
            invariant
                0 <= j <= e.len(),
                sources.wf(),
                e == sources.entries(),
                first_listing(e, col@) == first_listing(e.skip(j as int), col@),
            decreases e.len() - j,
        {
            assert(e.skip(j as int)[0] == e[j as int]);
            assert(e.skip(j as int).drop_first() =~= e.skip(j + 1));
            let info = sources.get(j);
            match &info.columns {
                Some(cols) => {
                    if Self::lists_column(cols, col) {
                        return Some(sources.key(j).clone());
                    }
                },
                None => {},
            }
            j += 1;
        }
        assert(e.skip(j as int).len() == 0);
        if sources.len() > 0 {
            Some(sources.key(0).clone())
        } else {
            None
        }
    }

    /// See [`trace_column`].
    fn trace_column(&mut self, bound: Ghost<nat>, source: &str, col: &str, sources: &NameTable<SourceInfo<'a>>) -> (r: Option<
        ColumnOrigin,
    >)
        requires
            old(self).wf(),
            sources.wf(),
            sources_fit(old(self).src(), sources.entries()),
            bodies_below(sources.entries(), bound@),
        ensures
            final(self).same_as(old(self)),
            origin_view(r) == trace_column(
                old(self).src(),
                old(self).cat(),
                old(self).ctes(),
                old(self).traced(),
                bound@,
                source@,
                col@,
                sources.entries(),
            ),
        decreases untraced(old(self).ctes(), old(self).traced()), bound@, 0nat,
    {
        let found = Self::find_source(sources, source);
        match found {
            None => None,
            Some(info) => {
                let ghost e = sources.entries();
                assert(exists|i: int| 0 <= i < e.len() && e[i].1 == info@) by {
                    lemma_find_source_in(e, source@);
                }
                match &info.kind {
                    SourceKind::Cte(name) => {
                        if self.is_tracing(name.as_str()) {
                            return None;
                        }
                        match self.cte_bodies.find(name.as_str()) {
                            Some(i) => {
                                let body = self.cte_bodies.get(i).body;
                                assert(lookup(self.ctes(), name@) == Some(deref_opt(body)));
                                assert(self.ctes()[i as int].1 == deref_opt(body));
                                proof {
                                    lemma_untraced_push(self.ctes(), self.traced(), name@);
                                }
                                self.tracing.push(name.clone());
                                assert(self.traced() =~= old(self).traced().push(name@));
                                let r = self.trace_through(body, col);
                                let ghost mid = self.tracing@;
                                assert(string_views(mid) == old(self).traced().push(name@));
                                self.tracing.pop();
                                assert(self.tracing@ =~= mid.drop_last());
                                assert(string_views(mid.drop_last()) =~= string_views(mid).drop_last());
                                assert(self.traced() =~= old(self).traced());
                                r
                            },
                            None => None,
                        }
                    },
                    SourceKind::Subquery(body) => {
                        let ghost i = choose|i: int| 0 <= i < e.len() && e[i].1 == info@;
                        assert(e[i].1.kind matches SourceKindView::Subquery(b) && b == deref_opt(*body));
                        self.trace_through(*body, col)
                    },
                    SourceKind::Table => Some(ColumnOrigin { table: info.canonical.clone(), column: ascii_lowercase(col) }),
                    SourceKind::View => None,
                }
            },
        }
    }

    /// See [`trace_through`].
    fn trace_through(&mut self, body: Option<&'a Node>, col: &str) -> (r: Option<ColumnOrigin>)
        requires
            old(self).wf(),
            body matches Some(b) ==> node_fits(old(self).src(), *b),
        ensures
            final(self).same_as(old(self)),
            origin_view(r) == trace_through(old(self).src(), old(self).cat(), old(self).ctes(), old(self).traced(), deref_opt(body), col@),
        decreases untraced(old(self).ctes(), old(self).traced()), body_size(deref_opt(body)), 0nat,
    {
        match body {
            None => None,
            Some(b) => {
                proof {
                    lemma_find_select_size(*b);
                    lemma_find_select_fits(self.src(), *b);
                }
                match find_select_node(b) {
                    Some(q) => match q {
                        Node::Query { from, results: Some(rs), .. } => {
                            let mut inner: NameTable<SourceInfo<'a>> = NameTable::new();
                            match from {
                                Some(f) => self.collect_sources(f, &mut inner),
                                None => {},
                            }
                            proof {
                                lemma_collect_opt_ok(self.src(), self.cat(), self.ctes(), *from, Seq::empty(), opt_size(*from));
                            }
                            self.trace_results(Ghost(opt_size(*from)), rs, col, &inner)
                        },
                        _ => None,
                    },
                    None => None,
                }
            },
        }
    }

    /// See [`trace_results`].
    fn trace_results(&mut self, bound: Ghost<nat>, rs: &'a Vec<Node>, col: &str, sources: &NameTable<SourceInfo<'a>>) -> (r: Option<
        ColumnOrigin,
    >)
        requires
            old(self).wf(),
            sources.wf(),
            sources_fit(old(self).src(), sources.entries()),
            bodies_below(sources.entries(), bound@),
            crate::tree::nodes_fit(old(self).src(), rs@),
        ensures
            final(self).same_as(old(self)),
            origin_view(r) == trace_results(
                old(self).src(),
                old(self).cat(),
                old(self).ctes(),
                old(self).traced(),
                bound@,
                rs@,
                col@,
                sources.entries(),
            ),
        decreases untraced(old(self).ctes(), old(self).traced()), bound@, rs@.len() + 2,
    {
        let ghost want = trace_results(self.src(), self.cat(), self.ctes(), self.traced(), bound@, rs@, col@, sources.entries());
        let mut i: usize = 0;
        assert(rs@.skip(0) =~= rs@);
        while i < rs.len()
            invariant
                0 <= i <= rs@.len(),
                self.same_as(old(self)),
                self.wf(),
                sources.wf(),
                sources_fit(self.src(), sources.entries()),
                bodies_below(sources.entries(), bound@),
                crate::tree::nodes_fit(self.src(), rs@),
                want == trace_results(old(self).src(), old(self).cat(), old(self).ctes(), old(self).traced(), bound@, rs@, col@, sources.entries()),
                want == trace_results(self.src(), self.cat(), self.ctes(), self.traced(), bound@, rs@.skip(i as int), col@, sources.entries()),
            decreases rs@.len() - i,
        {
            assert(rs@.skip(i as int)[0] == rs@[i as int]);
            assert(rs@.skip(i as int).drop_first() =~= rs@.skip(i + 1));
            proof {
                crate::tree::lemma_nodes_fit_at(self.src(), rs@, i as int);
            }
            match &rs[i] {
                Node::ResultColumn { alias, expr, .. } => {
                    let ghost rest = rs@.skip(i as int);
                    let named = result_column_name_of(self.source, alias, expr);
                    assert(rest[0] == rs@[i as int]);
                    match named {
                        None => {
                            return None;
                        },
                        Some(name) => {
                            if eq_ignore_ascii_case(name.as_str(), col) {
                                return self.trace_expr_origin(bound, expr, sources);
                            }
                        },
                    }
                },
                _ => {},
            }
            i += 1;
        }
        assert(rs@.skip(i as int).len() == 0);
        None
    }

    /// See [`trace_expr_origin`].
    fn trace_expr_origin(&mut self, bound: Ghost<nat>, expr: &'a Option<Box<Node>>, sources: &NameTable<SourceInfo<'a>>) -> (r:
        Option<ColumnOrigin>)
        requires
            old(self).wf(),
            sources.wf(),
            sources_fit(old(self).src(), sources.entries()),
            bodies_below(sources.entries(), bound@),
        ensures
            final(self).same_as(old(self)),
            origin_view(r) == trace_expr_origin(
                old(self).src(),
                old(self).cat(),
                old(self).ctes(),
                old(self).traced(),
                bound@,
                *expr,
                sources.entries(),
            ),
        decreases untraced(old(self).ctes(), old(self).traced()), bound@, 1nat,
    {
        match expr {
            Some(e) => match &**e {
                Node::ColumnRef { column, table } => {
                    if column.text.as_str().is_empty() {
                        return None;
                    }
                    let c = ascii_lowercase(column.text.as_str());
                    let s = if !table.text.as_str().is_empty() {
                        Some(ascii_lowercase(table.text.as_str()))
                    } else {
                        Self::source_for_column(sources, c.as_str())
                    };
                    match s {
                        Some(sn) => self.trace_column(bound, sn.as_str(), c.as_str(), sources),
                        None => None,
                    }
                },
                _ => None,
            },
            None => None,
        }
    }
}

/// A source found by name is one of the sources.
proof fn lemma_find_source_in(e: Sources, name: Seq<char>)
    ensures
        find_source(e, name) matches Some(info) ==> exists|i: int| 0 <= i < e.len() && e[i].1 == info,
{
    crate::table::lemma_last_index_of(e, name);
    if lookup(e, name) is None {
        lemma_first_with_canonical_in(e, name);
    }
}

proof fn lemma_first_with_canonical_in(e: Sources, c: Seq<char>)
    ensures
        first_with_canonical(e, c) matches Some(info) ==> exists|i: int| 0 <= i < e.len() && e[i].1 == info,
    decreases e.len(),
{
    if e.len() > 0 && e[0].1.canonical != c {
        lemma_first_with_canonical_in(e.drop_first(), c);
        match first_with_canonical(e.drop_first(), c) {
            Some(info) => {
                let i = choose|i: int| 0 <= i < e.drop_first().len() && e.drop_first()[i].1 == info;
                assert(e[i + 1].1 == info);
            },
            None => {},
        }
    }
}

/// The reads accumulated in vectors.
pub open spec fn reads_of(rels: Seq<RelationAccess>, tables: Seq<String>, view_seen: bool) -> Reads {
    Reads { relations: rels.map_values(|r: RelationAccess| (r.name@, r.kind)), tables: string_views(tables), view_seen }
}

proof fn lemma_join_assoc(a: Reads, b: Reads, c: Reads)
    ensures
        join_reads(join_reads(a, b), c) == join_reads(a, join_reads(b, c)),
{
    assert(join_reads(join_reads(a, b), c).relations =~= join_reads(a, join_reads(b, c)).relations);
    assert(join_reads(join_reads(a, b), c).tables =~= join_reads(a, join_reads(b, c)).tables);
}

proof fn lemma_join_none(a: Reads)
    ensures
        join_reads(a, no_reads()) == a,
        join_reads(no_reads(), a) == a,
{
    assert(join_reads(a, no_reads()).relations =~= a.relations);
    assert(join_reads(a, no_reads()).tables =~= a.tables);
    assert(join_reads(no_reads(), a).relations =~= a.relations);
    assert(join_reads(no_reads(), a).tables =~= a.tables);
}

impl<'a> LineageResolver<'a> {
    /// Record a table or view of the catalog as read.
    fn read_relation(info: &SourceInfo<'a>, kind: RelationKind, rels: &mut Vec<RelationAccess>, tables: &mut Vec<String>)
        ensures
            reads_of(final(rels)@, final(tables)@, false) == join_reads(
                reads_of(old(rels)@, old(tables)@, false),
                Reads { relations: seq![(info@.canonical, kind)], tables: seq![info@.canonical], view_seen: false },
            ),
    {
        let ghost r0 = reads_of(rels@, tables@, false);
        let ghost one = Reads { relations: seq![(info@.canonical, kind)], tables: seq![info@.canonical], view_seen: false };
        rels.push(RelationAccess { name: info.canonical.clone(), kind });
        tables.push(info.canonical.clone());
        assert(reads_of(rels@, tables@, false).relations =~= join_reads(r0, one).relations);
        assert(reads_of(rels@, tables@, false).tables =~= join_reads(r0, one).tables);
    }

    /// See [`gather`].
    fn gather(
        &mut self,
        bound: Ghost<nat>,
        sources: &NameTable<SourceInfo<'a>>,
        rels: &mut Vec<RelationAccess>,
        tables: &mut Vec<String>,
        view_seen: &mut bool,
    )
        requires
            old(self).wf(),
            sources.wf(),
            sources_fit(old(self).src(), sources.entries()),
            bodies_below(sources.entries(), bound@),
        ensures
            final(self).same_as(old(self)),
            reads_of(final(rels)@, final(tables)@, *final(view_seen)) == join_reads(
                reads_of(old(rels)@, old(tables)@, *old(view_seen)),
                gather(old(self).src(), old(self).cat(), old(self).ctes(), old(self).traced(), bound@, sources.entries()),
            ),
        decreases untraced(old(self).ctes(), old(self).traced()), bound@, sources.entries().len() + 1,
    {
        let ghost e = sources.entries();
        let ghost whole = join_reads(
            reads_of(rels@, tables@, *view_seen),
            gather(self.src(), self.cat(), self.ctes(), self.traced(), bound@, e),
        );
        let mut j: usize = 0;
        assert(e.skip(0) =~= e);
        while j < sources.len()
            invariant
                0 <= j <= e.len(),
                self.same_as(old(self)),
                self.wf(),
                sources.wf(),
                e == sources.entries(),
                sources_fit(self.src(), e),
                bodies_below(e, bound@),
                whole == join_reads(
                    reads_of(old(rels)@, old(tables)@, *old(view_seen)),
                    gather(old(self).src(), old(self).cat(), old(self).ctes(), old(self).traced(), bound@, e),
                ),
                whole == join_reads(
                    reads_of(rels@, tables@, *view_seen),
                    gather(self.src(), self.cat(), self.ctes(), self.traced(), bound@, e.skip(j as int)),
                ),
            decreases e.len() - j,
        {
            let ghost rest = e.skip(j as int);
            assert(rest[0] == e[j as int]);
            assert(rest.drop_first() =~= e.skip(j + 1));
            let ghost before = reads_of(rels@, tables@, *view_seen);
            let ghost tail = gather(self.src(), self.cat(), self.ctes(), self.traced(), bound@, e.skip(j + 1));
            let info = sources.get(j);
            let ghost first = join_reads(
                gather(self.src(), self.cat(), self.ctes(), self.traced(), bound@, rest),
                no_reads(),
            );
            match &info.kind {
                SourceKind::Table => {
                    let ghost v0 = *view_seen;
                    Self::read_relation(info, RelationKind::Table, rels, tables);
                    assert(reads_of(rels@, tables@, v0) == join_reads(
                        before,
                        Reads { relations: seq![(info@.canonical, RelationKind::Table)], tables: seq![info@.canonical], view_seen: false },
                    ));
                    proof {
                        lemma_join_assoc(
                            before,
                            Reads { relations: seq![(info@.canonical, RelationKind::Table)], tables: seq![info@.canonical], view_seen: false },
                            tail,
                        );
                    }
                },
                SourceKind::View => {
                    Self::read_relation(info, RelationKind::View, rels, tables);
                    *view_seen = true;
                    let ghost one = Reads { relations: seq![(info@.canonical, RelationKind::View)], tables: seq![info@.canonical], view_seen: true };
                    assert(reads_of(rels@, tables@, *view_seen) == join_reads(before, one)) by {
                        assert(reads_of(rels@, tables@, *view_seen).relations =~= join_reads(before, one).relations);
                        assert(reads_of(rels@, tables@, *view_seen).tables =~= join_reads(before, one).tables);
                    }
                    proof {
                        lemma_join_assoc(before, one, tail);
                    }
                },
                SourceKind::Cte(name) => {
                    if self.is_tracing(name.as_str()) {
                        proof {
                            lemma_join_none(tail);
                            lemma_join_assoc(before, no_reads(), tail);
                            lemma_join_none(before);
                        }
                    } else {
                        match self.cte_bodies.find(name.as_str()) {
                            Some(k) => {
                                let body = self.cte_bodies.get(k).body;
                                assert(self.ctes()[k as int].1 == deref_opt(body));
                                proof {
                                    lemma_untraced_push(self.ctes(), self.traced(), name@);
                                }
                                let ghost inner = body_reads(self.src(), self.cat(), self.ctes(), self.traced().push(name@), deref_opt(body));
                                self.tracing.push(name.clone());
                                assert(self.traced() =~= old(self).traced().push(name@));
                                self.body_reads(body, rels, tables, view_seen);
                                let ghost mid = self.tracing@;
                                self.tracing.pop();
                                assert(self.tracing@ =~= mid.drop_last());
                                assert(string_views(mid.drop_last()) =~= string_views(mid).drop_last());
                                assert(self.traced() =~= old(self).traced());
                                proof {
                                    lemma_join_assoc(before, inner, tail);
                                }
                            },
                            None => {
                                proof {
                                    lemma_join_none(tail);
                                    lemma_join_assoc(before, no_reads(), tail);
                                    lemma_join_none(before);
                                }
                            },
                        }
                    }
                },
                SourceKind::Subquery(body) => {
                    assert(e[j as int].1.kind matches SourceKindView::Subquery(b) && b == deref_opt(*body));
                    let ghost inner = body_reads(self.src(), self.cat(), self.ctes(), self.traced(), deref_opt(*body));
                    self.body_reads(*body, rels, tables, view_seen);
                    proof {
                        lemma_join_assoc(before, inner, tail);
                    }
                },
            }
            j += 1;
        }
        assert(e.skip(j as int).len() == 0);
        proof {
            lemma_join_none(reads_of(rels@, tables@, *view_seen));
        }
    }

    /// See [`body_reads`].
    fn body_reads(&mut self, body: Option<&'a Node>, rels: &mut Vec<RelationAccess>, tables: &mut Vec<String>, view_seen: &mut bool)
        requires
            old(self).wf(),
            body matches Some(b) ==> node_fits(old(self).src(), *b),
        ensures
            final(self).same_as(old(self)),
            reads_of(final(rels)@, final(tables)@, *final(view_seen)) == join_reads(
                reads_of(old(rels)@, old(tables)@, *old(view_seen)),
                body_reads(old(self).src(), old(self).cat(), old(self).ctes(), old(self).traced(), deref_opt(body)),
            ),
        decreases untraced(old(self).ctes(), old(self).traced()), body_size(deref_opt(body)), 0nat,
    {
        proof {
            lemma_join_none(reads_of(rels@, tables@, *view_seen));
        }
        match body {
            None => {},
            Some(b) => {
                proof {
                    lemma_find_select_size(*b);
                    lemma_find_select_fits(self.src(), *b);
                }
                match find_select_node(b) {
                    Some(q) => match q {
                        Node::Query { from: Some(f), .. } => {
                            let mut inner: NameTable<SourceInfo<'a>> = NameTable::new();
                            self.collect_sources(f, &mut inner);
                            proof {
                                lemma_collect_ok(self.src(), self.cat(), self.ctes(), **f, Seq::empty(), node_size(**f));
                            }
                            self.gather(Ghost(node_size(**f)), &inner, rels, tables, view_seen);
                        },
                        _ => {},
                    },
                    None => {},
                }
            },
        }
    }
}

// ── Sorting what was read ────────────────────────────────────────────────────

/// The distinct names of a list, sorted.
fn sorted_unique(Ghost(raw): Ghost<Seq<Seq<char>>>, v: &Vec<String>) -> (r: Vec<String>)
    requires
        string_views(v@) == raw,
    ensures
        string_views(r@) == sorted_names(raw),
{
    let mut names: Vec<String> = Vec::new();
    let mut i: usize = 0;
    assert(string_views(names@) =~= Seq::<Seq<char>>::empty());
    assert(raw.take(0) =~= Seq::<Seq<char>>::empty());
    while i < v.len()
        invariant
            0 <= i <= v@.len(),
            string_views(v@) == raw,
            is_sorted_set(string_views(names@), raw.take(i as int)),
        decreases v@.len() - i,
    {
        assert(raw[i as int] == v@[i as int]@);
        add_to_sorted_set(&mut names, v[i].as_str(), Ghost(raw.take(i as int)));
        assert(raw.take(i + 1) =~= raw.take(i as int).push(v@[i as int]@));
        i += 1;
    }
    assert(raw.take(i as int) =~= raw);
    proof {
        let c = string_views(names@);
        assert(is_sorted_set(c, raw));
        assert(is_sorted_set(sorted_names(raw), raw));
        lemma_sorted_sets_equal(c, sorted_names(raw), raw);
    }
    names
}

/// The tables read, sorted by name, each once.
fn sorted_tables(raw: &Vec<String>) -> (r: Vec<TableAccess>)
    ensures
        r@.map_values(|t: TableAccess| t.name@) == sorted_names(string_views(raw@)),
{
    let names = sorted_unique(Ghost(string_views(raw@)), raw);
    let mut out: Vec<TableAccess> = Vec::new();
    let mut k: usize = 0;
    while k < names.len()
        invariant
            0 <= k <= names@.len(),
            out@.len() == k,
            forall|j: int| 0 <= j < k ==> (#[trigger] out@[j]).name@ == names@[j]@,
        decreases names@.len() - k,
    {
        out.push(TableAccess { name: names[k].clone() });
        k += 1;
    }
    assert(out@.map_values(|t: TableAccess| t.name@) =~= string_views(names@));
    out
}

/// The views of accessed relations as pairs.
pub open spec fn relation_pairs(rels: Seq<RelationAccess>) -> Seq<(Seq<char>, RelationKind)> {
    rels.map_values(|r: RelationAccess| (r.name@, r.kind))
}

/// See [`first_kind`].
fn first_kind_of(raw: &Vec<RelationAccess>, name: &str) -> (r: RelationKind)
    ensures
        r == first_kind(relation_pairs(raw@), name@),
{
    let ghost rv = relation_pairs(raw@);
    let mut j: usize = 0;
    assert(rv.skip(0) =~= rv);
    while j < raw.len()
        invariant
            0 <= j <= raw@.len(),
            rv == relation_pairs(raw@),
            first_kind(rv, name@) == first_kind(rv.skip(j as int), name@),
        decreases raw@.len() - j,
    {
        assert(rv.skip(j as int)[0] == rv[j as int]);
        assert(rv.skip(j as int).drop_first() =~= rv.skip(j + 1));
        if str_equal(raw[j].name.as_str(), name) {
            return raw[j].kind;
        }
        j += 1;
    }
    assert(rv.skip(j as int).len() == 0);
    RelationKind::Table
}

/// The relations read, sorted by name, each once with the kind it first had.
fn sorted_relation_list(raw: &Vec<RelationAccess>) -> (r: Vec<RelationAccess>)
    ensures
        relation_pairs(r@) == sorted_relations(relation_pairs(raw@)),
{
    let ghost rv = relation_pairs(raw@);
    let mut plain: Vec<String> = Vec::new();
    let mut i: usize = 0;
    while i < raw.len()
        invariant
            0 <= i <= raw@.len(),
            plain@.len() == i,
            forall|j: int| 0 <= j < i ==> (#[trigger] plain@[j])@ == raw@[j].name@,
        decreases raw@.len() - i,
    {
        plain.push(raw[i].name.clone());
        i += 1;
    }
    let ghost rnames = rv.map_values(|r: (Seq<char>, RelationKind)| r.0);
    assert(string_views(plain@) =~= rnames);
    let names = sorted_unique(Ghost(rnames), &plain);
    let mut out: Vec<RelationAccess> = Vec::new();
    let mut k: usize = 0;
    while k < names.len()
        invariant
            0 <= k <= names@.len(),
            rv == relation_pairs(raw@),
            out@.len() == k,
            forall|j: int| 0 <= j < k ==> (#[trigger] out@[j]).name@ == names@[j]@ && out@[j].kind == first_kind(rv, names@[j]@),
        decreases names@.len() - k,
    {
        let kind = first_kind_of(raw, names[k].as_str());
        out.push(RelationAccess { name: names[k].clone(), kind });
        k += 1;
    }
    assert(relation_pairs(out@) =~= string_views(names@).map_values(|n: Seq<char>| (n, first_kind(rv, n))));
    out
}

// ── Columns of the outer query ───────────────────────────────────────────────

/// The traced form of lineage entries.
pub open spec fn traced_of(v: Seq<ColumnLineage>) -> Seq<Traced> {
    v.map_values(|c: ColumnLineage| Traced { name: c.name@, origin: origin_view(c.origin) })
}

/// Each entry is numbered by its position.
pub open spec fn indexed(v: Seq<ColumnLineage>) -> bool {
    forall|k: int| 0 <= k < v.len() ==> (#[trigger] v[k]).index == k as u32
}


/// Append one numbered entry.
fn push_column(out: &mut Vec<ColumnLineage>, name: String, origin: Option<ColumnOrigin>)
    requires
        indexed(old(out)@),
    ensures
        indexed(final(out)@),
        traced_of(final(out)@) == traced_of(old(out)@).push(Traced { name: name@, origin: origin_view(origin) }),
{
    let index = out.len() as u32;
    let ghost t0 = traced_of(out@);
    let ghost nv = name@;
    let ghost ov = origin_view(origin);
    out.push(ColumnLineage { name, index, origin });
    assert(traced_of(out@) =~= t0.push(Traced { name: nv, origin: ov }));
}

impl<'a> LineageResolver<'a> {
    /// Append the columns `*` stands for (see [`star_columns`]).
    fn star_columns(&mut self, bound: Ghost<nat>, sources: &NameTable<SourceInfo<'a>>, out: &mut Vec<ColumnLineage>)
        requires
            old(self).wf(),
            old(self).traced() == Seq::<Seq<char>>::empty(),
            sources.wf(),
            sources_fit(old(self).src(), sources.entries()),
            bodies_below(sources.entries(), bound@),
            indexed(old(out)@),
        ensures
            final(self).same_as(old(self)),
            indexed(final(out)@),
            traced_of(final(out)@) == traced_of(old(out)@) + star_columns(
                old(self).src(),
                old(self).cat(),
                old(self).ctes(),
                bound@,
                sources.entries(),
                sources.entries(),
            ),
    {
        let ghost e = sources.entries();
        let ghost whole = traced_of(out@) + star_columns(self.src(), self.cat(), self.ctes(), bound@, e, e);
        let mut j: usize = 0;
        assert(e.skip(0) =~= e);
        while j < sources.len()
            invariant
                0 <= j <= e.len(),
                self.same_as(old(self)),
                self.wf(),
                self.traced() == Seq::<Seq<char>>::empty(),
                sources.wf(),
                e == sources.entries(),
                sources_fit(self.src(), e),
                bodies_below(e, bound@),
                indexed(out@),
                whole == traced_of(old(out)@) + star_columns(old(self).src(), old(self).cat(), old(self).ctes(), bound@, e, e),
                whole == traced_of(out@) + star_columns(self.src(), self.cat(), self.ctes(), bound@, e.skip(j as int), e),
            decreases e.len() - j,
        {
            let ghost rest = e.skip(j as int);
            assert(rest[0] == e[j as int]);
            assert(rest.drop_first() =~= e.skip(j + 1));
            let ghost tail = star_columns(self.src(), self.cat(), self.ctes(), bound@, e.skip(j + 1), e);
            let ghost base = traced_of(out@);
            let info = sources.get(j);
            match &info.columns {
                Some(cols) => {
                    let ghost cv = string_views(cols@);
                    let ghost own = cv.map_values(
                        |c: Seq<char>|
                            Traced {
                                name: lower_chars(c),
                                origin: trace_column(self.src(), self.cat(), self.ctes(), Seq::empty(), bound@, info@.canonical, c, e),
                            },
                    );
                    let mut c: usize = 0;
                    while c < cols.len()
                        invariant
                            0 <= c <= cols@.len(),
                            self.same_as(old(self)),
                            self.wf(),
                            self.traced() == Seq::<Seq<char>>::empty(),
                            sources.wf(),
                            e == sources.entries(),
                            sources_fit(self.src(), e),
                            bodies_below(e, bound@),
                            indexed(out@),
                            cv == string_views(cols@),
                            own == cv.map_values(
                                |c: Seq<char>|
                                    Traced {
                                        name: lower_chars(c),
                                        origin: trace_column(self.src(), self.cat(), self.ctes(), Seq::empty(), bound@, info@.canonical, c, e),
                                    },
                            ),
                            traced_of(out@) == base + own.take(c as int),
                        decreases cols@.len() - c,
                    {
                        let origin = self.trace_column(bound, info.canonical.as_str(), cols[c].as_str(), sources);
                        let name = ascii_lowercase(cols[c].as_str());
                        push_column(out, name, origin);
                        assert(own.take(c + 1) =~= own.take(c as int).push(own[c as int]));
                        c += 1;
                    }
                    assert(own.take(c as int) =~= own);
                    assert(traced_of(out@) + tail =~= base + (own + tail));
                },
                None => {
                    assert(base + tail =~= base + (Seq::<Traced>::empty() + tail));
                },
            }
            j += 1;
        }
        assert(e.skip(j as int).len() == 0);
        assert(traced_of(out@) + Seq::<Traced>::empty() =~= traced_of(out@));
    }

    /// The lineage of the result columns, numbered (see [`traced_columns`]).
    fn result_columns(&mut self, bound: Ghost<nat>, rs: &'a Vec<Node>, sources: &NameTable<SourceInfo<'a>>) -> (r: Vec<ColumnLineage>)
        requires
            old(self).wf(),
            old(self).traced() == Seq::<Seq<char>>::empty(),
            sources.wf(),
            sources_fit(old(self).src(), sources.entries()),
            bodies_below(sources.entries(), bound@),
            crate::tree::nodes_fit(old(self).src(), rs@),
        ensures
            final(self).same_as(old(self)),
            indexed(r@),
            traced_of(r@) == traced_columns(old(self).src(), old(self).cat(), old(self).ctes(), bound@, rs@, sources.entries()),
    {
        let ghost e = sources.entries();
        let mut out: Vec<ColumnLineage> = Vec::new();
        let mut i: usize = 0;
        assert(traced_of(out@) =~= Seq::<Traced>::empty());
        while i < rs.len()
            invariant
                0 <= i <= rs@.len(),
                self.same_as(old(self)),
                self.wf(),
                self.traced() == Seq::<Seq<char>>::empty(),
                sources.wf(),
                e == sources.entries(),
                sources_fit(self.src(), e),
                bodies_below(e, bound@),
                crate::tree::nodes_fit(self.src(), rs@),
                indexed(out@),
                traced_of(out@) == traced_columns(self.src(), self.cat(), self.ctes(), bound@, rs@.take(i as int), e),
            decreases rs@.len() - i,
        {
            proof {
                crate::tree::lemma_nodes_fit_at(self.src(), rs@, i as int);
            }
            assert(rs@.take(i + 1).drop_last() =~= rs@.take(i as int));
            assert(rs@.take(i + 1).last() == rs@[i as int]);
            match &rs[i] {
                Node::ResultColumn { star, alias, expr } => {
                    if *star {
                        self.star_columns(bound, sources, &mut out);
                    } else {
                        let name = match result_column_name_of(self.source, alias, expr) {
                            Some(n) => n,
                            None => String::new(),
                        };
                        let origin = self.trace_expr_origin(bound, expr, sources);
                        push_column(&mut out, name, origin);
                    }
                },
                _ => {},
            }
            i += 1;
        }
        assert(rs@.take(i as int) =~= rs@);
        out
    }

    /// See [`select_lineage`].
    fn resolve_select(&mut self, q: &'a Node) -> (r: Option<QueryLineage>)
        requires
            old(self).wf(),
            old(self).traced() == Seq::<Seq<char>>::empty(),
            node_fits(old(self).src(), *q),
        ensures
            final(self).same_as(old(self)),
            lineage_view(r) == select_lineage(old(self).src(), old(self).cat(), old(self).ctes(), *q),
    {
        match q {
            Node::Query { from, results: Some(rs), .. } => {
                let mut sources: NameTable<SourceInfo<'a>> = NameTable::new();
                match from {
                    Some(f) => self.collect_sources(f, &mut sources),
                    None => {},
                }
                let ghost bound = opt_size(*from);
                proof {
                    lemma_collect_opt_ok(self.src(), self.cat(), self.ctes(), *from, Seq::empty(), bound);
                }
                let columns = self.result_columns(Ghost(bound), rs, &sources);
                let mut rels: Vec<RelationAccess> = Vec::new();
                let mut tables: Vec<String> = Vec::new();
                let mut view_seen = false;
                let ghost reads = gather(self.src(), self.cat(), self.ctes(), self.traced(), bound, sources.entries());
                self.gather(Ghost(bound), &sources, &mut rels, &mut tables, &mut view_seen);
                proof {
                    assert(reads_of(Seq::empty(), Seq::empty(), false) == no_reads()) by {
                        assert(reads_of(Seq::empty(), Seq::empty(), false).relations =~= no_reads().relations);
                        assert(reads_of(Seq::empty(), Seq::empty(), false).tables =~= no_reads().tables);
                    }
                    lemma_join_none(reads);
                }
                assert(relation_pairs(rels@) == reads.relations);
                assert(string_views(tables@) == reads.tables);
                let relations = sorted_relation_list(&rels);
                let tables = sorted_tables(&tables);
                let lineage = QueryLineage { complete: !view_seen, columns, relations, tables };
                proof {
                    let t = traced_columns(self.src(), self.cat(), self.ctes(), bound, rs@, sources.entries());
                    assert(lineage@.columns =~= numbered(t)) by {
                        assert forall|k: int| 0 <= k < t.len() implies #[trigger] lineage@.columns[k] == numbered(t)[k] by {
                            assert(traced_of(lineage.columns@)[k] == t[k]);
                            assert(lineage.columns@[k].index == k as u32);
                        }
                    }
                }
                Some(lineage)
            },
            _ => None,
        }
    }
}

impl<'a> LineageResolver<'a> {
    /// See [`resolve_node`].
    fn resolve_node(&mut self, n: &'a Node) -> (r: Option<QueryLineage>)
        requires
            old(self).wf(),
            old(self).traced() == Seq::<Seq<char>>::empty(),
            node_fits(old(self).src(), *n),
        ensures
            final(self).wf(),
            final(self).src() == old(self).src(),
            final(self).cat() == old(self).cat(),
            final(self).traced() == old(self).traced(),
            final(self).ctes() == resolve_node(old(self).src(), old(self).cat(), old(self).ctes(), *n).0,
            lineage_view(r) == resolve_node(old(self).src(), old(self).cat(), old(self).ctes(), *n).1,
        decreases *n,
    {
        match n {
            Node::CteScope { bindings, body, .. } => {
                self.register_ctes(bindings);
                match body {
                    Some(b) => self.resolve_node(b),
                    None => None,
                }
            },
            Node::Query { .. } => self.resolve_select(n),
            Node::Plain { children, .. } => self.resolve_first(children),
            Node::DmlScope { children } => self.resolve_first(children),
            _ => None,
        }
    }

    /// See [`resolve_first`].
    fn resolve_first(&mut self, ns: &'a Vec<Node>) -> (r: Option<QueryLineage>)
        requires
            old(self).wf(),
            old(self).traced() == Seq::<Seq<char>>::empty(),
            crate::tree::nodes_fit(old(self).src(), ns@),
        ensures
            final(self).wf(),
            final(self).src() == old(self).src(),
            final(self).cat() == old(self).cat(),
            final(self).traced() == old(self).traced(),
            final(self).ctes() == resolve_first(old(self).src(), old(self).cat(), old(self).ctes(), ns@).0,
            lineage_view(r) == resolve_first(old(self).src(), old(self).cat(), old(self).ctes(), ns@).1,
        decreases *ns,
    {
        let ghost want = resolve_first(self.src(), self.cat(), self.ctes(), ns@);
        let mut i: usize = 0;
        assert(ns@.skip(0) =~= ns@);
        while i < ns.len()
            invariant
                0 <= i <= ns@.len(),
                self.wf(),
                self.src() == old(self).src(),
                self.cat() == old(self).cat(),
                self.traced() == old(self).traced(),
                self.traced() == Seq::<Seq<char>>::empty(),
                crate::tree::nodes_fit(self.src(), ns@),
                want == resolve_first(old(self).src(), old(self).cat(), old(self).ctes(), ns@),
                want == resolve_first(self.src(), self.cat(), self.ctes(), ns@.skip(i as int)),
            decreases ns@.len() - i,
        {
            proof {
                crate::tree::lemma_nodes_fit_at(self.src(), ns@, i as int);
            }
            assert(ns@.skip(i as int)[0] == ns@[i as int]);
            assert(ns@.skip(i as int).drop_first() =~= ns@.skip(i + 1));
            let found = self.resolve_node(&ns[i]);
            match found {
                Some(l) => {
                    return Some(l);
                },
                None => {},
            }
            i += 1;
        }
        assert(ns@.skip(i as int).len() == 0);
        None
    }
}

/// The lineage of a statement (see [`statement_lineage`]): `None` unless it
/// is a query.
pub fn compute_lineage(source: &str, catalog: &Catalog, stmt: &Node) -> (r: Option<QueryLineage>)
    requires
        catalog.wf(),
        node_fits(utf8(source@), *stmt),
        utf8(source@).len() <= usize::MAX,
    ensures
        lineage_view(r) == statement_lineage(utf8(source@), catalog@, *stmt),
{
    let mut resolver = LineageResolver::new(source, catalog);
    resolver.resolve_node(stmt)
}

} // verus!
