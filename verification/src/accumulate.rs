//! Building a schema from DDL statements: tables, views and functions, with
//! the column lists of `CREATE ... AS SELECT` inferred, `*` and `t.*`
//! expanded from what was defined before.

use vstd::prelude::*;

use crate::relations::{find_named, relation_views, ColumnDef, ColumnDefView, RelationDef, RelationDefView, RelationKind};
use crate::text::{eq_ignore_ascii_case, same_ignoring_case};
use crate::validation::{function_views, DocumentContext, FunctionDef, FunctionDefView, SessionContext};

verus! {

// ── DDL statements as plain values ───────────────────────────────────────────

/// The kind of a column constraint, as far as the schema cares.
#[derive(Debug, Clone, Copy, PartialEq, Eq, Structural)]
pub enum ConstraintKind {
    NotNull,
    PrimaryKey,
    Other,
}

/// A column of a column definition list: its name (empty when missing), its
/// declared type (empty when none) and the kinds of its constraints.
#[derive(Debug)]
pub struct ColumnSpec {
    pub name: String,
    pub declared_type: String,
    pub constraints: Vec<ConstraintKind>,
}

/// A result column of a SELECT: whether it is a `*` wildcard, its alias
/// (for `t.*`, the qualifier `t`), the column its expression names when
/// that expression is a bare column reference, and the source text of its
/// expression (empty when it has none).
#[derive(Debug)]
pub struct ResultColumnSpec {
    pub star: bool,
    pub alias: String,
    pub column_ref: Option<String>,
    pub text: String,
}

/// A SELECT, as far as its output columns go.
#[derive(Debug)]
pub enum SelectSpec {
    /// A simple SELECT: its FROM clause and its result columns.
    Simple { from: Option<Box<SourceSpec>>, columns: Option<Vec<ResultColumnSpec>> },
    /// A compound SELECT: its left-hand SELECT names the columns.
    Compound { left: Option<Box<SelectSpec>> },
    /// A SELECT with a `WITH` clause.
    With { select: Option<Box<SelectSpec>> },
    /// Anything else (such as VALUES).
    Other,
}

/// A FROM clause, as far as `*` expansion goes.
#[derive(Debug)]
pub enum SourceSpec {
    /// A table or view and its alias (empty when none).
    Table { name: String, alias: String },
    /// A subquery and its alias.
    Subquery { select: Option<Box<SelectSpec>>, alias: String },
    /// A join of two sources.
    Join { left: Option<Box<SourceSpec>>, right: Option<Box<SourceSpec>> },
    /// The first source of a join chain.
    Prefix { source: Option<Box<SourceSpec>> },
    /// Anything else.
    Other,
}

/// What a statement defines.
#[derive(Debug)]
pub enum DefinitionSpec {
    /// A table or view: its name, its column definition list (when it has
    /// one) and its `AS SELECT` body.
    Relation { kind: RelationKind, name: String, columns: Option<Vec<ColumnSpec>>, select: Option<SelectSpec> },
    /// A function and its declared argument count.
    Function { name: String, args: Option<usize> },
    /// An import of definitions from elsewhere.
    Import { name: String },
    /// A statement that defines nothing.
    Other,
}

// ── What a definition contributes ────────────────────────────────────────────

/// The views of a list of column definitions.
pub open spec fn column_views(cs: Seq<ColumnDef>) -> Seq<ColumnDefView> {
    cs.map_values(|c: ColumnDef| c@)
}

/// A listed column as a definition: `PRIMARY KEY` makes it a key and not
/// nullable, `NOT NULL` makes it not nullable.
pub open spec fn listed_column(c: ColumnSpec) -> ColumnDefView {
    ColumnDefView {
        name: c.name@,
        declared_type: if c.declared_type@.len() == 0 {
            None
        } else {
            Some(c.declared_type@)
        },
        is_primary_key: c.constraints@.contains(ConstraintKind::PrimaryKey),
        is_nullable: !c.constraints@.contains(ConstraintKind::NotNull) && !c.constraints@.contains(ConstraintKind::PrimaryKey),
    }
}

/// The named columns of a column definition list, in order.
pub open spec fn listed_columns(cs: Seq<ColumnSpec>) -> Seq<ColumnDefView>
    decreases cs.len(),
{
    if cs.len() == 0 {
        Seq::empty()
    } else if cs.last().name@.len() > 0 {
        listed_columns(cs.drop_last()).push(listed_column(cs.last()))
    } else {
        listed_columns(cs.drop_last())
    }
}

/// The columns of the relation last defined under `name` (ignoring ASCII
/// case) among `known`.
pub open spec fn known_columns(known: Seq<RelationDefView>, name: Seq<char>) -> Option<Seq<ColumnDefView>>
    decreases known.len(),
{
    if known.len() == 0 {
        None
    } else if same_ignoring_case(known.last().name, name) {
        Some(known.last().columns)
    } else {
        known_columns(known.drop_last(), name)
    }
}

/// The columns a table named in FROM has: as defined earlier in the
/// document, else as the session has it, else none known.
pub open spec fn table_columns(known: Seq<RelationDefView>, session: Option<Seq<RelationDefView>>, name: Seq<char>) -> Seq<ColumnDefView> {
    match known_columns(known, name) {
        Some(cs) => cs,
        None => match session {
            Some(s) => match find_named(s, name) {
                Some(r) => r.columns,
                None => Seq::empty(),
            },
            None => Seq::empty(),
        },
    }
}

/// A FROM source as plain values: the name `t.*` matches it by, and its
/// columns.
pub struct FromView {
    pub qualifier: Seq<char>,
    pub columns: Seq<ColumnDefView>,
}

/// A column as a SELECT passes it on: its name and type, neither a key nor
/// declared NOT NULL.
pub open spec fn passed_on(c: ColumnDefView) -> ColumnDefView {
    ColumnDefView { is_primary_key: false, is_nullable: true, ..c }
}

/// The columns `*` (empty qualifier) or `t.*` stands for, in source order.
pub open spec fn expanded(sources: Seq<FromView>, qualifier: Seq<char>) -> Seq<ColumnDefView>
    decreases sources.len(),
{
    if sources.len() == 0 {
        Seq::empty()
    } else {
        let prev = expanded(sources.drop_last(), qualifier);
        let s = sources.last();
        if qualifier.len() > 0 && !same_ignoring_case(s.qualifier, qualifier) {
            prev
        } else {
            prev + s.columns.map_values(|c: ColumnDefView| passed_on(c))
        }
    }
}

/// The column a result column contributes: its alias, or the column it
/// references, or else the source text of its expression (as SQLite names
/// such a column); nothing when it has none. A wildcard contributes its
/// expansion.
pub open spec fn result_columns(rcs: Seq<ResultColumnSpec>, sources: Seq<FromView>) -> Seq<ColumnDefView>
    decreases rcs.len(),
{
    if rcs.len() == 0 {
        Seq::empty()
    } else {
        let prev = result_columns(rcs.drop_last(), sources);
        let rc = rcs.last();
        if rc.star {
            prev + expanded(sources, rc.alias@)
        } else if rc.alias@.len() > 0 {
            prev.push(ColumnDefView { name: rc.alias@, declared_type: None, is_primary_key: false, is_nullable: true })
        } else {
            match rc.column_ref {
                Some(c) => prev.push(ColumnDefView { name: c@, declared_type: None, is_primary_key: false, is_nullable: true }),
                None => if rc.text@.len() > 0 {
                    prev.push(ColumnDefView { name: rc.text@, declared_type: None, is_primary_key: false, is_nullable: true })
                } else {
                    prev
                },
            }
        }
    }
}

/// The columns a SELECT yields.
pub open spec fn select_columns_of(sel: SelectSpec, known: Seq<RelationDefView>, session: Option<Seq<RelationDefView>>) -> Seq<ColumnDefView>
    decreases sel,
{
    match sel {
        SelectSpec::Simple { from, columns } => match columns {
            Some(rcs) => result_columns(rcs@, opt_sources_of(from, known, session)),
            None => Seq::empty(),
        },
        SelectSpec::Compound { left } => opt_select_columns_of(left, known, session),
        SelectSpec::With { select } => opt_select_columns_of(select, known, session),
        SelectSpec::Other => Seq::empty(),
    }
}

/// The columns an optional SELECT yields.
pub open spec fn opt_select_columns_of(
    o: Option<Box<SelectSpec>>,
    known: Seq<RelationDefView>,
    session: Option<Seq<RelationDefView>>,
) -> Seq<ColumnDefView>
    decreases o,
{
    match o {
        Some(s) => select_columns_of(*s, known, session),
        None => Seq::empty(),
    }
}

/// The sources of a FROM clause, left to right, each with its columns.
pub open spec fn sources_of(src: SourceSpec, known: Seq<RelationDefView>, session: Option<Seq<RelationDefView>>) -> Seq<FromView>
    decreases src,
{
    match src {
        SourceSpec::Table { name, alias } => seq![
            FromView {
                qualifier: if alias@.len() == 0 {
                    name@
                } else {
                    alias@
                },
                columns: table_columns(known, session, name@),
            },
        ],
        SourceSpec::Subquery { select, alias } => seq![
            FromView { qualifier: alias@, columns: opt_select_columns_of(select, known, session) },
        ],
        SourceSpec::Join { left, right } => opt_sources_of(left, known, session) + opt_sources_of(right, known, session),
        SourceSpec::Prefix { source } => opt_sources_of(source, known, session),
        SourceSpec::Other => Seq::empty(),
    }
}

/// The sources of an optional FROM clause.
pub open spec fn opt_sources_of(o: Option<Box<SourceSpec>>, known: Seq<RelationDefView>, session: Option<Seq<RelationDefView>>) -> Seq<FromView>
    decreases o,
{
    match o {
        Some(s) => sources_of(*s, known, session),
        None => Seq::empty(),
    }
}

/// The session's relations, when there is a session.
pub open spec fn session_view(session: Option<&SessionContext>) -> Option<Seq<RelationDefView>> {
    match session {
        Some(s) => Some(relation_views(s.relations@)),
        None => None,
    }
}

/// The relations and functions after one more statement: a named table or
/// view is added with the columns of its list, or else of its body; a named
/// function is added; other statements add nothing.
pub open spec fn accumulated(
    relations: Seq<RelationDefView>,
    functions: Seq<FunctionDefView>,
    stmt: DefinitionSpec,
    session: Option<Seq<RelationDefView>>,
) -> (Seq<RelationDefView>, Seq<FunctionDefView>) {
    match stmt {
        DefinitionSpec::Relation { kind, name, columns, select } => if name@.len() == 0 {
            (relations, functions)
        } else {
            let cols = match columns {
                Some(cs) => listed_columns(cs@),
                None => match select {
                    Some(s) => select_columns_of(s, relations, session),
                    None => Seq::empty(),
                },
            };
            (relations.push(RelationDefView { name: name@, columns: cols, kind }), functions)
        },
        DefinitionSpec::Function { name, args } => if name@.len() == 0 {
            (relations, functions)
        } else {
            (relations, functions.push(FunctionDefView { name: name@, args, description: None }))
        },
        _ => (relations, functions),
    }
}

/// The relations and functions a list of statements defines, in order.
pub open spec fn accumulated_all(
    relations: Seq<RelationDefView>,
    functions: Seq<FunctionDefView>,
    stmts: Seq<DefinitionSpec>,
    session: Option<Seq<RelationDefView>>,
) -> (Seq<RelationDefView>, Seq<FunctionDefView>)
    decreases stmts.len(),
{
    if stmts.len() == 0 {
        (relations, functions)
    } else {
        let prev = accumulated_all(relations, functions, stmts.drop_last(), session);
        accumulated(prev.0, prev.1, stmts.last(), session)
    }
}


// ── Building the schema ──────────────────────────────────────────────────────

fn copy_column(c: &ColumnDef) -> (r: ColumnDef)
    ensures
        r@ == c@,
{
    let declared_type = match &c.declared_type {
        Some(t) => Some(t.clone()),
        None => None,
    };
    ColumnDef { name: c.name.clone(), declared_type, is_primary_key: c.is_primary_key, is_nullable: c.is_nullable }
}

/// The column as a SELECT passes it on (see [`passed_on`]).
fn passed_on_column(c: &ColumnDef) -> (r: ColumnDef)
    ensures
        r@ == passed_on(c@),
{
    let declared_type = match &c.declared_type {
        Some(t) => Some(t.clone()),
        None => None,
    };
    ColumnDef { name: c.name.clone(), declared_type, is_primary_key: false, is_nullable: true }
}

fn copy_columns(cs: &Vec<ColumnDef>) -> (r: Vec<ColumnDef>)
    ensures
        column_views(r@) == column_views(cs@),
{
    let mut out: Vec<ColumnDef> = Vec::new();
    let mut i: usize = 0;
    while i < cs.len()
        invariant
            0 <= i <= cs@.len(),
            column_views(out@) == column_views(cs@.take(i as int)),
        decreases cs@.len() - i,
    {
        let c = copy_column(&cs[i]);
        let ghost prev = column_views(out@);
        out.push(c);
        assert(column_views(out@) =~= prev.push(cs@[i as int]@));
        assert(cs@.take(i + 1) =~= cs@.take(i as int).push(cs@[i as int]));
        assert(column_views(cs@.take(i + 1)) =~= column_views(cs@.take(i as int)).push(cs@[i as int]@));
        i += 1;
    }
    assert(cs@.take(i as int) =~= cs@);
    out
}

/// A listed column as a definition (see [`listed_column`]): scan its
/// constraints for `PRIMARY KEY` and `NOT NULL`.
fn listed_column_def(c: &ColumnSpec) -> (r: ColumnDef)
    ensures
        r@ == listed_column(*c),
{
    let mut is_primary_key = false;
    let mut is_nullable = true;
    let mut i: usize = 0;
    while i < c.constraints.len()
        invariant
            0 <= i <= c.constraints@.len(),
            is_primary_key == c.constraints@.take(i as int).contains(ConstraintKind::PrimaryKey),
            is_nullable == (!c.constraints@.take(i as int).contains(ConstraintKind::NotNull) && !c.constraints@.take(
                i as int,
            ).contains(ConstraintKind::PrimaryKey)),
        decreases c.constraints@.len() - i,
    {
        let k = c.constraints[i];
        let ghost before = c.constraints@.take(i as int);
        let ghost after = c.constraints@.take(i + 1);
        assert(after =~= before.push(k));
        assert forall|x: ConstraintKind| after.contains(x) <==> (before.contains(x) || x == k) by {
            if after.contains(x) {
                let j = choose|j: int| 0 <= j < after.len() && after[j] == x;
                if j < before.len() {
                    assert(before[j] == x);
                }
            }
            if before.contains(x) {
                let j = choose|j: int| 0 <= j < before.len() && before[j] == x;
                assert(after[j] == x);
            }
            if x == k {
                assert(after[i as int] == x);
            }
        }
        match k {
            ConstraintKind::NotNull => {
                is_nullable = false;
            },
            ConstraintKind::PrimaryKey => {
                is_primary_key = true;
                is_nullable = false;
            },
            ConstraintKind::Other => {},
        }
        i += 1;
    }
    assert(c.constraints@.take(i as int) =~= c.constraints@);
    let declared_type = if c.declared_type.as_str().is_empty() {
        None
    } else {
        Some(c.declared_type.clone())
    };
    ColumnDef { name: c.name.clone(), declared_type, is_primary_key, is_nullable }
}

/// The named columns of a column definition list (see [`listed_columns`]).
fn columns_from_column_list(cs: &Vec<ColumnSpec>) -> (r: Vec<ColumnDef>)
    ensures
        column_views(r@) == listed_columns(cs@),
{
    let mut out: Vec<ColumnDef> = Vec::new();
    let mut i: usize = 0;
    while i < cs.len()
        invariant
            0 <= i <= cs@.len(),
            column_views(out@) == listed_columns(cs@.take(i as int)),
        decreases cs@.len() - i,
    {
        assert(cs@.take(i + 1).drop_last() =~= cs@.take(i as int));
        assert(cs@.take(i + 1).last() == cs@[i as int]);
        if !cs[i].name.as_str().is_empty() {
            let c = listed_column_def(&cs[i]);
            let ghost prev = column_views(out@);
            out.push(c);
            assert(column_views(out@) =~= prev.push(listed_column(cs@[i as int])));
        }
        i += 1;
    }
    assert(cs@.take(i as int) =~= cs@);
    out
}

/// The relation last defined under `name` among `known`.
fn last_defined<'a>(known: &'a Vec<RelationDef>, name: &str) -> (r: Option<&'a RelationDef>)
    ensures
        match known_columns(relation_views(known@), name@) {
            Some(cs) => r matches Some(x) && column_views(x.columns@) == cs,
            None => r is None,
        },
{
    let ghost views = relation_views(known@);
    let mut i = known.len();
    assert(views.take(i as int) =~= views);
    while i > 0
        invariant
            0 <= i <= known@.len(),
            views == relation_views(known@),
            known_columns(views, name@) == known_columns(views.take(i as int), name@),
        decreases i,
    {
        let ghost prefix = views.take(i as int);
        assert(prefix.drop_last() =~= views.take(i - 1));
        assert(prefix.last() == known@[i - 1]@);
        i -= 1;
        if eq_ignore_ascii_case(known[i].name.as_str(), name) {
            assert(column_views(known@[i as int].columns@) == known@[i as int]@.columns);
            return Some(&known[i]);
        }
    }
    None
}

/// The first relation of the session named `name`.
fn session_defined<'a>(session: &'a SessionContext, name: &str) -> (r: Option<&'a RelationDef>)
    ensures
        match find_named(relation_views(session.relations@), name@) {
            Some(v) => r matches Some(x) && x@ == v,
            None => r is None,
        },
{
    let ghost views = relation_views(session.relations@);
    let mut i: usize = 0;
    assert(views.skip(0) =~= views);
    while i < session.relations.len()
        invariant
            0 <= i <= session.relations@.len(),
            views == relation_views(session.relations@),
            find_named(views, name@) == find_named(views.skip(i as int), name@),
        decreases session.relations@.len() - i,
    {
        let ghost rest = views.skip(i as int);
        assert(rest.drop_first() =~= views.skip(i + 1));
        assert(rest[0] == session.relations@[i as int]@);
        if eq_ignore_ascii_case(session.relations[i].name.as_str(), name) {
            return Some(&session.relations[i]);
        }
        i += 1;
    }
    None
}

/// The columns of a table named in FROM (see [`table_columns`]).
fn table_columns_of(known: &Vec<RelationDef>, session: Option<&SessionContext>, name: &str) -> (r: Vec<ColumnDef>)
    ensures
        column_views(r@) == table_columns(relation_views(known@), session_view(session), name@),
{
    match last_defined(known, name) {
        Some(rel) => copy_columns(&rel.columns),
        None => {
            let found = match session {
                Some(s) => session_defined(s, name),
                None => None,
            };
            match found {
                Some(rel) => copy_columns(&rel.columns),
                None => {
                    let v: Vec<ColumnDef> = Vec::new();
                    assert(column_views(v@) =~= Seq::<ColumnDefView>::empty());
                    v
                },
            }
        },
    }
}

/// A FROM source with its resolved columns.
struct FromSource {
    qualifier: String,
    columns: Vec<ColumnDef>,
}

impl View for FromSource {
    type V = FromView;

    closed spec fn view(&self) -> FromView {
        FromView { qualifier: self.qualifier@, columns: column_views(self.columns@) }
    }
}

spec fn from_views(s: Seq<FromSource>) -> Seq<FromView> {
    s.map_values(|f: FromSource| f@)
}

/// Append the columns `*` or `qualifier.*` stands for (see [`expanded`]).
fn expand_star(sources: &Vec<FromSource>, qualifier: &str, out: &mut Vec<ColumnDef>)
    ensures
        column_views(final(out)@) == column_views(old(out)@) + expanded(from_views(sources@), qualifier@),
{
    let ghost views = from_views(sources@);
    let mut i: usize = 0;
    assert(column_views(out@) =~= column_views(old(out)@) + expanded(views.take(0), qualifier@));
    while i < sources.len()
        invariant
            0 <= i <= sources@.len(),
            views == from_views(sources@),
            column_views(out@) == column_views(old(out)@) + expanded(views.take(i as int), qualifier@),
        decreases sources@.len() - i,
    {
        assert(views.take(i + 1).drop_last() =~= views.take(i as int));
        assert(views.take(i + 1).last() == sources@[i as int]@);
        let src = &sources[i];
        if qualifier.is_empty() || eq_ignore_ascii_case(src.qualifier.as_str(), qualifier) {
            let ghost start = column_views(out@);
            let mut j: usize = 0;
            while j < src.columns.len()
                invariant
                    0 <= j <= src.columns@.len(),
                    column_views(out@) == start + column_views(src.columns@).take(j as int).map_values(|c: ColumnDefView| passed_on(c)),
                decreases src.columns@.len() - j,
            {
                let c = passed_on_column(&src.columns[j]);
                let ghost prev = column_views(out@);
                let ghost cols = column_views(src.columns@);
                out.push(c);
                assert(column_views(out@) =~= prev.push(passed_on(cols[j as int])));
                assert(cols.take(j + 1).map_values(|c: ColumnDefView| passed_on(c)) =~= cols.take(j as int).map_values(
                    |c: ColumnDefView| passed_on(c),
                ).push(passed_on(cols[j as int])));
                j += 1;
            }
            assert(column_views(src.columns@).take(j as int) =~= column_views(src.columns@));
            assert(column_views(out@) =~= column_views(old(out)@) + expanded(views.take(i + 1), qualifier@));
        }
        i += 1;
    }
    assert(views.take(i as int) =~= views);
}

/// The sources of a FROM clause (see [`sources_of`]).
fn collect_from_sources(src: &SourceSpec, known: &Vec<RelationDef>, session: Option<&SessionContext>) -> (r: Vec<FromSource>)
    ensures
        from_views(r@) == sources_of(*src, relation_views(known@), session_view(session)),
    decreases *src,
{
    match src {
        SourceSpec::Table { name, alias } => {
            let qualifier = if alias.as_str().is_empty() {
                name.clone()
            } else {
                alias.clone()
            };
            let columns = table_columns_of(known, session, name.as_str());
            let mut out: Vec<FromSource> = Vec::new();
            out.push(FromSource { qualifier, columns });
            assert(from_views(out@) =~= sources_of(*src, relation_views(known@), session_view(session)));
            out
        },
        SourceSpec::Subquery { select, alias } => {
            let columns = opt_columns_from_select(select, known, session);
            let mut out: Vec<FromSource> = Vec::new();
            out.push(FromSource { qualifier: alias.clone(), columns });
            assert(from_views(out@) =~= sources_of(*src, relation_views(known@), session_view(session)));
            out
        },
        SourceSpec::Join { left, right } => {
            let mut out = opt_from_sources(left, known, session);
            let mut more = opt_from_sources(right, known, session);
            let ghost a = out@;
            let ghost b = more@;
            out.append(&mut more);
            assert(from_views(out@) =~= from_views(a) + from_views(b));
            out
        },
        SourceSpec::Prefix { source } => opt_from_sources(source, known, session),
        SourceSpec::Other => {
            let out: Vec<FromSource> = Vec::new();
            assert(from_views(out@) =~= Seq::<FromView>::empty());
            out
        },
    }
}

fn opt_from_sources(o: &Option<Box<SourceSpec>>, known: &Vec<RelationDef>, session: Option<&SessionContext>) -> (r: Vec<FromSource>)
    ensures
        from_views(r@) == opt_sources_of(*o, relation_views(known@), session_view(session)),
    decreases *o,
{
    match o {
        Some(s) => collect_from_sources(s, known, session),
        None => {
            let out: Vec<FromSource> = Vec::new();
            assert(from_views(out@) =~= Seq::<FromView>::empty());
            out
        },
    }
}

/// The columns a SELECT yields (see [`select_columns_of`]).
fn columns_from_select(sel: &SelectSpec, known: &Vec<RelationDef>, session: Option<&SessionContext>) -> (r: Vec<ColumnDef>)
    ensures
        column_views(r@) == select_columns_of(*sel, relation_views(known@), session_view(session)),
    decreases *sel,
{
    match sel {
        SelectSpec::Simple { from, columns } => {
            let mut out: Vec<ColumnDef> = Vec::new();
            match columns {
                Some(rcs) => {
                    let sources = opt_from_sources(from, known, session);
                    let ghost fv = from_views(sources@);
                    let mut i: usize = 0;
                    assert(column_views(out@) =~= result_columns(rcs@.take(0), fv));
                    while i < rcs.len()
                        invariant
                            0 <= i <= rcs@.len(),
                            fv == from_views(sources@),
                            column_views(out@) == result_columns(rcs@.take(i as int), fv),
                        decreases rcs@.len() - i,
                    {
                        assert(rcs@.take(i + 1).drop_last() =~= rcs@.take(i as int));
                        assert(rcs@.take(i + 1).last() == rcs@[i as int]);
                        let rc = &rcs[i];
                        let ghost prev = column_views(out@);
                        if rc.star {
                            expand_star(&sources, rc.alias.as_str(), &mut out);
                        } else if !rc.alias.as_str().is_empty() {
                            out.push(ColumnDef { name: rc.alias.clone(), declared_type: None, is_primary_key: false, is_nullable: true });
                            assert(column_views(out@) =~= prev.push(
                                ColumnDefView { name: rc.alias@, declared_type: None, is_primary_key: false, is_nullable: true },
                            ));
                        } else {
                            match &rc.column_ref {
                                Some(c) => {
                                    out.push(ColumnDef { name: c.clone(), declared_type: None, is_primary_key: false, is_nullable: true });
                                    assert(column_views(out@) =~= prev.push(
                                        ColumnDefView { name: c@, declared_type: None, is_primary_key: false, is_nullable: true },
                                    ));
                                },
                                None => {
                                    if !rc.text.as_str().is_empty() {
                                        out.push(
                                            ColumnDef { name: rc.text.clone(), declared_type: None, is_primary_key: false, is_nullable: true },
                                        );
                                        assert(column_views(out@) =~= prev.push(
                                            ColumnDefView { name: rc.text@, declared_type: None, is_primary_key: false, is_nullable: true },
                                        ));
                                    }
                                },
                            }
                        }
                        i += 1;
                    }
                    assert(rcs@.take(i as int) =~= rcs@);
                },
                None => {
                    assert(column_views(out@) =~= Seq::<ColumnDefView>::empty());
                },
            }
            out
        },
        SelectSpec::Compound { left } => opt_columns_from_select(left, known, session),
        SelectSpec::With { select } => opt_columns_from_select(select, known, session),
        SelectSpec::Other => {
            let out: Vec<ColumnDef> = Vec::new();
            assert(column_views(out@) =~= Seq::<ColumnDefView>::empty());
            out
        },
    }
}

fn opt_columns_from_select(o: &Option<Box<SelectSpec>>, known: &Vec<RelationDef>, session: Option<&SessionContext>) -> (r: Vec<ColumnDef>)
    ensures
        column_views(r@) == opt_select_columns_of(*o, relation_views(known@), session_view(session)),
    decreases *o,
{
    match o {
        Some(s) => columns_from_select(s, known, session),
        None => {
            let out: Vec<ColumnDef> = Vec::new();
            assert(column_views(out@) =~= Seq::<ColumnDefView>::empty());
            out
        },
    }
}

impl DocumentContext {
    /// Process one DDL statement and update the document schema (see
    /// [`accumulated`]). `session` is consulted when `*` names a table this
    /// document has not defined.
    pub fn accumulate(&mut self, stmt: &DefinitionSpec, session: Option<&SessionContext>)
        ensures
            (relation_views(final(self).relations@), function_views(final(self).functions@)) == accumulated(
                relation_views(old(self).relations@),
                function_views(old(self).functions@),
                *stmt,
                session_view(session),
            ),
    {
        match stmt {
            DefinitionSpec::Relation { kind, name, columns, select } => {
                if name.as_str().is_empty() {
                    return;
                }
                let cols = match columns {
                    Some(cs) => columns_from_column_list(cs),
                    None => match select {
                        Some(s) => columns_from_select(s, &self.relations, session),
                        None => {
                            let v: Vec<ColumnDef> = Vec::new();
                            assert(column_views(v@) =~= Seq::<ColumnDefView>::empty());
                            v
                        },
                    },
                };
                let ghost before = relation_views(self.relations@);
                let rel = RelationDef { name: name.clone(), columns: cols, kind: *kind };
                assert(rel@.columns == column_views(rel.columns@));
                self.relations.push(rel);
                assert(relation_views(self.relations@) =~= before.push(rel@));
            },
            DefinitionSpec::Function { name, args } => {
                if name.as_str().is_empty() {
                    return;
                }
                let ghost before = function_views(self.functions@);
                let f = FunctionDef { name: name.clone(), args: *args, description: None };
                self.functions.push(f);
                assert(function_views(self.functions@) =~= before.push(f@));
            },
            _ => {},
        }
    }
}

impl SessionContext {
    /// Build a session schema from parsed DDL statements, in order; `*` in
    /// an `AS SELECT` body expands to the tables and views defined by
    /// earlier statements.
    pub fn from_stmts(stmts: &Vec<DefinitionSpec>) -> (r: Self)
        ensures
            (relation_views(r.relations@), function_views(r.functions@)) == accumulated_all(
                Seq::empty(),
                Seq::empty(),
                stmts@,
                None,
            ),
    {
        let mut doc = DocumentContext::new();
        assert(relation_views(doc.relations@) =~= Seq::<RelationDefView>::empty());
        assert(function_views(doc.functions@) =~= Seq::<FunctionDefView>::empty());
        let mut i: usize = 0;
        while i < stmts.len()
            invariant
                0 <= i <= stmts@.len(),
                (relation_views(doc.relations@), function_views(doc.functions@)) == accumulated_all(
                    Seq::empty(),
                    Seq::empty(),
                    stmts@.take(i as int),
                    None,
                ),
            decreases stmts@.len() - i,
        {
            assert(stmts@.take(i + 1).drop_last() =~= stmts@.take(i as int));
            assert(stmts@.take(i + 1).last() == stmts@[i as int]);
            doc.accumulate(&stmts[i], None);
            i += 1;
        }
        assert(stmts@.take(i as int) =~= stmts@);
        SessionContext { relations: doc.relations, functions: doc.functions }
    }
}

} // verus!
