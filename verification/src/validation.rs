//! Semantic validation against an ambient schema: the configuration, the
//! schema contexts, the function catalog, the scope stack used for name
//! resolution, and the checks that turn unresolved names into diagnostics.

use vstd::prelude::*;
use vstd::std_specs::iter::IteratorSpec;

use crate::diagnostics::{Diagnostic, DiagnosticMessage, Help, Severity};
use crate::dialect::{BuiltinFunction, Dialect};
use crate::relations::{relation_views, ColumnDef, RelationDef, RelationDefView, RelationKind};
use crate::catalog::{any_column_matches, columns_view, has_column, opt_str_view};
use crate::fuzzy::{best_suggestion, suggestion_for};
use crate::table::{assoc_insert, lemma_assoc_insert, lookup, NameTable};
use crate::text::{
    add_to_sorted_set, eq_ignore_ascii_case, is_sorted_set, same_ignoring_case, str_equal, string_views, to_lowercase,
    unicode_lowercase,
};

verus! {

// ── Configuration ───────────────────────────────────────────────────────────

/// Configuration for semantic validation.
#[derive(Clone, Copy)]
pub struct ValidationConfig {
    /// When `true`, unresolved names are reported as errors.
    /// When `false`, they are reported as warnings.
    pub strict_schema: bool,
    /// Maximum Levenshtein distance for "did you mean?" suggestions.
    pub suggestion_threshold: usize,
}

impl Default for ValidationConfig {
    fn default() -> (r: Self)
        ensures
            !r.strict_schema,
            r.suggestion_threshold == 2,
    {
        ValidationConfig { strict_schema: false, suggestion_threshold: 2 }
    }
}

/// The severity of unresolved-name diagnostics under a configuration.
pub open spec fn config_severity(c: ValidationConfig) -> Severity {
    if c.strict_schema {
        Severity::Error
    } else {
        Severity::Warning
    }
}

impl ValidationConfig {
    /// Errors in strict mode, warnings otherwise.
    pub fn severity(&self) -> (r: Severity)
        ensures
            r == config_severity(*self),
    {
        if self.strict_schema {
            Severity::Error
        } else {
            Severity::Warning
        }
    }
}

// ── Functions ───────────────────────────────────────────────────────────────

/// A function definition as plain values.
pub struct FunctionDefView {
    /// Function name.
    pub name: Seq<char>,
    /// Accepted argument count; `None` is variadic.
    pub args: Option<usize>,
    /// Optional description.
    pub description: Option<Seq<char>>,
}

/// A function known to validation, one entry per accepted arity.
pub struct FunctionDef {
    /// Function name.
    pub name: String,
    /// `None` = variadic.
    pub args: Option<usize>,
    /// Optional description.
    pub description: Option<String>,
}

impl View for FunctionDef {
    type V = FunctionDefView;

    open spec fn view(&self) -> FunctionDefView {
        FunctionDefView {
            name: self.name@,
            args: self.args,
            description: crate::relations::opt_string_view(self.description),
        }
    }
}

impl FunctionDef {
    /// An independent copy.
    pub fn duplicate(&self) -> (r: Self)
        ensures
            r@ == self@,
    {
        let description = match &self.description {
            Some(d) => Some(d.clone()),
            None => None,
        };
        FunctionDef { name: self.name.clone(), args: self.args, description }
    }
}

/// The views of a list of function definitions.
pub open spec fn function_views(fs: Seq<FunctionDef>) -> Seq<FunctionDefView> {
    fs.map_values(|f: FunctionDef| f@)
}

/// The definitions a built-in function expands to: one variadic entry when
/// it lists no arities, otherwise one entry per code (negative codes are
/// variadic).
pub open spec fn expanded(f: BuiltinFunction) -> Seq<FunctionDefView> {
    if f.arities@.len() == 0 {
        seq![FunctionDefView { name: f.name@, args: None, description: None }]
    } else {
        f.arities@.map_values(
            |a: i16| FunctionDefView { name: f.name@, args: if a < 0 { None } else { Some(a as usize) }, description: None },
        )
    }
}

/// Expand a built-in function into one definition per arity.
pub fn expand_function_info(info: &BuiltinFunction) -> (r: Vec<FunctionDef>)
    ensures
        function_views(r@) == expanded(*info),
{
    let mut out: Vec<FunctionDef> = Vec::new();
    if info.arities.len() == 0 {
        out.push(FunctionDef { name: info.name.clone(), args: None, description: None });
        assert(function_views(out@) =~= expanded(*info));
        return out;
    }
    let mut i: usize = 0;
    while i < info.arities.len()
        invariant
            0 <= i <= info.arities@.len(),
            info.arities@.len() > 0,
            out@.len() == i,
            forall|k: int| 0 <= k < i ==> (#[trigger] out@[k])@ == expanded(*info)[k],
        decreases info.arities@.len() - i,
    {
        let a = info.arities[i];
        let args = if a < 0 {
            None
        } else {
            Some(a as usize)
        };
        out.push(FunctionDef { name: info.name.clone(), args, description: None });
        i += 1;
    }
    assert(function_views(out@) =~= expanded(*info));
    out
}

/// The expansion of every function of a list, in order.
pub open spec fn expanded_all(fs: Seq<BuiltinFunction>) -> Seq<FunctionDefView>
    decreases fs.len(),
{
    if fs.len() == 0 {
        Seq::empty()
    } else {
        expanded_all(fs.drop_last()) + expanded(fs.last())
    }
}

/// Appends copies of `src` to `dst`.
fn extend_functions(dst: &mut Vec<FunctionDef>, src: &Vec<FunctionDef>)
    ensures
        function_views(final(dst)@) == function_views(old(dst)@) + function_views(src@),
{
    let ghost d0 = dst@;
    let mut i: usize = 0;
    while i < src.len()
        invariant
            0 <= i <= src@.len(),
            dst@.len() == d0.len() + i,
            forall|k: int| 0 <= k < d0.len() ==> #[trigger] dst@[k] == d0[k],
            forall|k: int| 0 <= k < i ==> (#[trigger] dst@[d0.len() + k])@ == src@[k]@,
        decreases src@.len() - i,
    {
        dst.push(src[i].duplicate());
        i += 1;
    }
    proof {
        let want = function_views(d0) + function_views(src@);
        assert forall|k: int| 0 <= k < want.len() implies #[trigger] function_views(dst@)[k] == want[k] by {
            if k < d0.len() {
                assert(dst@[k] == d0[k]);
            } else {
                assert(dst@[d0.len() + (k - d0.len())]@ == src@[k - d0.len()]@);
            }
        }
        assert(function_views(dst@) =~= want);
    }
}

/// Resolved function catalog: the dialect's built-in and extension
/// functions, one entry per arity, followed by session functions.
pub struct FunctionCatalog {
    functions: Vec<FunctionDef>,
}

impl View for FunctionCatalog {
    type V = Seq<FunctionDefView>;

    closed spec fn view(&self) -> Seq<FunctionDefView> {
        function_views(self.functions@)
    }
}

impl FunctionCatalog {
    /// Build the catalog of a dialect: its built-in functions, then its
    /// extension functions, each expanded per arity.
    pub fn for_dialect(dialect: &Dialect) -> (r: Self)
        ensures
            r@ == expanded_all(dialect.functions()) + expanded_all(dialect.extensions()),
    {
        let mut functions: Vec<FunctionDef> = Vec::new();
        let b = dialect.builtin_functions();
        let mut i: usize = 0;
        assert(function_views(functions@) =~= expanded_all(b@.take(0)));
        while i < b.len()
            invariant
                0 <= i <= b@.len(),
                b@ == dialect.functions(),
                function_views(functions@) == expanded_all(b@.take(i as int)),
            decreases b@.len() - i,
        {
            let e = expand_function_info(&b[i]);
            extend_functions(&mut functions, &e);
            assert(b@.take(i + 1).drop_last() =~= b@.take(i as int));
            i += 1;
        }
        assert(b@.take(i as int) =~= b@);
        let x = dialect.extension_functions();
        let ghost base = function_views(functions@);
        let mut j: usize = 0;
        assert(base + expanded_all(x@.take(0)) =~= base);
        while j < x.len()
            invariant
                0 <= j <= x@.len(),
                x@ == dialect.extensions(),
                base == expanded_all(dialect.functions()),
                function_views(functions@) == base + expanded_all(x@.take(j as int)),
            decreases x@.len() - j,
        {
            let e = expand_function_info(&x[j]);
            extend_functions(&mut functions, &e);
            assert(x@.take(j + 1).drop_last() =~= x@.take(j as int));
            j += 1;
        }
        assert(x@.take(j as int) =~= x@);
        FunctionCatalog { functions }
    }

    /// Append the functions of a session context.
    pub fn with_session(self, session: &SessionContext) -> (r: Self)
        ensures
            r@ == self@ + function_views(session.functions@),
    {
        let mut functions = self.functions;
        extend_functions(&mut functions, &session.functions);
        FunctionCatalog { functions }
    }

    /// All function definitions (several entries per name for different
    /// arities).
    pub fn functions(&self) -> (r: &[FunctionDef])
        ensures
            function_views(r@) == self@,
    {
        self.functions.as_slice()
    }

    /// Function names, each once (exact spelling), in catalog order.
    pub fn unique_names(&self) -> (r: std::vec::IntoIter<&str>)
        ensures
            r.remaining().map_values(|s: &str| s@) == crate::relations::distinct_in_order(
                self@.map_values(|f: FunctionDefView| f.name),
            ),
    {
        broadcast use vstd::std_specs::vec::group_vec_axioms;
        let ghost all = self@.map_values(|f: FunctionDefView| f.name);
        let mut names: Vec<&str> = Vec::new();
        let mut i: usize = 0;
        assert(names@.map_values(|s: &str| s@) =~= crate::relations::distinct_in_order(all.take(0)));
        while i < self.functions.len()
            invariant
                0 <= i <= self.functions@.len(),
                all == self@.map_values(|f: FunctionDefView| f.name),
                names@.map_values(|s: &str| s@) == crate::relations::distinct_in_order(all.take(i as int)),
            decreases self.functions@.len() - i,
        {
            let n = self.functions[i].name.as_str();
            let ghost before = names@.map_values(|s: &str| s@);
            proof {
                assert(all.take(i + 1).drop_last() =~= all.take(i as int));
                assert(all.take(i + 1).last() == n@);
            }
            let mut k: usize = 0;
            let mut seen = false;
            while k < names.len()
                invariant
                    0 <= k <= names@.len(),
                    before == names@.map_values(|s: &str| s@),
                    seen == exists|q: int| 0 <= q < k && before[q] == n@,
                decreases names@.len() - k,
            {
                if str_equal(names[k], n) {
                    assert(before[k as int] == n@);
                    seen = true;
                }
                k += 1;
            }
            if !seen {
                names.push(n);
                assert(names@.map_values(|s: &str| s@) =~= before.push(n@));
            }
            i += 1;
        }
        assert(all.take(i as int) =~= all);
        names.into_iter()
    }
}

// ── Schema contexts ─────────────────────────────────────────────────────────

/// The relations of `rs` of kind `kind`, in order.
pub open spec fn of_kind(rs: Seq<RelationDefView>, kind: RelationKind) -> Seq<RelationDefView> {
    rs.filter(|r: RelationDefView| r.kind == kind)
}

/// The relations of kind `kind`, in order.
fn relations_of_kind<'a>(rs: &'a Vec<RelationDef>, kind: RelationKind) -> (r: std::vec::IntoIter<&'a RelationDef>)
    ensures
        r.remaining().map_values(|x: &'a RelationDef| x@) == of_kind(relation_views(rs@), kind),
{
    broadcast use vstd::std_specs::vec::group_vec_axioms;
    let ghost vs = relation_views(rs@);
    let mut out: Vec<&'a RelationDef> = Vec::new();
    let mut i: usize = 0;
    proof {
        reveal(Seq::filter);
        assert(vs.take(0).filter(|r: RelationDefView| r.kind == kind) =~= Seq::<RelationDefView>::empty());
        assert(out@.map_values(|x: &'a RelationDef| x@) =~= Seq::<RelationDefView>::empty());
    }
    while i < rs.len()
        invariant
            0 <= i <= rs@.len(),
            vs == relation_views(rs@),
            out@.map_values(|x: &'a RelationDef| x@) == vs.take(i as int).filter(|r: RelationDefView| r.kind == kind),
        decreases rs@.len() - i,
    {
        let r = &rs[i];
        let ghost before = out@.map_values(|x: &'a RelationDef| x@);
        proof {
            reveal(Seq::filter);
            assert(vs.take(i + 1).drop_last() =~= vs.take(i as int));
            assert(vs.take(i + 1).last() == r@);
        }
        if r.kind == kind {
            out.push(r);
            assert(out@.map_values(|x: &'a RelationDef| x@) =~= before.push(r@));
        }
        i += 1;
    }
    assert(vs.take(i as int) =~= vs);
    out.into_iter()
}

/// Database schema context for analysis, populated by the caller (from a
/// live database, DDL, a configuration file, ...).
pub struct SessionContext {
    /// Tables and views.
    pub relations: Vec<RelationDef>,
    /// User-defined functions.
    pub functions: Vec<FunctionDef>,
}

impl SessionContext {
    /// The tables, in order.
    pub fn tables(&self) -> (r: std::vec::IntoIter<&RelationDef>)
        ensures
            r.remaining().map_values(|x: &RelationDef| x@) == of_kind(relation_views(self.relations@), RelationKind::Table),
    {
        relations_of_kind(&self.relations, RelationKind::Table)
    }

    /// The views, in order.
    pub fn views(&self) -> (r: std::vec::IntoIter<&RelationDef>)
        ensures
            r.remaining().map_values(|x: &RelationDef| x@) == of_kind(relation_views(self.relations@), RelationKind::View),
    {
        relations_of_kind(&self.relations, RelationKind::View)
    }
}

/// Splitting relations into tables and views keeps every relation exactly
/// once: together the two lists hold each relation as often as the whole
/// list does.
pub proof fn law_tables_and_views_partition(rs: Seq<RelationDefView>)
    ensures
        of_kind(rs, RelationKind::Table).to_multiset().add(of_kind(rs, RelationKind::View).to_multiset()) =~= rs.to_multiset(),
    decreases rs.len(),
{
    broadcast use vstd::seq_lib::to_multiset_build, vstd::multiset::group_multiset_axioms;
    reveal(Seq::filter);
    if rs.len() == 0 {
        assert(of_kind(rs, RelationKind::Table) =~= Seq::<RelationDefView>::empty());
        assert(of_kind(rs, RelationKind::View) =~= Seq::<RelationDefView>::empty());
        assert(rs =~= Seq::<RelationDefView>::empty());
        assert forall|a: RelationDefView| #[trigger] rs.to_multiset().count(a) == 0 by {
            broadcast use vstd::seq_lib::to_multiset_contains;
            assert(!rs.contains(a));
        }
    } else {
        law_tables_and_views_partition(rs.drop_last());
        assert(rs =~= rs.drop_last().push(rs.last()));
    }
}

/// Schema accumulated from DDL statements earlier in the document being
/// validated.
pub struct DocumentContext {
    /// Tables and views defined so far.
    pub relations: Vec<RelationDef>,
    /// Functions defined so far.
    pub functions: Vec<FunctionDef>,
}

impl DocumentContext {
    /// An empty document context.
    pub fn new() -> (r: Self)
        ensures
            r.relations@.len() == 0,
            r.functions@.len() == 0,
    {
        DocumentContext { relations: Vec::new(), functions: Vec::new() }
    }

    /// The tables, in order.
    pub fn tables(&self) -> (r: std::vec::IntoIter<&RelationDef>)
        ensures
            r.remaining().map_values(|x: &RelationDef| x@) == of_kind(relation_views(self.relations@), RelationKind::Table),
    {
        relations_of_kind(&self.relations, RelationKind::Table)
    }

    /// The views, in order.
    pub fn views(&self) -> (r: std::vec::IntoIter<&RelationDef>)
        ensures
            r.remaining().map_values(|x: &RelationDef| x@) == of_kind(relation_views(self.relations@), RelationKind::View),
    {
        relations_of_kind(&self.relations, RelationKind::View)
    }
}

impl Default for DocumentContext {
    fn default() -> (r: Self)
        ensures
            r.relations@.len() == 0,
            r.functions@.len() == 0,
    {
        DocumentContext::new()
    }
}


// ── Scope stack ─────────────────────────────────────────────────────────────

/// The entries of one scope: lowercase table or alias name → its columns
/// (`None` when unknown).
pub type ScopeEntries = Seq<(Seq<char>, Option<Seq<Seq<char>>>)>;

/// A table or alias registered in a scope.
struct ScopeTable {
    columns: Option<Vec<String>>,
}

impl View for ScopeTable {
    type V = Option<Seq<Seq<char>>>;

    closed spec fn view(&self) -> Option<Seq<Seq<char>>> {
        columns_view(self.columns)
    }
}

/// A single scope level (one SELECT or subquery).
struct Scope {
    tables: NameTable<ScopeTable>,
}

/// How a column reference resolves during validation.
#[derive(Debug, Clone, Copy, PartialEq, Eq, Structural)]
pub enum ColumnResolution {
    /// The column exists, or cannot be ruled out.
    Found,
    /// The qualifying table is in scope but lacks the column.
    TableFoundColumnMissing,
    /// The qualifying table is not in scope.
    TableNotFound,
    /// No table in scope or in the ambient schema has the column.
    NotFound,
}

/// The ambient relations: the document's first, then the session's.
pub open spec fn ambient_of(session: Option<&SessionContext>, document: Option<&DocumentContext>) -> Seq<RelationDefView> {
    (match document {
        Some(d) => relation_views(d.relations@),
        None => Seq::empty(),
    }) + (match session {
        Some(s) => relation_views(s.relations@),
        None => Seq::empty(),
    })
}

/// The first ambient relation named `name` (ignoring case) that lists
/// columns.
pub open spec fn first_with_columns(rs: Seq<RelationDefView>, name: Seq<char>) -> Option<RelationDefView>
    decreases rs.len(),
{
    if rs.len() == 0 {
        None
    } else if same_ignoring_case(rs[0].name, name) && rs[0].columns.len() > 0 {
        Some(rs[0])
    } else {
        first_with_columns(rs.drop_first(), name)
    }
}

/// The column names of a relation.
pub open spec fn column_names(r: RelationDefView) -> Seq<Seq<char>> {
    r.columns.map_values(|c: crate::relations::ColumnDefView| c.name)
}

/// Qualified resolution against scopes `0..i`: the innermost scope holding
/// the key decides.
pub open spec fn stack_qualified(frames: Seq<ScopeEntries>, i: int, key: Seq<char>, column: Seq<char>) -> ColumnResolution
    decreases i,
{
    if i <= 0 {
        ColumnResolution::TableNotFound
    } else {
        match lookup(frames[i - 1], key) {
            Some(cols) => match cols {
                Some(list) => if has_column(list, column) {
                    ColumnResolution::Found
                } else {
                    ColumnResolution::TableFoundColumnMissing
                },
                None => ColumnResolution::Found,
            },
            None => stack_qualified(frames, i - 1, key, column),
        }
    }
}

/// Some table in some scope lists `column`.
pub open spec fn known_in_frames(frames: Seq<ScopeEntries>, column: Seq<char>) -> bool {
    exists|i: int, k: int|
        0 <= i < frames.len() && 0 <= k < frames[i].len() && (#[trigger] frames[i][k]).1 is Some && has_column(
            frames[i][k].1->0,
            column,
        )
}

/// Some table in some scope has unknown columns.
pub open spec fn unknown_in_frames(frames: Seq<ScopeEntries>) -> bool {
    exists|i: int, k: int| 0 <= i < frames.len() && 0 <= k < frames[i].len() && (#[trigger] frames[i][k]).1 is None
}

/// Some ambient relation has a column named `column` (ignoring case).
pub open spec fn known_in_ambient(rs: Seq<RelationDefView>, column: Seq<char>) -> bool {
    exists|j: int| 0 <= j < rs.len() && has_column(column_names(#[trigger] rs[j]), column)
}

/// Unqualified resolution: found when some scope table or ambient relation
/// has the column, or some scope table's columns are unknown.
pub open spec fn stack_unqualified(frames: Seq<ScopeEntries>, rs: Seq<RelationDefView>, column: Seq<char>) -> ColumnResolution {
    if known_in_frames(frames, column) || known_in_ambient(rs, column) || unknown_in_frames(frames) {
        ColumnResolution::Found
    } else {
        ColumnResolution::NotFound
    }
}

/// The keys of every scope, outermost first.
pub open spec fn stack_keys(frames: Seq<ScopeEntries>) -> Seq<Seq<char>>
    decreases frames.len(),
{
    if frames.len() == 0 {
        Seq::empty()
    } else {
        stack_keys(frames.drop_last()) + frames.last().map_values(|e: (Seq<char>, Option<Seq<Seq<char>>>)| e.0)
    }
}

/// The lowercase known columns of the scope entries passing the filter.
pub open spec fn entry_columns(es: ScopeEntries, table: Option<Seq<char>>) -> Seq<Seq<char>>
    decreases es.len(),
{
    if es.len() == 0 {
        Seq::empty()
    } else {
        let e = es.last();
        entry_columns(es.drop_last(), table) + if (table matches Some(t) ==> same_ignoring_case(e.0, t)) && e.1 is Some {
            e.1->0.map_values(|c: Seq<char>| unicode_lowercase(c))
        } else {
            Seq::empty()
        }
    }
}

/// The lowercase known columns of every scope, outermost first.
pub open spec fn stack_columns(frames: Seq<ScopeEntries>, table: Option<Seq<char>>) -> Seq<Seq<char>>
    decreases frames.len(),
{
    if frames.len() == 0 {
        Seq::empty()
    } else {
        stack_columns(frames.drop_last(), table) + entry_columns(frames.last(), table)
    }
}

/// The lowercase column names of the ambient relations passing the filter.
pub open spec fn ambient_columns(rs: Seq<RelationDefView>, table: Option<Seq<char>>) -> Seq<Seq<char>>
    decreases rs.len(),
{
    if rs.len() == 0 {
        Seq::empty()
    } else {
        let r = rs.last();
        ambient_columns(rs.drop_last(), table) + if table matches Some(t) ==> same_ignoring_case(r.name, t) {
            column_names(r).map_values(|c: Seq<char>| unicode_lowercase(c))
        } else {
            Seq::empty()
        }
    }
}

/// A stack of scopes for name resolution, with an optional ambient schema.
///
/// Resolution order for names: SQL scope stack → document → session.
pub struct ScopeStack<'ctx> {
    session: Option<&'ctx SessionContext>,
    document: Option<&'ctx DocumentContext>,
    stack: Vec<Scope>,
}

impl<'ctx> ScopeStack<'ctx> {
    /// The entries of each scope, outermost first.
    pub closed spec fn frames(&self) -> Seq<ScopeEntries> {
        self.stack@.map_values(|s: Scope| s.tables.entries())
    }

    /// The ambient relations: document first, then session.
    pub closed spec fn ambient(&self) -> Seq<RelationDefView> {
        ambient_of(self.session, self.document)
    }

    /// At least one scope, and each scope's table is consistent.
    pub closed spec fn wf(&self) -> bool {
        &&& self.stack@.len() >= 1
        &&& forall|i: int| 0 <= i < self.stack@.len() ==> (#[trigger] self.stack@[i]).tables.wf()
    }

    /// Whether `name` resolves as a table: some scope holds its lowercase
    /// form, or some ambient relation has it (ignoring ASCII case).
    pub open spec fn resolves_table(&self, name: Seq<char>) -> bool {
        (exists|i: int| 0 <= i < self.frames().len() && lookup(#[trigger] self.frames()[i], unicode_lowercase(name)) is Some)
            || (exists|j: int| 0 <= j < self.ambient().len() && same_ignoring_case((#[trigger] self.ambient()[j]).name, name))
    }

    /// How `table.column` or a bare `column` resolves.
    pub open spec fn resolution(&self, table: Option<Seq<char>>, column: Seq<char>) -> ColumnResolution {
        match table {
            Some(t) => stack_qualified(self.frames(), self.frames().len() as int, unicode_lowercase(t), column),
            None => stack_unqualified(self.frames(), self.ambient(), column),
        }
    }

    /// The names offered as table suggestions, before sorting.
    pub open spec fn table_name_input(&self) -> Seq<Seq<char>> {
        stack_keys(self.frames()) + self.ambient().map_values(|r: RelationDefView| unicode_lowercase(r.name))
    }

    /// The names offered as column suggestions, before sorting.
    pub open spec fn column_name_input(&self, table: Option<Seq<char>>) -> Seq<Seq<char>> {
        stack_columns(self.frames(), table) + ambient_columns(self.ambient(), table)
    }

    proof fn lemma_frame(&self, i: int)
        requires
            self.wf(),
            0 <= i < self.frames().len(),
        ensures
            self.frames().len() == self.stack@.len(),
            self.stack@[i].tables.wf(),
            self.stack@[i].tables.entries() == self.frames()[i],
    {
    }

    /// A stack with one empty scope over the given ambient schema.
    pub fn new(session: Option<&'ctx SessionContext>, document: Option<&'ctx DocumentContext>) -> (r: Self)
        ensures
            r.wf(),
            r.frames() == seq![Seq::<(Seq<char>, Option<Seq<Seq<char>>>)>::empty()],
            r.ambient() == ambient_of(session, document),
    {
        let mut stack: Vec<Scope> = Vec::new();
        stack.push(Scope { tables: NameTable::new() });
        let r = ScopeStack { session, document, stack };
        assert(r.frames() =~= seq![Seq::<(Seq<char>, Option<Seq<Seq<char>>>)>::empty()]);
        r
    }

    /// Open a new innermost scope.
    pub fn push(&mut self)
        requires
            old(self).wf(),
        ensures
            final(self).wf(),
            final(self).frames() == old(self).frames().push(Seq::empty()),
            final(self).ambient() == old(self).ambient(),
    {
        self.stack.push(Scope { tables: NameTable::new() });
        assert(self.frames() =~= old(self).frames().push(Seq::empty()));
    }

    /// Close the innermost scope; the outermost one is never closed.
    pub fn pop(&mut self)
        requires
            old(self).wf(),
        ensures
            final(self).wf(),
            final(self).frames() == if old(self).frames().len() > 1 {
                old(self).frames().drop_last()
            } else {
                old(self).frames()
            },
            final(self).ambient() == old(self).ambient(),
    {
        if self.stack.len() > 1 {
            self.stack.pop();
            assert(self.frames() =~= old(self).frames().drop_last());
        }
    }

    /// Add a table or alias to the innermost scope, keyed by its lowercase
    /// name. `columns` is `None` when the column list is unknown.
    pub fn add_table(&mut self, name: &str, columns: Option<Vec<String>>)
        requires
            old(self).wf(),
        ensures
            final(self).wf(),
            final(self).frames() == old(self).frames().update(
                old(self).frames().len() - 1,
                assoc_insert(old(self).frames().last(), unicode_lowercase(name@), columns_view(columns)),
            ),
            final(self).ambient() == old(self).ambient(),
    {
        let key = to_lowercase(name);
        let n = self.stack.len();
        let ghost cv = columns_view(columns);
        let scope = &mut self.stack[n - 1];
        scope.tables.insert(key, ScopeTable { columns });
        assert(self.frames() =~= old(self).frames().update(
            n - 1,
            assoc_insert(old(self).frames().last(), unicode_lowercase(name@), cv),
        ));
    }

    /// All ambient relations: the document's, then the session's.
    fn ambient_relations(&self) -> (r: Vec<&'ctx RelationDef>)
        ensures
            r@.len() == self.ambient().len(),
            forall|k: int| 0 <= k < r@.len() ==> (#[trigger] r@[k])@ == self.ambient()[k],
    {
        let mut v: Vec<&'ctx RelationDef> = Vec::new();
        let ghost dv: Seq<RelationDefView> = match self.document {
            Some(d) => relation_views(d.relations@),
            None => Seq::empty(),
        };
        match self.document {
            Some(d) => {
                let mut i: usize = 0;
                while i < d.relations.len()
                    invariant
                        0 <= i <= d.relations@.len(),
                        dv == relation_views(d.relations@),
                        self.ambient() == dv + match self.session {
                            Some(s) => relation_views(s.relations@),
                            None => Seq::<RelationDefView>::empty(),
                        },
                        v@.len() == i,
                        forall|k: int| 0 <= k < i ==> (#[trigger] v@[k])@ == self.ambient()[k],
                    decreases d.relations@.len() - i,
                {
                    v.push(&d.relations[i]);
                    i += 1;
                }
            },
            None => {},
        }
        match self.session {
            Some(s) => {
                let mut j: usize = 0;
                while j < s.relations.len()
                    invariant
                        0 <= j <= s.relations@.len(),
                        self.ambient() == dv + relation_views(s.relations@),
                        v@.len() == dv.len() + j,
                        forall|k: int| 0 <= k < v@.len() ==> (#[trigger] v@[k])@ == self.ambient()[k],
                    decreases s.relations@.len() - j,
                {
                    v.push(&s.relations[j]);
                    j += 1;
                }
            },
            None => {},
        }
        v
    }

    /// The column names of the first ambient relation named `name` (ignoring
    /// case) that lists columns; the document is searched before the session.
    pub fn ambient_columns_for_table(&self, name: &str) -> (r: Option<Vec<String>>)
        ensures
            match first_with_columns(self.ambient(), name@) {
                None => r is None,
                Some(rel) => r matches Some(v) && string_views(v@) == column_names(rel),
            },
    {
        let rs = self.ambient_relations();
        let ghost amb = self.ambient();
        let mut i: usize = 0;
        assert(amb.skip(0) =~= amb);
        while i < rs.len()
            invariant
                0 <= i <= rs@.len(),
                amb == self.ambient(),
                rs@.len() == amb.len(),
                forall|k: int| 0 <= k < rs@.len() ==> (#[trigger] rs@[k])@ == amb[k],
                first_with_columns(amb, name@) == first_with_columns(amb.skip(i as int), name@),
            decreases rs@.len() - i,
        {
            let r = rs[i];
            assert(amb.skip(i as int)[0] == r@);
            assert(amb.skip(i as int).drop_first() =~= amb.skip(i + 1));
            if eq_ignore_ascii_case(r.name.as_str(), name) && r.columns.len() > 0 {
                let mut names: Vec<String> = Vec::new();
                let mut c: usize = 0;
                while c < r.columns.len()
                    invariant
                        0 <= c <= r.columns@.len(),
                        names@.len() == c,
                        forall|q: int| 0 <= q < c ==> (#[trigger] names@[q])@ == column_names(r@)[q],
                    decreases r.columns@.len() - c,
                {
                    names.push(r.columns[c].name.clone());
                    c += 1;
                }
                assert(string_views(names@) =~= column_names(r@));
                return Some(names);
            }
            i += 1;
        }
        assert(amb.skip(i as int).len() == 0);
        None
    }

    /// Whether `name` resolves as a table.
    pub fn resolve_table(&self, name: &str) -> (r: bool)
        requires
            self.wf(),
        ensures
            r == self.resolves_table(name@),
    {
        let lower = to_lowercase(name);
        let ghost fs = self.frames();
        let mut i: usize = 0;
        while i < self.stack.len()
            invariant
                0 <= i <= self.stack@.len(),
                self.wf(),
                fs == self.frames(),
                lower@ == unicode_lowercase(name@),
                forall|k: int| 0 <= k < i ==> lookup(#[trigger] fs[k], unicode_lowercase(name@)) is None,
            decreases self.stack@.len() - i,
        {
            proof {
                self.lemma_frame(i as int);
            }
            match self.stack[i].tables.find(lower.as_str()) {
                Some(_) => {
                    proof {
                        crate::table::lemma_last_index_of(fs[i as int], lower@);
                        assert(lookup(fs[i as int], unicode_lowercase(name@)) is Some);
                    }
                    return true;
                },
                None => {},
            }
            i += 1;
        }
        let rs = self.ambient_relations();
        let ghost amb = self.ambient();
        let mut j: usize = 0;
        while j < rs.len()
            invariant
                0 <= j <= rs@.len(),
                amb == self.ambient(),
                rs@.len() == amb.len(),
                forall|k: int| 0 <= k < rs@.len() ==> (#[trigger] rs@[k])@ == amb[k],
                forall|k: int| 0 <= k < j ==> !same_ignoring_case((#[trigger] amb[k]).name, name@),
            decreases rs@.len() - j,
        {
            if eq_ignore_ascii_case(rs[j].name.as_str(), name) {
                assert(same_ignoring_case(amb[j as int].name, name@));
                return true;
            }
            j += 1;
        }
        false
    }
    /// Resolve a column reference: qualified (`table.column`) against the
    /// table's columns in the innermost scope naming it; unqualified against
    /// every table in scope and the ambient schema.
    pub fn resolve_column(&self, table: Option<&str>, column: &str) -> (r: ColumnResolution)
        requires
            self.wf(),
        ensures
            r == self.resolution(opt_str_view(table), column@),
    {
        match table {
            Some(tbl) => {
                return self.resolve_qualified_column(tbl, column);
            },
            None => {},
        }
        let ghost fs = self.frames();
        let mut has_unknown = false;
        let mut i = self.stack.len();
        while i > 0
            invariant
                0 <= i <= fs.len(),
                table is None,
                self.wf(),
                fs == self.frames(),
                forall|a: int, k: int| i <= a < fs.len() && 0 <= k < fs[a].len() && (#[trigger] fs[a][k]).1 is Some
                    ==> !has_column(fs[a][k].1->0, column@),
                has_unknown == exists|a: int, k: int| i <= a < fs.len() && 0 <= k < fs[a].len() && (#[trigger] fs[a][k]).1 is None,
            decreases i,
        {
            i -= 1;
            proof {
                self.lemma_frame(i as int);
            }
            let tables = &self.stack[i].tables;
            let ghost es = fs[i as int];
            let n = tables.len();
            let mut k: usize = 0;
            while k < n
                invariant
                    0 <= k <= n,
                    n == es.len(),
                    table is None,
                    fs == self.frames(),
                    tables.wf(),
                    tables.entries() == es,
                    es == fs[i as int],
                    i < fs.len(),
                    forall|a: int, q: int| i < a < fs.len() && 0 <= q < fs[a].len() && (#[trigger] fs[a][q]).1 is Some
                        ==> !has_column(fs[a][q].1->0, column@),
                    forall|q: int| 0 <= q < k && (#[trigger] es[q]).1 is Some ==> !has_column(es[q].1->0, column@),
                    has_unknown == ((exists|a: int, q: int| i < a < fs.len() && 0 <= q < fs[a].len() && (#[trigger] fs[a][q]).1 is None)
                        || exists|q: int| 0 <= q < k && (#[trigger] es[q]).1 is None),
                decreases n - k,
            {
                let entry = tables.get(k);
                match &entry.columns {
                    Some(col_list) => {
                        if any_column_matches(col_list, column) {
                            proof {
                                assert(fs[i as int][k as int].1 is Some);
                                assert(has_column(fs[i as int][k as int].1->0, column@));
                                assert(known_in_frames(fs, column@));
                            }
                            return ColumnResolution::Found;
                        }
                    },
                    None => {
                        assert(es[k as int].1 is None);
                        has_unknown = true;
                    },
                }
                k += 1;
            }
            proof {
                assert forall|a: int, q: int| i <= a < fs.len() && 0 <= q < fs[a].len() && (#[trigger] fs[a][q]).1 is Some
                    implies !has_column(fs[a][q].1->0, column@) by {
                    if a == i {
                        assert(es[q] == fs[a][q]);
                    }
                }
                if has_unknown {
                    if exists|q: int| 0 <= q < n && (#[trigger] es[q]).1 is None {
                        let q = choose|q: int| 0 <= q < n && (#[trigger] es[q]).1 is None;
                        assert(fs[i as int][q].1 is None);
                    }
                } else {
                    assert forall|a: int, q: int| i <= a < fs.len() && 0 <= q < fs[a].len() implies !((#[trigger] fs[a][q]).1 is None) by {
                        if a == i {
                            assert(es[q] == fs[a][q]);
                        }
                    }
                }
            }
        }
        proof {
            assert(!known_in_frames(fs, column@)) by {
                if known_in_frames(fs, column@) {
                    let (a, q) = choose|a: int, q: int|
                        0 <= a < fs.len() && 0 <= q < fs[a].len() && (#[trigger] fs[a][q]).1 is Some && has_column(fs[a][q].1->0, column@);
                }
            }
        }
        let rs = self.ambient_relations();
        let ghost amb = self.ambient();
        let mut j: usize = 0;
        while j < rs.len()
            invariant
                0 <= j <= rs@.len(),
                amb == self.ambient(),
                rs@.len() == amb.len(),
                forall|k: int| 0 <= k < rs@.len() ==> (#[trigger] rs@[k])@ == amb[k],
                forall|k: int| 0 <= k < j ==> !has_column(column_names(#[trigger] amb[k]), column@),
                table is None,
                !known_in_frames(fs, column@),
                has_unknown == unknown_in_frames(fs),
                fs == self.frames(),
            decreases rs@.len() - j,
        {
            let r = rs[j];
            assert(r@ == amb[j as int]);
            let mut c: usize = 0;
            while c < r.columns.len()
                invariant
                    0 <= c <= r.columns@.len(),
                    0 <= j < amb.len(),
                    r@ == amb[j as int],
                    amb == self.ambient(),
                    table is None,
                    forall|q: int| 0 <= q < c ==> !same_ignoring_case(#[trigger] column_names(r@)[q], column@),
                decreases r.columns@.len() - c,
            {
                if eq_ignore_ascii_case(r.columns[c].name.as_str(), column) {
                    proof {
                        assert(same_ignoring_case(column_names(r@)[c as int], column@));
                        assert(has_column(column_names(amb[j as int]), column@));
                    }
                    return ColumnResolution::Found;
                }
                c += 1;
            }
            j += 1;
        }
        proof {
            assert(!known_in_ambient(amb, column@));
        }
        if has_unknown {
            return ColumnResolution::Found;
        }
        ColumnResolution::NotFound
    }

    fn resolve_qualified_column(&self, table: &str, column: &str) -> (r: ColumnResolution)
        requires
            self.wf(),
        ensures
            r == stack_qualified(self.frames(), self.frames().len() as int, unicode_lowercase(table@), column@),
    {
        let lower = to_lowercase(table);
        let ghost fs = self.frames();
        let mut i = self.stack.len();
        while i > 0
            invariant
                0 <= i <= fs.len(),
                self.wf(),
                fs == self.frames(),
                lower@ == unicode_lowercase(table@),
                stack_qualified(fs, fs.len() as int, lower@, column@) == stack_qualified(fs, i as int, lower@, column@),
            decreases i,
        {
            i -= 1;
            proof {
                self.lemma_frame(i as int);
            }
            let tables = &self.stack[i].tables;
            match tables.find(lower.as_str()) {
                Some(k) => {
                    let entry = tables.get(k);
                    proof {
                        assert(lookup(fs[i as int], lower@) == Some(fs[i as int][k as int].1));
                    }
                    return match &entry.columns {
                        Some(col_list) => {
                            if any_column_matches(col_list, column) {
                                ColumnResolution::Found
                            } else {
                                ColumnResolution::TableFoundColumnMissing
                            }
                        },
                        None => ColumnResolution::Found,
                    };
                },
                None => {},
            }
        }
        ColumnResolution::TableNotFound
    }

    /// Every table name in scope or in the ambient schema, lowercase, each
    /// once, sorted.
    pub fn all_table_names(&self) -> (r: Vec<String>)
        requires
            self.wf(),
        ensures
            is_sorted_set(string_views(r@), self.table_name_input()),
    {
        let ghost fs = self.frames();
        let mut out: Vec<String> = Vec::new();
        assert(string_views(out@) =~= Seq::<Seq<char>>::empty());
        assert(fs.take(0) =~= Seq::<ScopeEntries>::empty());
        let mut i: usize = 0;
        while i < self.stack.len()
            invariant
                0 <= i <= fs.len(),
                self.wf(),
                fs == self.frames(),
                is_sorted_set(string_views(out@), stack_keys(fs.take(i as int))),
            decreases fs.len() - i,
        {
            proof {
                self.lemma_frame(i as int);
                assert(fs.take(i + 1).drop_last() =~= fs.take(i as int));
                assert(fs.take(i + 1).last() == fs[i as int]);
            }
            let tables = &self.stack[i].tables;
            let ghost es = fs[i as int];
            let ghost keys = es.map_values(|e: (Seq<char>, Option<Seq<Seq<char>>>)| e.0);
            let ghost done = stack_keys(fs.take(i as int));
            let n = tables.len();
            let mut k: usize = 0;
            assert(done + keys.take(0) =~= done);
            while k < n
                invariant
                    0 <= k <= n,
                    n == es.len(),
                    tables.wf(),
                    tables.entries() == es,
                    keys == es.map_values(|e: (Seq<char>, Option<Seq<Seq<char>>>)| e.0),
                    is_sorted_set(string_views(out@), done + keys.take(k as int)),
                decreases n - k,
            {
                let key = tables.key(k);
                add_to_sorted_set(&mut out, key.as_str(), Ghost(done + keys.take(k as int)));
                assert(done + keys.take(k + 1) =~= (done + keys.take(k as int)).push(key@));
                k += 1;
            }
            assert(keys.take(n as int) =~= keys);
            i += 1;
        }
        assert(fs.take(i as int) =~= fs);
        let rs = self.ambient_relations();
        let ghost amb = self.ambient();
        let ghost base = stack_keys(fs);
        let ghost lows = amb.map_values(|r: RelationDefView| unicode_lowercase(r.name));
        let mut j: usize = 0;
        assert(base + lows.take(0) =~= base);
        while j < rs.len()
            invariant
                0 <= j <= rs@.len(),
                amb == self.ambient(),
                rs@.len() == amb.len(),
                forall|k: int| 0 <= k < rs@.len() ==> (#[trigger] rs@[k])@ == amb[k],
                lows == amb.map_values(|r: RelationDefView| unicode_lowercase(r.name)),
                is_sorted_set(string_views(out@), base + lows.take(j as int)),
            decreases rs@.len() - j,
        {
            let lower = to_lowercase(rs[j].name.as_str());
            add_to_sorted_set(&mut out, lower.as_str(), Ghost(base + lows.take(j as int)));
            assert(base + lows.take(j + 1) =~= (base + lows.take(j as int)).push(lower@));
            j += 1;
        }
        assert(lows.take(j as int) =~= lows);
        out
    }

    /// Every lowercase column name visible in scope or in the ambient schema
    /// (only those of tables named `table`, ignoring case, when it is
    /// given), each once, sorted.
    pub fn all_column_names(&self, table: Option<&str>) -> (r: Vec<String>)
        requires
            self.wf(),
        ensures
            is_sorted_set(string_views(r@), self.column_name_input(opt_str_view(table))),
    {
        let ghost fs = self.frames();
        let ghost t = opt_str_view(table);
        let mut out: Vec<String> = Vec::new();
        assert(string_views(out@) =~= Seq::<Seq<char>>::empty());
        assert(fs.take(0) =~= Seq::<ScopeEntries>::empty());
        let mut i: usize = 0;
        while i < self.stack.len()
            invariant
                0 <= i <= fs.len(),
                self.wf(),
                fs == self.frames(),
                t == opt_str_view(table),
                is_sorted_set(string_views(out@), stack_columns(fs.take(i as int), t)),
            decreases fs.len() - i,
        {
            proof {
                self.lemma_frame(i as int);
                assert(fs.take(i + 1).drop_last() =~= fs.take(i as int));
                assert(fs.take(i + 1).last() == fs[i as int]);
            }
            let tables = &self.stack[i].tables;
            let ghost es = fs[i as int];
            let ghost done = stack_columns(fs.take(i as int), t);
            let n = tables.len();
            let mut k: usize = 0;
            assert(done + entry_columns(es.take(0), t) =~= done);
            while k < n
                invariant
                    0 <= k <= n,
                    n == es.len(),
                    tables.wf(),
                    tables.entries() == es,
                    t == opt_str_view(table),
                    is_sorted_set(string_views(out@), done + entry_columns(es.take(k as int), t)),
                decreases n - k,
            {
                let key = tables.key(k);
                let entry = tables.get(k);
                let ghost acc = done + entry_columns(es.take(k as int), t);
                proof {
                    assert(es.take(k + 1).drop_last() =~= es.take(k as int));
                    assert(es.take(k + 1).last() == es[k as int]);
                }
                let passes = match table {
                    Some(tbl) => eq_ignore_ascii_case(key.as_str(), tbl),
                    None => true,
                };
                match &entry.columns {
                    Some(cols) => {
                        if passes {
                            let ghost own = string_views(cols@).map_values(|c: Seq<char>| unicode_lowercase(c));
                            let mut c: usize = 0;
                            assert(acc + own.take(0) =~= acc);
                            while c < cols.len()
                                invariant
                                    0 <= c <= cols@.len(),
                                    own == string_views(cols@).map_values(|c: Seq<char>| unicode_lowercase(c)),
                                    is_sorted_set(string_views(out@), acc + own.take(c as int)),
                                decreases cols@.len() - c,
                            {
                                let lower = to_lowercase(cols[c].as_str());
                                add_to_sorted_set(&mut out, lower.as_str(), Ghost(acc + own.take(c as int)));
                                assert(acc + own.take(c + 1) =~= (acc + own.take(c as int)).push(lower@));
                                c += 1;
                            }
                            assert(own.take(c as int) =~= own);
                            assert(acc + own =~= done + entry_columns(es.take(k + 1), t));
                        } else {
                            assert(acc =~= done + entry_columns(es.take(k + 1), t));
                        }
                    },
                    None => {
                        assert(acc =~= done + entry_columns(es.take(k + 1), t));
                    },
                }
                k += 1;
            }
            assert(es.take(n as int) =~= es);
            i += 1;
        }
        assert(fs.take(i as int) =~= fs);
        let rs = self.ambient_relations();
        let ghost amb = self.ambient();
        let ghost base = stack_columns(fs, t);
        let mut j: usize = 0;
        assert(base + ambient_columns(amb.take(0), t) =~= base);
        while j < rs.len()
            invariant
                0 <= j <= rs@.len(),
                amb == self.ambient(),
                t == opt_str_view(table),
                rs@.len() == amb.len(),
                forall|k: int| 0 <= k < rs@.len() ==> (#[trigger] rs@[k])@ == amb[k],
                is_sorted_set(string_views(out@), base + ambient_columns(amb.take(j as int), t)),
            decreases rs@.len() - j,
        {
            let r = rs[j];
            let ghost acc = base + ambient_columns(amb.take(j as int), t);
            proof {
                assert(amb.take(j + 1).drop_last() =~= amb.take(j as int));
                assert(amb.take(j + 1).last() == r@);
            }
            let passes = match table {
                Some(tbl) => eq_ignore_ascii_case(r.name.as_str(), tbl),
                None => true,
            };
            if passes {
                let ghost own = column_names(r@).map_values(|c: Seq<char>| unicode_lowercase(c));
                let mut c: usize = 0;
                assert(acc + own.take(0) =~= acc);
                while c < r.columns.len()
                    invariant
                        0 <= c <= r.columns@.len(),
                        own == column_names(r@).map_values(|c: Seq<char>| unicode_lowercase(c)),
                        is_sorted_set(string_views(out@), acc + own.take(c as int)),
                    decreases r.columns@.len() - c,
                {
                    let lower = to_lowercase(r.columns[c].name.as_str());
                    add_to_sorted_set(&mut out, lower.as_str(), Ghost(acc + own.take(c as int)));
                    assert(acc + own.take(c + 1) =~= (acc + own.take(c as int)).push(lower@));
                    c += 1;
                }
                assert(own.take(c as int) =~= own);
                assert(acc + own =~= base + ambient_columns(amb.take(j + 1), t));
            } else {
                assert(acc =~= base + ambient_columns(amb.take(j + 1), t));
            }
            j += 1;
        }
        assert(amb.take(j as int) =~= amb);
        out
    }
}


// ── Checks ──────────────────────────────────────────────────────────────────

/// The suggestion text carried by a help entry.
pub open spec fn suggestion_of(h: Option<Help>) -> Option<Seq<char>> {
    match h {
        Some(Help::Suggestion(s)) => Some(s@),
        None => None,
    }
}

/// `help` is the suggestion for `name` among the distinct, sorted names of
/// `input`.
pub open spec fn suggested(help: Option<Help>, name: Seq<char>, input: Seq<Seq<char>>, threshold: nat) -> bool {
    exists|cands: Seq<Seq<char>>| is_sorted_set(cands, input) && suggestion_for(name, cands, threshold, suggestion_of(help))
}

/// The diagnostic covers `offset..offset + length` at the configured
/// severity.
pub open spec fn placed(d: Diagnostic, offset: usize, length: usize, config: ValidationConfig) -> bool {
    &&& d.start_offset == offset
    &&& d.end_offset == offset + length
    &&& d.severity == config_severity(config)
}

/// The message reports the unknown table `name`.
pub open spec fn is_unknown_table(m: DiagnosticMessage, name: Seq<char>) -> bool {
    match m {
        DiagnosticMessage::UnknownTable { name: n } => n@ == name,
        _ => false,
    }
}

/// The message reports the unknown column `column`, qualified by `table`.
pub open spec fn is_unknown_column(m: DiagnosticMessage, column: Seq<char>, table: Option<Seq<char>>) -> bool {
    match m {
        DiagnosticMessage::UnknownColumn { column: c, table: t } => c@ == column && crate::relations::opt_string_view(t) == table,
        _ => false,
    }
}

/// The message reports the unknown function `name`.
pub open spec fn is_unknown_function(m: DiagnosticMessage, name: Seq<char>) -> bool {
    match m {
        DiagnosticMessage::UnknownFunction { name: n } => n@ == name,
        _ => false,
    }
}

/// The message reports a call of `name` with `got` arguments where
/// `expected` are accepted.
pub open spec fn is_wrong_arity(m: DiagnosticMessage, name: Seq<char>, expected: Seq<usize>, got: usize) -> bool {
    match m {
        DiagnosticMessage::FunctionArity { name: n, expected: e, got: g } => n@ == name && e@ == expected && g == got,
        _ => false,
    }
}

/// A diagnostic for `offset..offset + length` at the configured severity.
pub fn make_diagnostic(offset: usize, length: usize, message: DiagnosticMessage, help: Option<Help>, config: &ValidationConfig) -> (r: Diagnostic)
    requires
        offset + length <= usize::MAX,
    ensures
        placed(r, offset, length, *config),
        r.message == message,
        r.help == help,
{
    Diagnostic { start_offset: offset, end_offset: offset + length, message, severity: config.severity(), help }
}

/// The help entry for a suggestion, if any.
fn help_for(s: Option<String>) -> (r: Option<Help>)
    ensures
        suggestion_of(r) == match s {
            Some(v) => Some(v@),
            None => None::<Seq<char>>,
        },
{
    match s {
        Some(v) => Some(Help::Suggestion(v)),
        None => None,
    }
}

/// Check a table reference: `None` when the name is empty or resolves,
/// otherwise an unknown-table diagnostic with the closest table name as a
/// suggestion.
pub fn check_table_ref(name: &str, offset: usize, length: usize, scope: &ScopeStack, config: &ValidationConfig) -> (r: Option<Diagnostic>)
    requires
        scope.wf(),
        offset + length <= usize::MAX,
    ensures
        (name@.len() == 0 || scope.resolves_table(name@)) ==> r is None,
        !(name@.len() == 0 || scope.resolves_table(name@)) ==> r is Some && placed(r->0, offset, length, *config)
            && is_unknown_table(r->0.message, name@) && suggested(
            r->0.help,
            name@,
            scope.table_name_input(),
            config.suggestion_threshold as nat,
        ),
{
    if name.is_empty() || scope.resolve_table(name) {
        proof {
            if name.is_empty() {
                assert(name@.len() == 0);
            }
        }
        return None;
    }
    assert(name@.len() != 0);
    let candidates = scope.all_table_names();
    let suggestion = best_suggestion(name, candidates.as_slice(), config.suggestion_threshold);
    let help = help_for(suggestion);
    Some(make_diagnostic(offset, length, DiagnosticMessage::UnknownTable { name: name.to_owned() }, help, config))
}

/// Check a column reference: `None` when the column is empty, resolves, or
/// its qualifying table is unknown (reported separately); otherwise an
/// unknown-column diagnostic with the closest column name as a suggestion.
pub fn check_column_ref(
    table: Option<&str>,
    column: &str,
    offset: usize,
    length: usize,
    scope: &ScopeStack,
    config: &ValidationConfig,
) -> (r: Option<Diagnostic>)
    requires
        scope.wf(),
        offset + length <= usize::MAX,
    ensures
        column@.len() == 0 ==> r is None,
        column@.len() != 0 ==> match scope.resolution(opt_str_view(table), column@) {
            ColumnResolution::Found | ColumnResolution::TableNotFound => r is None,
            ColumnResolution::TableFoundColumnMissing => table is Some && r is Some && placed(r->0, offset, length, *config)
                && is_unknown_column(r->0.message, column@, opt_str_view(table)) && suggested(
                r->0.help,
                column@,
                scope.column_name_input(opt_str_view(table)),
                config.suggestion_threshold as nat,
            ),
            ColumnResolution::NotFound => r is Some && placed(r->0, offset, length, *config) && is_unknown_column(
                r->0.message,
                column@,
                None,
            ) && suggested(r->0.help, column@, scope.column_name_input(None), config.suggestion_threshold as nat),
        },
{
    if column.is_empty() {
        assert(column@.len() == 0);
        return None;
    }
    assert(column@.len() != 0);
    match scope.resolve_column(table, column) {
        ColumnResolution::Found => None,
        ColumnResolution::TableNotFound => None,
        ColumnResolution::TableFoundColumnMissing => {
            let tbl = match table {
                Some(t) => t,
                None => {
                    proof {
                        assert(stack_unqualified(scope.frames(), scope.ambient(), column@) != ColumnResolution::TableFoundColumnMissing);
                    }
                    return None;
                },
            };
            let candidates = scope.all_column_names(Some(tbl));
            let suggestion = best_suggestion(column, candidates.as_slice(), config.suggestion_threshold);
            let help = help_for(suggestion);
            Some(
                make_diagnostic(
                    offset,
                    length,
                    DiagnosticMessage::UnknownColumn { column: column.to_owned(), table: Some(tbl.to_owned()) },
                    help,
                    config,
                ),
            )
        },
        ColumnResolution::NotFound => {
            let candidates = scope.all_column_names(None);
            let suggestion = best_suggestion(column, candidates.as_slice(), config.suggestion_threshold);
            let help = help_for(suggestion);
            Some(
                make_diagnostic(
                    offset,
                    length,
                    DiagnosticMessage::UnknownColumn { column: column.to_owned(), table: None },
                    help,
                    config,
                ),
            )
        },
    }
}

/// Some definition is named `name` (ignoring case).
pub open spec fn defines(fs: Seq<FunctionDefView>, name: Seq<char>) -> bool {
    exists|i: int| 0 <= i < fs.len() && same_ignoring_case(#[trigger] fs[i].name, name)
}

/// Some definition named `name` accepts `n` arguments (or is variadic).
pub open spec fn defines_arity(fs: Seq<FunctionDefView>, name: Seq<char>, n: usize) -> bool {
    exists|i: int| 0 <= i < fs.len() && same_ignoring_case(#[trigger] fs[i].name, name) && (fs[i].args is None || fs[i].args == Some(n))
}

/// The fixed arities of the definitions named `name`, in order.
pub open spec fn defined_arities(fs: Seq<FunctionDefView>, name: Seq<char>) -> Seq<usize>
    decreases fs.len(),
{
    if fs.len() == 0 {
        Seq::empty()
    } else {
        let f = fs.last();
        defined_arities(fs.drop_last(), name) + if same_ignoring_case(f.name, name) && f.args is Some {
            seq![f.args->0]
        } else {
            Seq::empty()
        }
    }
}

/// Check a function call: `None` when the name is empty or some definition
/// accepts the argument count; an unknown-function diagnostic (with the
/// closest function name as a suggestion) when no definition has the name;
/// otherwise a wrong-arity diagnostic listing the fixed arities defined.
pub fn check_function_call(
    name: &str,
    arg_count: usize,
    offset: usize,
    length: usize,
    functions: &[FunctionDef],
    config: &ValidationConfig,
) -> (r: Option<Diagnostic>)
    requires
        offset + length <= usize::MAX,
    ensures
        ({
            let fs = function_views(functions@);
            &&& r is None <==> (name@.len() == 0 || defines_arity(fs, name@, arg_count))
            &&& name@.len() == 0 ==> r is None
            &&& name@.len() != 0 && !defines(fs, name@) ==> r is Some && placed(r->0, offset, length, *config)
                && is_unknown_function(r->0.message, name@) && suggested(
                r->0.help,
                name@,
                fs.map_values(|f: FunctionDefView| f.name),
                config.suggestion_threshold as nat,
            )
            &&& name@.len() != 0 && defines(fs, name@) && defines_arity(fs, name@, arg_count) ==> r is None
            &&& name@.len() != 0 && defines(fs, name@) && !defines_arity(fs, name@, arg_count) ==> r is Some
                && placed(r->0, offset, length, *config) && r->0.help is None && is_wrong_arity(
                r->0.message,
                name@,
                defined_arities(fs, name@),
                arg_count,
            )
        }),
{
    let ghost fs = function_views(functions@);
    if name.is_empty() {
        assert(name@.len() == 0);
        return None;
    }
    assert(name@.len() != 0);
    let mut found = false;
    let mut arity_ok = false;
    let mut expected: Vec<usize> = Vec::new();
    let mut i: usize = 0;
    assert(defined_arities(fs.take(0), name@) =~= Seq::<usize>::empty());
    while i < functions.len()
        invariant
            0 <= i <= functions@.len(),
            fs == function_views(functions@),
            found == exists|k: int| 0 <= k < i && same_ignoring_case(#[trigger] fs[k].name, name@),
            arity_ok == exists|k: int|
                0 <= k < i && same_ignoring_case(#[trigger] fs[k].name, name@) && (fs[k].args is None || fs[k].args == Some(arg_count)),
            expected@ == defined_arities(fs.take(i as int), name@),
        decreases functions@.len() - i,
    {
        let f = &functions[i];
        assert(fs[i as int] == f@);
        proof {
            assert(fs.take(i + 1).drop_last() =~= fs.take(i as int));
            assert(fs.take(i + 1).last() == f@);
        }
        if eq_ignore_ascii_case(f.name.as_str(), name) {
            assert(same_ignoring_case(fs[i as int].name, name@));
            found = true;
            match f.args {
                None => {
                    arity_ok = true;
                },
                Some(n) => {
                    if n == arg_count {
                        arity_ok = true;
                    }
                    expected.push(n);
                },
            }
        }
        assert(expected@ =~= defined_arities(fs.take(i + 1), name@));
        i += 1;
    }
    assert(fs.take(i as int) =~= fs);
    if !found {
        let ghost all = fs.map_values(|f: FunctionDefView| f.name);
        let mut names: Vec<String> = Vec::new();
        let mut j: usize = 0;
        assert(string_views(names@) =~= Seq::<Seq<char>>::empty());
        assert(all.take(0) =~= Seq::<Seq<char>>::empty());
        while j < functions.len()
            invariant
                0 <= j <= functions@.len(),
                fs == function_views(functions@),
                all == fs.map_values(|f: FunctionDefView| f.name),
                is_sorted_set(string_views(names@), all.take(j as int)),
            decreases functions@.len() - j,
        {
            add_to_sorted_set(&mut names, functions[j].name.as_str(), Ghost(all.take(j as int)));
            assert(all.take(j + 1) =~= all.take(j as int).push(functions@[j as int].name@));
            j += 1;
        }
        assert(all.take(j as int) =~= all);
        let suggestion = best_suggestion(name, names.as_slice(), config.suggestion_threshold);
        let help = help_for(suggestion);
        return Some(make_diagnostic(offset, length, DiagnosticMessage::UnknownFunction { name: name.to_owned() }, help, config));
    }
    if arity_ok {
        return None;
    }
    Some(
        make_diagnostic(
            offset,
            length,
            DiagnosticMessage::FunctionArity { name: name.to_owned(), expected, got: arg_count },
            None,
            config,
        ),
    )
}


// ── Schema descriptions ─────────────────────────────────────────────────────

/// The relation a declared table or view stands for: nullable columns with
/// no declared type, not part of a primary key.
pub open spec fn declared_relation(t: crate::schema::TableInputView, kind: RelationKind) -> RelationDefView {
    RelationDefView {
        name: t.name,
        columns: t.columns.map_values(
            |c: Seq<char>|
                crate::relations::ColumnDefView { name: c, declared_type: None, is_primary_key: false, is_nullable: true },
        ),
        kind,
    }
}

/// A relation for a declared table or view.
fn declared_relation_def(t: &crate::schema::TableInput, kind: RelationKind) -> (r: RelationDef)
    ensures
        r@ == declared_relation(t@, kind),
{
    let mut columns: Vec<ColumnDef> = Vec::new();
    let mut i: usize = 0;
    while i < t.columns.len()
        invariant
            0 <= i <= t.columns@.len(),
            columns@.len() == i,
            forall|k: int| 0 <= k < i ==> (#[trigger] columns@[k])@ == declared_relation(t@, kind).columns[k],
        decreases t.columns@.len() - i,
    {
        columns.push(ColumnDef { name: t.columns[i].clone(), declared_type: None, is_primary_key: false, is_nullable: true });
        i += 1;
    }
    let r = RelationDef { name: t.name.clone(), columns, kind };
    assert(r@.columns =~= declared_relation(t@, kind).columns);
    r
}

impl SessionContext {
    /// A session context holding a declared schema: its tables, then its
    /// views, and its functions.
    pub fn from_schema(schema: &crate::schema::SchemaInput) -> (r: Self)
        ensures
            relation_views(r.relations@) == crate::schema::table_views(schema.tables@).map_values(
                |t: crate::schema::TableInputView| declared_relation(t, RelationKind::Table),
            ) + crate::schema::table_views(schema.views@).map_values(
                |t: crate::schema::TableInputView| declared_relation(t, RelationKind::View),
            ),
            function_views(r.functions@) == crate::schema::function_input_views(schema.functions@).map_values(
                |f: crate::schema::FunctionInputView| FunctionDefView { name: f.name, args: f.args, description: None },
            ),
    {
        let ghost want = crate::schema::table_views(schema.tables@).map_values(
            |t: crate::schema::TableInputView| declared_relation(t, RelationKind::Table),
        ) + crate::schema::table_views(schema.views@).map_values(
            |t: crate::schema::TableInputView| declared_relation(t, RelationKind::View),
        );
        let ghost nt = schema.tables@.len();
        let mut relations: Vec<RelationDef> = Vec::new();
        let mut i: usize = 0;
        while i < schema.tables.len()
            invariant
                0 <= i <= schema.tables@.len(),
                nt == schema.tables@.len(),
                want == crate::schema::table_views(schema.tables@).map_values(
                    |t: crate::schema::TableInputView| declared_relation(t, RelationKind::Table),
                ) + crate::schema::table_views(schema.views@).map_values(
                    |t: crate::schema::TableInputView| declared_relation(t, RelationKind::View),
                ),
                relations@.len() == i,
                forall|k: int| 0 <= k < i ==> (#[trigger] relations@[k])@ == want[k],
            decreases schema.tables@.len() - i,
        {
            relations.push(declared_relation_def(&schema.tables[i], RelationKind::Table));
            i += 1;
        }
        let mut j: usize = 0;
        while j < schema.views.len()
            invariant
                0 <= j <= schema.views@.len(),
                nt == schema.tables@.len(),
                want == crate::schema::table_views(schema.tables@).map_values(
                    |t: crate::schema::TableInputView| declared_relation(t, RelationKind::Table),
                ) + crate::schema::table_views(schema.views@).map_values(
                    |t: crate::schema::TableInputView| declared_relation(t, RelationKind::View),
                ),
                relations@.len() == nt + j,
                forall|k: int| 0 <= k < nt + j ==> (#[trigger] relations@[k])@ == want[k],
            decreases schema.views@.len() - j,
        {
            relations.push(declared_relation_def(&schema.views[j], RelationKind::View));
            j += 1;
        }
        assert(relation_views(relations@) =~= want);
        let mut functions: Vec<FunctionDef> = Vec::new();
        let mut k: usize = 0;
        while k < schema.functions.len()
            invariant
                0 <= k <= schema.functions@.len(),
                functions@.len() == k,
                forall|q: int| 0 <= q < k ==> (#[trigger] functions@[q])@ == (FunctionDefView {
                    name: schema.functions@[q].name@,
                    args: schema.functions@[q].args,
                    description: None,
                }),
            decreases schema.functions@.len() - k,
        {
            let f = &schema.functions[k];
            functions.push(FunctionDef { name: f.name.clone(), args: f.args, description: None });
            k += 1;
        }
        assert(function_views(functions@) =~= crate::schema::function_input_views(schema.functions@).map_values(
            |f: crate::schema::FunctionInputView| FunctionDefView { name: f.name, args: f.args, description: None },
        ));
        SessionContext { relations, functions }
    }
}

} // verus!
