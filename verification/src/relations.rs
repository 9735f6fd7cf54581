//! A borrowed view over session and document relation definitions, used for
//! name resolution, column lookup and "did you mean?" candidates.

use vstd::prelude::*;
use vstd::std_specs::iter::IteratorSpec;

use crate::text::{
    add_to_key_summary, ascii_lowercase, eq_ignore_ascii_case, is_key_summary, lemma_key_summary_empty, lower_chars,
    same_ignoring_case, str_equal, string_views,
};

verus! {

/// Whether a [`RelationDef`] represents a base table or a view.
#[derive(Debug, Clone, Copy, PartialEq, Eq, Structural)]
pub enum RelationKind {
    /// Base table relation.
    Table,
    /// View relation.
    View,
}

/// A column definition as plain values.
pub struct ColumnDefView {
    /// Column name.
    pub name: Seq<char>,
    /// Declared type name, if any.
    pub declared_type: Option<Seq<char>>,
    /// Whether the column participates in a primary key.
    pub is_primary_key: bool,
    /// Whether the column accepts NULL values.
    pub is_nullable: bool,
}

/// A relation definition as plain values.
pub struct RelationDefView {
    /// Relation name.
    pub name: Seq<char>,
    /// Its columns.
    pub columns: Seq<ColumnDefView>,
    /// Table or view.
    pub kind: RelationKind,
}

/// Column definition used by semantic relation catalogs.
#[derive(Clone)]
pub struct ColumnDef {
    /// Column name.
    pub name: String,
    /// Optional declared type name. `SQLite` is permissive here.
    pub declared_type: Option<String>,
    /// Whether the column participates in a primary key.
    pub is_primary_key: bool,
    /// Whether the column accepts NULL values.
    pub is_nullable: bool,
}

/// The view of an optional string.
pub open spec fn opt_string_view(s: Option<String>) -> Option<Seq<char>> {
    match s {
        Some(v) => Some(v@),
        None => None,
    }
}

impl View for ColumnDef {
    type V = ColumnDefView;

    open spec fn view(&self) -> ColumnDefView {
        ColumnDefView {
            name: self.name@,
            declared_type: opt_string_view(self.declared_type),
            is_primary_key: self.is_primary_key,
            is_nullable: self.is_nullable,
        }
    }
}

/// A table or view in the schema.
#[derive(Clone)]
pub struct RelationDef {
    /// Relation name.
    pub name: String,
    /// Projected column definitions for the relation.
    pub columns: Vec<ColumnDef>,
    /// Relation kind (table or view).
    pub kind: RelationKind,
}

impl View for RelationDef {
    type V = RelationDefView;

    open spec fn view(&self) -> RelationDefView {
        RelationDefView { name: self.name@, columns: self.columns@.map_values(|c: ColumnDef| c@), kind: self.kind }
    }
}

/// The views of a list of relation definitions.
pub open spec fn relation_views(rs: Seq<RelationDef>) -> Seq<RelationDefView> {
    rs.map_values(|r: RelationDef| r@)
}

/// The first relation in `rs` named `name`, ignoring ASCII case.
pub open spec fn find_named(rs: Seq<RelationDefView>, name: Seq<char>) -> Option<RelationDefView>
    decreases rs.len(),
{
    if rs.len() == 0 {
        None
    } else if same_ignoring_case(rs[0].name, name) {
        Some(rs[0])
    } else {
        find_named(rs.drop_first(), name)
    }
}

/// The distinct elements of `s`, each where it first occurs.
pub open spec fn distinct_in_order(s: Seq<Seq<char>>) -> Seq<Seq<char>>
    decreases s.len(),
{
    if s.len() == 0 {
        Seq::empty()
    } else {
        let d = distinct_in_order(s.drop_last());
        if d.contains(s.last()) {
            d
        } else {
            d.push(s.last())
        }
    }
}

/// The lowercase relation names, in order.
pub open spec fn lowercase_names(rs: Seq<RelationDefView>) -> Seq<Seq<char>> {
    rs.map_values(|r: RelationDefView| lower_chars(r.name))
}

/// The lowercase column names of the relations passing the table filter,
/// in order.
pub open spec fn relation_column_names(rs: Seq<RelationDefView>, table: Option<Seq<char>>) -> Seq<Seq<char>>
    decreases rs.len(),
{
    if rs.len() == 0 {
        Seq::empty()
    } else {
        let r = rs.last();
        relation_column_names(rs.drop_last(), table) + if table matches Some(t) ==> same_ignoring_case(r.name, t) {
            r.columns.map_values(|c: ColumnDefView| lower_chars(c.name))
        } else {
            Seq::empty()
        }
    }
}

/// The first match in `a + b` is the first in `a`, or else the first in `b`.
pub proof fn lemma_find_named_append(a: Seq<RelationDefView>, b: Seq<RelationDefView>, name: Seq<char>)
    ensures
        find_named(a + b, name) == match find_named(a, name) {
            Some(r) => Some(r),
            None => find_named(b, name),
        },
    decreases a.len(),
{
    if a.len() == 0 {
        assert(a + b =~= b);
    } else {
        assert((a + b)[0] == a[0]);
        assert((a + b).drop_first() =~= a.drop_first() + b);
        lemma_find_named_append(a.drop_first(), b, name);
    }
}

/// A non-owning view over session and document relation slices.
///
/// Document relations take priority over session relations for name
/// resolution.
#[derive(Clone, Copy)]
pub struct RelationCatalog<'a> {
    /// Relations known to the session.
    pub session: &'a [RelationDef],
    /// Relations defined in the current document.
    pub document: &'a [RelationDef],
}

/// The position of the first relation in `rs` named `name`.
fn find_in<'a>(rs: &'a [RelationDef], name: &str) -> (r: Option<&'a RelationDef>)
    ensures
        match find_named(relation_views(rs@), name@) {
            None => r is None,
            Some(v) => r matches Some(x) && x@ == v,
        },
{
    let ghost vs = relation_views(rs@);
    let mut i: usize = 0;
    assert(vs.skip(0) =~= vs);
    while i < rs.len()
        invariant
            0 <= i <= rs@.len(),
            vs == relation_views(rs@),
            find_named(vs, name@) == find_named(vs.skip(i as int), name@),
        decreases rs@.len() - i,
    {
        assert(vs.skip(i as int)[0] == rs@[i as int]@);
        assert(vs.skip(i as int).drop_first() =~= vs.skip(i + 1));
        if eq_ignore_ascii_case(rs[i].name.as_str(), name) {
            return Some(&rs[i]);
        }
        i += 1;
    }
    assert(vs.skip(i as int).len() == 0);
    None
}

impl<'a> RelationCatalog<'a> {
    /// All relations in resolution order: document first, then session.
    pub open spec fn all_views(&self) -> Seq<RelationDefView> {
        relation_views(self.document@) + relation_views(self.session@)
    }

    /// Construct from two slices. Document relations take priority.
    pub fn new(session: &'a [RelationDef], document: &'a [RelationDef]) -> (r: Self)
        ensures
            r.session@ == session@,
            r.document@ == document@,
    {
        RelationCatalog { session, document }
    }

    /// Case-insensitive lookup, document first.
    pub fn lookup(&self, name: &str) -> (r: Option<&'a RelationDef>)
        ensures
            match find_named(self.all_views(), name@) {
                None => r is None,
                Some(v) => r matches Some(x) && x@ == v,
            },
    {
        proof {
            lemma_find_named_append(relation_views(self.document@), relation_views(self.session@), name@);
        }
        match find_in(self.document, name) {
            Some(r) => Some(r),
            None => find_in(self.session, name),
        }
    }

    /// Existence check (case-insensitive).
    pub fn resolve(&self, name: &str) -> (r: bool)
        ensures
            r == find_named(self.all_views(), name@) is Some,
    {
        self.lookup(name).is_some()
    }

    /// The columns of the relation named `name`.
    pub fn columns_for(&self, name: &str) -> (r: Option<&'a [ColumnDef]>)
        ensures
            match find_named(self.all_views(), name@) {
                None => r is None,
                Some(v) => r matches Some(cs) && cs@.map_values(|c: ColumnDef| c@) == v.columns,
            },
    {
        match self.lookup(name) {
            Some(r) => Some(r.columns.as_slice()),
            None => None,
        }
    }

    /// All relation names in lowercase, each once, in resolution order.
    pub fn all_names(&self) -> (r: Vec<String>)
        ensures
            string_views(r@) == distinct_in_order(lowercase_names(self.all_views())),
    {
        let all = self.iter_vec();
        let ghost vs = self.all_views();
        let mut names: Vec<String> = Vec::new();
        let mut i: usize = 0;
        assert(string_views(names@) =~= distinct_in_order(lowercase_names(vs.take(0))));
        while i < all.len()
            invariant
                0 <= i <= all@.len(),
                vs == self.all_views(),
                all@.len() == vs.len(),
                forall|k: int| 0 <= k < all@.len() ==> (#[trigger] all@[k])@ == vs[k],
                string_views(names@) == distinct_in_order(lowercase_names(vs.take(i as int))),
            decreases all@.len() - i,
        {
            let lower = ascii_lowercase(all[i].name.as_str());
            let ghost before = string_views(names@);
            proof {
                assert(lowercase_names(vs.take(i + 1)).drop_last() =~= lowercase_names(vs.take(i as int)));
                assert(lowercase_names(vs.take(i + 1)).last() == lower@);
            }
            if !contains_str(&names, lower.as_str()) {
                names.push(lower);
                assert(string_views(names@) =~= before.push(lower@));
            }
            i += 1;
        }
        assert(vs.take(i as int) =~= vs);
        names
    }

    /// All distinct lowercase column names (of the relations named `table`,
    /// ignoring case, when it is given), sorted.
    pub fn all_column_names(&self, table: Option<&str>) -> (r: Vec<String>)
        ensures
            is_key_summary(string_views(r@), relation_column_names(self.all_views(), crate::catalog::opt_str_view(table))),
    {
        let all = self.iter_vec();
        let ghost vs = self.all_views();
        let ghost t = crate::catalog::opt_str_view(table);
        let mut out: Vec<String> = Vec::new();
        let mut i: usize = 0;
        proof {
            lemma_key_summary_empty();
            assert(string_views(out@) =~= Seq::<Seq<char>>::empty());
            assert(vs.take(0).len() == 0);
        }
        while i < all.len()
            invariant
                0 <= i <= all@.len(),
                vs == self.all_views(),
                t == crate::catalog::opt_str_view(table),
                all@.len() == vs.len(),
                forall|k: int| 0 <= k < all@.len() ==> (#[trigger] all@[k])@ == vs[k],
                is_key_summary(string_views(out@), relation_column_names(vs.take(i as int), t)),
            decreases all@.len() - i,
        {
            let r = all[i];
            let ghost acc = relation_column_names(vs.take(i as int), t);
            proof {
                assert(vs.take(i + 1).drop_last() =~= vs.take(i as int));
                assert(vs.take(i + 1).last() == r@);
            }
            let passes = match table {
                Some(tn) => eq_ignore_ascii_case(r.name.as_str(), tn),
                None => true,
            };
            if passes {
                let ghost own = r@.columns.map_values(|c: ColumnDefView| lower_chars(c.name));
                let mut c: usize = 0;
                assert(acc + own.take(0) =~= acc);
                while c < r.columns.len()
                    invariant
                        0 <= c <= r.columns@.len(),
                        own == r@.columns.map_values(|c: ColumnDefView| lower_chars(c.name)),
                        is_key_summary(string_views(out@), acc + own.take(c as int)),
                    decreases r.columns@.len() - c,
                {
                    let lower = ascii_lowercase(r.columns[c].name.as_str());
                    add_to_key_summary(&mut out, lower.as_str(), Ghost(acc + own.take(c as int)));
                    proof {
                        assert(acc + own.take(c + 1) =~= (acc + own.take(c as int)).push(lower@));
                    }
                    c += 1;
                }
                assert(own.take(c as int) =~= own);
                assert(acc + own =~= relation_column_names(vs.take(i + 1), t));
            } else {
                assert(acc =~= relation_column_names(vs.take(i + 1), t));
            }
            i += 1;
        }
        assert(vs.take(i as int) =~= vs);
        out
    }

    /// All relations, document first, then session.
    pub fn iter(&self) -> (r: std::vec::IntoIter<&'a RelationDef>)
        ensures
            r.remaining().map_values(|x: &'a RelationDef| x@) == self.all_views(),
    {
        broadcast use vstd::std_specs::vec::group_vec_axioms;
        let v = self.iter_vec();
        proof {
            assert(v@.map_values(|x: &'a RelationDef| x@) =~= self.all_views());
        }
        v.into_iter()
    }

    fn iter_vec(&self) -> (r: Vec<&'a RelationDef>)
        ensures
            r@.len() == self.all_views().len(),
            forall|k: int| 0 <= k < r@.len() ==> (#[trigger] r@[k])@ == self.all_views()[k],
    {
        let mut v: Vec<&'a RelationDef> = Vec::new();
        let mut i: usize = 0;
        let ghost dn = self.document@.len();
        while i < self.document.len()
            invariant
                0 <= i <= self.document@.len(),
                v@.len() == i,
                forall|k: int| 0 <= k < i ==> (#[trigger] v@[k])@ == self.all_views()[k],
            decreases self.document@.len() - i,
        {
            v.push(&self.document[i]);
            i += 1;
        }
        let mut j: usize = 0;
        while j < self.session.len()
            invariant
                0 <= j <= self.session@.len(),
                v@.len() == self.document@.len() + j,
                forall|k: int| 0 <= k < v@.len() ==> (#[trigger] v@[k])@ == self.all_views()[k],
            decreases self.session@.len() - j,
        {
            v.push(&self.session[j]);
            j += 1;
        }
        v
    }
}

/// Whether `v` holds a string equal to `s`.
fn contains_str(v: &Vec<String>, s: &str) -> (r: bool)
    ensures
        r == string_views(v@).contains(s@),
{
    let mut i: usize = 0;
    while i < v.len()
        invariant
            0 <= i <= v@.len(),
            forall|k: int| 0 <= k < i ==> (#[trigger] v@[k])@ != s@,
        decreases v@.len() - i,
    {
        if str_equal(v[i].as_str(), s) {
            assert(string_views(v@)[i as int] == s@);
            return true;
        }
        i += 1;
    }
    proof {
        if string_views(v@).contains(s@) {
            let k = choose|k: int| 0 <= k < string_views(v@).len() && string_views(v@)[k] == s@;
            assert(v@[k]@ == s@);
        }
    }
    false
}

} // verus!
