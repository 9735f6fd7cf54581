//! Layered semantic catalog.
//!
//! Resolution order: query (innermost frame first) → document → connection →
//! database → dialect.

use vstd::prelude::*;

use crate::dialect::{BuiltinFunction, Dialect, DialectFunctionCategory};
use crate::table::{DeepCopy, NameTable, assoc_merge, copy_strings, keyed_by, lemma_insert_keyed_by, lemma_merge_keyed_by, lemma_merge_unique, assoc_insert, keys_unique, last_index_of, lemma_assoc_insert, lemma_last_index_of, lookup};
use crate::text::{add_to_key_summary, is_key_summary, lemma_key_summary_empty, ascii_lowercase, eq_ignore_ascii_case, insert_sorted_unique, lower_chars, same_ignoring_case, string_views, strictly_increasing, lemma_sorted_same_elements};

verus! {

// ── Core layer types ─────────────────────────────────────────────────────────

/// The category of a catalog function.
#[derive(Debug, Clone, Copy, PartialEq, Eq, Hash, Structural)]
pub enum FunctionCategory {
    /// A scalar function (e.g. `length`, `upper`).
    Scalar,
    /// An aggregate function (e.g. `count`, `sum`).
    Aggregate,
    /// A window function (e.g. `row_number`, `rank`).
    Window,
}

/// Describes how many arguments a function overload accepts.
#[derive(Debug, Clone, Copy, PartialEq, Eq, Hash, Structural)]
pub enum AritySpec {
    /// Accepts exactly this many arguments.
    Exact(usize),
    /// Accepts at least this many arguments (variadic).
    AtLeast(usize),
    /// Accepts any number of arguments.
    Any,
}

/// One registered signature of a function.
#[derive(Debug, Clone, Copy, PartialEq, Eq, Hash, Structural)]
pub struct FunctionOverload {
    /// Scalar, aggregate or window.
    pub category: FunctionCategory,
    /// The accepted argument counts.
    pub arity: AritySpec,
}

/// A table or view as the catalog records it.
pub struct RelationView {
    /// The name as it was registered.
    pub name: Seq<char>,
    /// The column names; `None` when the table exists but its columns are
    /// not tracked.
    pub columns: Option<Seq<Seq<char>>>,
    /// `true` for WITHOUT ROWID tables and for views (no implicit rowid).
    pub without_rowid: bool,
    /// `true` for views.
    pub is_view: bool,
}

/// A function as the catalog records it.
pub struct FunctionSetView {
    /// The name as it was first registered.
    pub name: Seq<char>,
    /// All registered overloads, in registration order.
    pub overloads: Seq<FunctionOverload>,
}

/// A table-valued function as the catalog records it.
pub struct TableFunctionView {
    /// The name as it was first registered.
    pub name: Seq<char>,
    /// All registered overloads, in registration order.
    pub overloads: Seq<FunctionOverload>,
    /// Output columns; empty when unknown.
    pub output_columns: Seq<Seq<char>>,
}

/// The contents of one layer: keyed (canonical name → entry) tables, each in
/// insertion order.
pub struct LayerModel {
    /// Tables and views.
    pub relations: Seq<(Seq<char>, RelationView)>,
    /// Scalar, aggregate and window functions.
    pub functions: Seq<(Seq<char>, FunctionSetView)>,
    /// Table-valued functions.
    pub table_functions: Seq<(Seq<char>, TableFunctionView)>,
}

/// The views of an optional column list.
pub open spec fn columns_view(c: Option<Vec<String>>) -> Option<Seq<Seq<char>>> {
    match c {
        Some(v) => Some(string_views(v@)),
        None => None,
    }
}

struct RelationEntry {
    name: String,
    /// `None` = table is known to exist but column list is not tracked.
    /// Column references against it are conservatively accepted.
    columns: Option<Vec<String>>,
    /// `true` for WITHOUT ROWID tables — no implicit rowid/oid/_rowid_ columns.
    without_rowid: bool,
    /// `true` for views.
    is_view: bool,
}

impl View for RelationEntry {
    type V = RelationView;

    closed spec fn view(&self) -> RelationView {
        RelationView {
            name: self.name@,
            columns: columns_view(self.columns),
            without_rowid: self.without_rowid,
            is_view: self.is_view,
        }
    }
}

impl DeepCopy for RelationEntry {
    fn deep_copy(&self) -> (r: Self) {
        let columns = match &self.columns {
            Some(cols) => Some(copy_strings(cols)),
            None => None,
        };
        RelationEntry { name: self.name.clone(), columns, without_rowid: self.without_rowid, is_view: self.is_view }
    }
}

fn copy_overloads(v: &Vec<FunctionOverload>) -> (r: Vec<FunctionOverload>)
    ensures
        r@ == v@,
{
    let mut r: Vec<FunctionOverload> = Vec::new();
    let mut i: usize = 0;
    while i < v.len()
        invariant
            0 <= i <= v@.len(),
            r@ == v@.take(i as int),
        decreases v@.len() - i,
    {
        r.push(v[i]);
        i += 1;
        assert(r@ =~= v@.take(i as int));
    }
    assert(v@.take(i as int) =~= v@);
    r
}

/// A function and its registered overloads.
pub struct FunctionSet {
    /// The name as it was first registered.
    pub name: String,
    /// All registered overloads, in registration order.
    pub overloads: Vec<FunctionOverload>,
}

impl View for FunctionSet {
    type V = FunctionSetView;

    open spec fn view(&self) -> FunctionSetView {
        FunctionSetView { name: self.name@, overloads: self.overloads@ }
    }
}

impl DeepCopy for FunctionSet {
    fn deep_copy(&self) -> (r: Self) {
        FunctionSet { name: self.name.clone(), overloads: copy_overloads(&self.overloads) }
    }
}

/// A table-valued function and its registered overloads.
pub struct TableFunctionSet {
    /// The name as it was first registered.
    pub name: String,
    /// All registered overloads, in registration order.
    pub overloads: Vec<FunctionOverload>,
    /// Empty = output columns unknown; suppress column errors.
    pub output_columns: Vec<String>,
}

impl View for TableFunctionSet {
    type V = TableFunctionView;

    open spec fn view(&self) -> TableFunctionView {
        TableFunctionView {
            name: self.name@,
            overloads: self.overloads@,
            output_columns: string_views(self.output_columns@),
        }
    }
}

impl DeepCopy for TableFunctionSet {
    fn deep_copy(&self) -> (r: Self) {
        TableFunctionSet {
            name: self.name.clone(),
            overloads: copy_overloads(&self.overloads),
            output_columns: copy_strings(&self.output_columns),
        }
    }
}

/// Each key is the ASCII-lowercase form of its entry's name, and no key
/// occurs twice.
pub open spec fn layer_wf(m: LayerModel) -> bool {
    &&& keys_unique(m.relations)
    &&& keys_unique(m.functions)
    &&& keys_unique(m.table_functions)
    &&& keyed_by(m.relations, |r: RelationView| lower_chars(r.name))
    &&& keyed_by(m.functions, |f: FunctionSetView| lower_chars(f.name))
    &&& keyed_by(m.table_functions, |f: TableFunctionView| lower_chars(f.name))
}

/// The layer after storing every entry of `b` into `a`.
pub open spec fn merged_layer(a: LayerModel, b: LayerModel) -> LayerModel {
    LayerModel {
        relations: assoc_merge(a.relations, b.relations),
        functions: assoc_merge(a.functions, b.functions),
        table_functions: assoc_merge(a.table_functions, b.table_functions),
    }
}

/// A layer with no entries.
pub open spec fn empty_layer() -> LayerModel {
    LayerModel { relations: Seq::empty(), functions: Seq::empty(), table_functions: Seq::empty() }
}

/// The layer after registering a relation.
pub open spec fn layer_with_relation(
    m: LayerModel,
    name: Seq<char>,
    columns: Option<Seq<Seq<char>>>,
    without_rowid: bool,
    is_view: bool,
) -> LayerModel {
    LayerModel {
        relations: assoc_insert(m.relations, lower_chars(name), RelationView { name, columns, without_rowid, is_view }),
        ..m
    }
}

/// The function table after registering one overload: appended to the
/// existing entry for the name, or a new entry holding just that overload.
pub open spec fn with_overload(fs: Seq<(Seq<char>, FunctionSetView)>, name: Seq<char>, ov: FunctionOverload) -> Seq<(Seq<char>, FunctionSetView)> {
    let k = lower_chars(name);
    match lookup(fs, k) {
        Some(set) => assoc_insert(fs, k, FunctionSetView { name: set.name, overloads: set.overloads.push(ov) }),
        None => assoc_insert(fs, k, FunctionSetView { name, overloads: seq![ov] }),
    }
}

/// The function table after registering several overloads in order.
pub open spec fn with_overloads(fs: Seq<(Seq<char>, FunctionSetView)>, name: Seq<char>, ovs: Seq<FunctionOverload>) -> Seq<(Seq<char>, FunctionSetView)>
    decreases ovs.len(),
{
    if ovs.len() == 0 {
        fs
    } else {
        with_overload(with_overloads(fs, name, ovs.drop_last()), name, ovs.last())
    }
}

/// The table-function table after registering one overload; the output
/// columns are those of the first registration.
pub open spec fn with_table_overload(
    fs: Seq<(Seq<char>, TableFunctionView)>,
    name: Seq<char>,
    arity: AritySpec,
    output_columns: Seq<Seq<char>>,
) -> Seq<(Seq<char>, TableFunctionView)> {
    let k = lower_chars(name);
    let ov = FunctionOverload { category: FunctionCategory::Scalar, arity };
    match lookup(fs, k) {
        Some(set) => assoc_insert(
            fs,
            k,
            TableFunctionView { name: set.name, overloads: set.overloads.push(ov), output_columns: set.output_columns },
        ),
        None => assoc_insert(fs, k, TableFunctionView { name, overloads: seq![ov], output_columns }),
    }
}

/// The arity a dialect arity code stands for: `-1` any count, `-n-1` at
/// least `n`, a non-negative code exactly that count.
pub open spec fn arity_of_code(a: i16) -> AritySpec {
    if a == -1 {
        AritySpec::Any
    } else if a < -1 {
        AritySpec::AtLeast((-a - 1) as usize)
    } else {
        AritySpec::Exact(a as usize)
    }
}

/// The overloads a list of arity codes stands for (any count when empty).
pub open spec fn overloads_of_codes(category: FunctionCategory, codes: Seq<i16>) -> Seq<FunctionOverload> {
    if codes.len() == 0 {
        seq![FunctionOverload { category, arity: AritySpec::Any }]
    } else {
        codes.map_values(|a: i16| FunctionOverload { category, arity: arity_of_code(a) })
    }
}

/// The data stored in a single catalog layer.
///
/// Callers obtain a mutable reference via [`Catalog::layer_mut`] and call
/// `insert_*` methods to populate it.
pub struct CatalogLayerContents {
    relations: NameTable<RelationEntry>,
    functions: NameTable<FunctionSet>,
    table_functions: NameTable<TableFunctionSet>,
}

impl View for CatalogLayerContents {
    type V = LayerModel;

    closed spec fn view(&self) -> LayerModel {
        LayerModel {
            relations: self.relations.entries(),
            functions: self.functions.entries(),
            table_functions: self.table_functions.entries(),
        }
    }
}

impl CatalogLayerContents {
    /// The layer is internally consistent.
    pub closed spec fn wf(&self) -> bool {
        &&& self.relations.wf()
        &&& self.functions.wf()
        &&& self.table_functions.wf()
        &&& layer_wf(self@)
    }

    /// An empty layer.
    pub fn new() -> (r: Self)
        ensures
            r.wf(),
            r@ == empty_layer(),
    {
        let r = CatalogLayerContents { relations: NameTable::new(), functions: NameTable::new(), table_functions: NameTable::new() };
        assert(r@.relations =~= Seq::<(Seq<char>, RelationView)>::empty());
        r
    }

    /// Remove all entries from this layer.
    fn clear(&mut self)
        ensures
            final(self).wf(),
            final(self)@ == empty_layer(),
    {
        *self = CatalogLayerContents::new();
    }

    /// Insert a table into this layer.
    ///
    /// Pass `columns = Some(vec![...])` when the column list is known so the
    /// analyzer can validate column references. Pass `columns = None` when
    /// the table exists but its columns are unknown — references against it
    /// are conservatively accepted without warnings.
    ///
    /// Set `without_rowid` to `true` for `WITHOUT ROWID` tables (suppresses
    /// the implicit `rowid` column during resolution).
    pub fn insert_table(&mut self, name: &str, columns: Option<Vec<String>>, without_rowid: bool)
        requires
            old(self).wf(),
        ensures
            final(self).wf(),
            final(self)@ == layer_with_relation(old(self)@, name@, columns_view(columns), without_rowid, false),
    {
        self.insert_relation(name, columns, without_rowid, false);
    }

    fn insert_relation(&mut self, name: &str, columns: Option<Vec<String>>, without_rowid: bool, is_view: bool)
        requires
            old(self).wf(),
        ensures
            final(self).wf(),
            final(self)@ == layer_with_relation(old(self)@, name@, columns_view(columns), without_rowid, is_view),
    {
        let key = ascii_lowercase(name);
        let ghost cv = columns_view(columns);
        let ghost nv = name@;
        let entry = RelationEntry { name: name.to_owned(), columns, without_rowid, is_view };
        self.relations.insert(key, entry);
        proof {
            let m0 = old(self)@;
            let v = RelationView { name: nv, columns: cv, without_rowid, is_view };
            lemma_insert_keyed_by(m0.relations, lower_chars(nv), v, |r: RelationView| lower_chars(r.name));
            lemma_assoc_insert(m0.relations, lower_chars(nv), v);
        }
    }

    /// Insert a view into this layer.
    ///
    /// Views behave like tables for resolution purposes but never expose an
    /// implicit `rowid` column. As with [`insert_table`](Self::insert_table),
    /// pass `None` for `columns` when the column list is unknown.
    pub fn insert_view(&mut self, name: &str, columns: Option<Vec<String>>)
        requires
            old(self).wf(),
        ensures
            final(self).wf(),
            final(self)@ == layer_with_relation(old(self)@, name@, columns_view(columns), true, true),
    {
        self.insert_relation(name, columns, true, true);
    }

    /// The position of the relation `name` (compared case-insensitively).
    fn relation_index(&self, name: &str) -> (r: Option<usize>)
        requires
            self.wf(),
        ensures
            r is None ==> lookup(self@.relations, lower_chars(name@)) is None,
            r matches Some(i) ==> i < self@.relations.len() && lookup(self@.relations, lower_chars(name@)) == Some(self@.relations[i as int].1),
    {
        let key = ascii_lowercase(name);
        self.relations.find(key.as_str())
    }

    /// The position of the function `name` (compared case-insensitively).
    fn function_index(&self, name: &str) -> (r: Option<usize>)
        requires
            self.wf(),
        ensures
            r is None ==> lookup(self@.functions, lower_chars(name@)) is None,
            r matches Some(i) ==> i < self@.functions.len() && lookup(self@.functions, lower_chars(name@)) == Some(self@.functions[i as int].1),
    {
        let key = ascii_lowercase(name);
        self.functions.find(key.as_str())
    }

    /// The position of the table-valued function `name`.
    fn table_function_index(&self, name: &str) -> (r: Option<usize>)
        requires
            self.wf(),
        ensures
            r is None ==> lookup(self@.table_functions, lower_chars(name@)) is None,
            r matches Some(i) ==> i < self@.table_functions.len() && lookup(self@.table_functions, lower_chars(name@)) == Some(
                self@.table_functions[i as int].1,
            ),
    {
        let key = ascii_lowercase(name);
        self.table_functions.find(key.as_str())
    }

    fn relation_count(&self) -> (r: usize)
        requires
            self.wf(),
        ensures
            r == self@.relations.len(),
    {
        self.relations.len()
    }

    fn function_count(&self) -> (r: usize)
        requires
            self.wf(),
        ensures
            r == self@.functions.len(),
    {
        self.functions.len()
    }

    fn table_function_count(&self) -> (r: usize)
        requires
            self.wf(),
        ensures
            r == self@.table_functions.len(),
    {
        self.table_functions.len()
    }

    fn relation_at(&self, i: usize) -> (r: &RelationEntry)
        requires
            self.wf(),
            i < self@.relations.len(),
        ensures
            r@ == self@.relations[i as int].1,
    {
        self.relations.get(i)
    }

    fn function_at(&self, i: usize) -> (r: &FunctionSet)
        requires
            self.wf(),
            i < self@.functions.len(),
        ensures
            r@ == self@.functions[i as int].1,
    {
        self.functions.get(i)
    }

    fn table_function_at(&self, i: usize) -> (r: &TableFunctionSet)
        requires
            self.wf(),
            i < self@.table_functions.len(),
        ensures
            r@ == self@.table_functions[i as int].1,
    {
        self.table_functions.get(i)
    }

    /// Merge all entries from `other` into this layer (existing keys are
    /// overwritten).
    pub fn merge_from(&mut self, other: &Self)
        requires
            old(self).wf(),
            other.wf(),
        ensures
            final(self).wf(),
            final(self)@ == merged_layer(old(self)@, other@),
    {
        self.relations.merge_from(&other.relations);
        self.functions.merge_from(&other.functions);
        self.table_functions.merge_from(&other.table_functions);
        proof {
            lemma_merge_keyed_by(old(self)@.relations, other@.relations, |r: RelationView| lower_chars(r.name));
            lemma_merge_keyed_by(old(self)@.functions, other@.functions, |f: FunctionSetView| lower_chars(f.name));
            lemma_merge_keyed_by(old(self)@.table_functions, other@.table_functions, |f: TableFunctionView| lower_chars(f.name));
            lemma_merge_unique(old(self)@.relations, other@.relations);
            lemma_merge_unique(old(self)@.functions, other@.functions);
            lemma_merge_unique(old(self)@.table_functions, other@.table_functions);
        }
    }

    /// An independent copy of this layer.
    pub fn duplicate(&self) -> (r: Self)
        requires
            self.wf(),
        ensures
            r.wf(),
            r@ == self@,
    {
        CatalogLayerContents {
            relations: self.relations.duplicate(),
            functions: self.functions.duplicate(),
            table_functions: self.table_functions.duplicate(),
        }
    }

    /// Insert a single function overload into this layer.
    ///
    /// Use this to register application-defined functions so the analyzer
    /// can validate calls and arity. Call multiple times with the same name
    /// to register multiple overloads (e.g. one accepting 1 argument and
    /// another accepting 2).
    pub fn insert_function_overload(&mut self, name: &str, category: FunctionCategory, arity: AritySpec)
        requires
            old(self).wf(),
        ensures
            final(self).wf(),
            final(self)@ == (LayerModel {
                functions: with_overload(old(self)@.functions, name@, FunctionOverload { category, arity }),
                ..old(self)@
            }),
    {
        register_overload(&mut self.functions, name, FunctionOverload { category, arity });
    }

    /// Insert multiple arities for a function (dialect catalog helper).
    ///
    /// Each code is decoded as `-1` → any count, `-n-1` → at least `n`,
    /// `n >= 0` → exactly `n`; an empty list registers one any-count overload.
    pub fn insert_function_arities(&mut self, name: &str, category: FunctionCategory, arities: &[i16])
        requires
            old(self).wf(),
        ensures
            final(self).wf(),
            final(self)@ == (LayerModel {
                functions: with_overloads(old(self)@.functions, name@, overloads_of_codes(category, arities@)),
                ..old(self)@
            }),
    {
        register_arity_codes(&mut self.functions, name, category, arities);
    }

    /// Insert a table-valued function.
    pub fn insert_table_function(&mut self, name: &str, arity: AritySpec, output_columns: Vec<String>)
        requires
            old(self).wf(),
        ensures
            final(self).wf(),
            final(self)@ == (LayerModel {
                table_functions: with_table_overload(old(self)@.table_functions, name@, arity, string_views(output_columns@)),
                ..old(self)@
            }),
    {
        register_table_overload(&mut self.table_functions, name, arity, output_columns);
    }
}

/// Function names are keyed by their lowercase form and occur once.
pub open spec fn functions_keyed(fs: Seq<(Seq<char>, FunctionSetView)>) -> bool {
    keys_unique(fs) && keyed_by(fs, |f: FunctionSetView| lower_chars(f.name))
}

/// Table-valued function names are keyed by their lowercase form and occur once.
pub open spec fn table_functions_keyed(fs: Seq<(Seq<char>, TableFunctionView)>) -> bool {
    keys_unique(fs) && keyed_by(fs, |f: TableFunctionView| lower_chars(f.name))
}

/// Registers one overload of `name` in a function table: appended to the
/// existing entry for the name (compared case-insensitively), or stored as a
/// new entry.
pub(crate) fn register_overload(fs: &mut NameTable<FunctionSet>, name: &str, ov: FunctionOverload)
    requires
        old(fs).wf(),
        functions_keyed(old(fs).entries()),
    ensures
        final(fs).wf(),
        functions_keyed(final(fs).entries()),
        final(fs).entries() == with_overload(old(fs).entries(), name@, ov),
{
    let key = ascii_lowercase(name);
    let ghost fs0 = old(fs).entries();
    proof {
        fs.lemma_wf_keys_unique();
        lemma_last_index_of(fs0, key@);
    }
    match fs.find(key.as_str()) {
        Some(i) => {
            let ghost old_set = fs0[i as int].1;
            let set = fs.value_mut(i);
            set.overloads.push(ov);
            proof {
                let v = FunctionSetView { name: old_set.name, overloads: old_set.overloads.push(ov) };
                lemma_assoc_insert(fs0, key@, v);
                assert(fs.entries() =~= assoc_insert(fs0, key@, v));
            }
        },
        None => {
            let mut overloads: Vec<FunctionOverload> = Vec::new();
            overloads.push(ov);
            let owned = name.to_owned();
            fs.insert(key, FunctionSet { name: owned, overloads });
            proof {
                let v = FunctionSetView { name: name@, overloads: seq![ov] };
                lemma_assoc_insert(fs0, lower_chars(name@), v);
                lemma_insert_keyed_by(fs0, lower_chars(name@), v, |f: FunctionSetView| lower_chars(f.name));
                assert(fs.entries() =~= assoc_insert(fs0, lower_chars(name@), v));
            }
        },
    }
}

/// The arity an encoded arity code stands for.
fn decode_arity(a: i16) -> (r: AritySpec)
    ensures
        r == arity_of_code(a),
{
    if a == -1 {
        AritySpec::Any
    } else if a < -1 {
        let m: i32 = -(a as i32) - 1;
        AritySpec::AtLeast(m as usize)
    } else {
        AritySpec::Exact(a as usize)
    }
}

/// Registers one overload per arity code (one any-count overload when there
/// are no codes).
pub(crate) fn register_arity_codes(fs: &mut NameTable<FunctionSet>, name: &str, category: FunctionCategory, arities: &[i16])
    requires
        old(fs).wf(),
        functions_keyed(old(fs).entries()),
    ensures
        final(fs).wf(),
        functions_keyed(final(fs).entries()),
        final(fs).entries() == with_overloads(old(fs).entries(), name@, overloads_of_codes(category, arities@)),
{
    if arities.len() == 0 {
        register_overload(fs, name, FunctionOverload { category, arity: AritySpec::Any });
        proof {
            let ovs = overloads_of_codes(category, arities@);
            assert(ovs.len() == 1);
            assert(ovs.last() == FunctionOverload { category, arity: AritySpec::Any });
            assert(ovs.drop_last() =~= Seq::<FunctionOverload>::empty());
            assert(with_overloads(old(fs).entries(), name@, ovs.drop_last()) == old(fs).entries());
        }
        return;
    }
    let ghost codes = arities@;
    let ghost all = overloads_of_codes(category, codes);
    let mut i: usize = 0;
    while i < arities.len()
        invariant
            0 <= i <= codes.len(),
            codes == arities@,
            codes.len() > 0,
            all == overloads_of_codes(category, codes),
            fs.wf(),
            functions_keyed(fs.entries()),
            fs.entries() == with_overloads(old(fs).entries(), name@, all.take(i as int)),
        decreases codes.len() - i,
    {
        let arity = decode_arity(arities[i]);
        register_overload(fs, name, FunctionOverload { category, arity });
        proof {
            assert(all.take(i + 1).drop_last() =~= all.take(i as int));
            assert(all.take(i + 1).last() == FunctionOverload { category, arity });
        }
        i += 1;
    }
    assert(all.take(i as int) =~= all);
}

/// Registers one overload of a table-valued function; the output columns
/// are kept from the first registration of the name.
pub(crate) fn register_table_overload(fs: &mut NameTable<TableFunctionSet>, name: &str, arity: AritySpec, output_columns: Vec<String>)
    requires
        old(fs).wf(),
        table_functions_keyed(old(fs).entries()),
    ensures
        final(fs).wf(),
        table_functions_keyed(final(fs).entries()),
        final(fs).entries() == with_table_overload(old(fs).entries(), name@, arity, string_views(output_columns@)),
{
    let key = ascii_lowercase(name);
    let ov = FunctionOverload { category: FunctionCategory::Scalar, arity };
    let ghost fs0 = old(fs).entries();
    let ghost oc = string_views(output_columns@);
    proof {
        fs.lemma_wf_keys_unique();
        lemma_last_index_of(fs0, key@);
    }
    match fs.find(key.as_str()) {
        Some(i) => {
            let ghost old_set = fs0[i as int].1;
            let set = fs.value_mut(i);
            set.overloads.push(ov);
            proof {
                let v = TableFunctionView { name: old_set.name, overloads: old_set.overloads.push(ov), output_columns: old_set.output_columns };
                lemma_assoc_insert(fs0, key@, v);
                assert(fs.entries() =~= assoc_insert(fs0, key@, v));
            }
        },
        None => {
            let mut overloads: Vec<FunctionOverload> = Vec::new();
            overloads.push(ov);
            let owned = name.to_owned();
            fs.insert(key, TableFunctionSet { name: owned, overloads, output_columns });
            proof {
                let v = TableFunctionView { name: name@, overloads: seq![ov], output_columns: oc };
                lemma_assoc_insert(fs0, lower_chars(name@), v);
                lemma_insert_keyed_by(fs0, lower_chars(name@), v, |f: TableFunctionView| lower_chars(f.name));
                assert(fs.entries() =~= assoc_insert(fs0, lower_chars(name@), v));
            }
        },
    }
}

// ── CatalogLayer enum ─────────────────────────────────────────────────────────

/// Identifies a fixed layer in the [`Catalog`].
///
/// Use [`Catalog::layer`] / [`Catalog::layer_mut`] to access the
/// corresponding [`CatalogLayerContents`] directly.
#[derive(Debug, Clone, Copy, PartialEq, Eq, Structural)]
pub enum CatalogLayer {
    /// Dialect built-ins — populated at construction, never mutated.
    Dialect,
    /// Persistent user schema (cross-connection): tables, views, functions.
    Database,
    /// Connection-scoped schema (attached databases, session overrides).
    Connection,
    /// DDL accumulated from the current source document — cleared each pass.
    Document,
}

/// The position of a fixed layer in the layer list.
pub open spec fn layer_index(which: CatalogLayer) -> int {
    match which {
        CatalogLayer::Dialect => 0,
        CatalogLayer::Database => 1,
        CatalogLayer::Connection => 2,
        CatalogLayer::Document => 3,
    }
}

impl CatalogLayer {
    fn index(self) -> (r: usize)
        ensures
            r == layer_index(self),
    {
        match self {
            CatalogLayer::Dialect => 0,
            CatalogLayer::Database => 1,
            CatalogLayer::Connection => 2,
            CatalogLayer::Document => 3,
        }
    }
}

/// Number of fixed layers that are always present.
pub const FIXED_LAYER_COUNT: usize = 4;

// ── Specification of resolution ───────────────────────────────────────────────

/// The relation registered under `k` in the highest layer that has one.
pub open spec fn top_relation(ls: Seq<LayerModel>, k: Seq<char>) -> Option<RelationView>
    decreases ls.len(),
{
    if ls.len() == 0 {
        None
    } else {
        match lookup(ls.last().relations, k) {
            Some(r) => Some(r),
            None => top_relation(ls.drop_last(), k),
        }
    }
}

/// The function registered under `k` in the highest layer that has one.
pub open spec fn top_function(ls: Seq<LayerModel>, k: Seq<char>) -> Option<FunctionSetView>
    decreases ls.len(),
{
    if ls.len() == 0 {
        None
    } else {
        match lookup(ls.last().functions, k) {
            Some(f) => Some(f),
            None => top_function(ls.drop_last(), k),
        }
    }
}

/// The table-valued function registered under `k` in the highest layer that
/// has one.
pub open spec fn top_table_function(ls: Seq<LayerModel>, k: Seq<char>) -> Option<TableFunctionView>
    decreases ls.len(),
{
    if ls.len() == 0 {
        None
    } else {
        match lookup(ls.last().table_functions, k) {
            Some(f) => Some(f),
            None => top_table_function(ls.drop_last(), k),
        }
    }
}

/// The column list a FROM source named `k` contributes: in the highest layer
/// naming it, a relation's columns, or a table-valued function's non-empty
/// output columns.
pub open spec fn table_source_columns(ls: Seq<LayerModel>, k: Seq<char>) -> Option<Seq<Seq<char>>>
    decreases ls.len(),
{
    if ls.len() == 0 {
        None
    } else {
        match lookup(ls.last().relations, k) {
            Some(r) => r.columns,
            None => match lookup(ls.last().table_functions, k) {
                Some(tf) => if tf.output_columns.len() == 0 {
                    None
                } else {
                    Some(tf.output_columns)
                },
                None => table_source_columns(ls.drop_last(), k),
            },
        }
    }
}

/// Whether the FROM source named `k` lacks an implicit rowid: the
/// relation's flag in the highest layer naming `k`; `false` for a
/// table-valued function or an unknown name.
pub open spec fn table_source_without_rowid(ls: Seq<LayerModel>, k: Seq<char>) -> bool
    decreases ls.len(),
{
    if ls.len() == 0 {
        false
    } else {
        match lookup(ls.last().relations, k) {
            Some(r) => r.without_rowid,
            None => match lookup(ls.last().table_functions, k) {
                Some(_) => false,
                None => table_source_without_rowid(ls.drop_last(), k),
            },
        }
    }
}

/// All relations, highest layer first, each layer in its own order.
pub open spec fn relations_in_search_order(ls: Seq<LayerModel>) -> Seq<RelationView>
    decreases ls.len(),
{
    if ls.len() == 0 {
        Seq::empty()
    } else {
        ls.last().relations.map_values(|e: (Seq<char>, RelationView)| e.1) + relations_in_search_order(ls.drop_last())
    }
}

/// All function names, highest layer first.
pub open spec fn function_names_in_search_order(ls: Seq<LayerModel>) -> Seq<Seq<char>>
    decreases ls.len(),
{
    if ls.len() == 0 {
        Seq::empty()
    } else {
        ls.last().functions.map_values(|e: (Seq<char>, FunctionSetView)| e.1.name) + function_names_in_search_order(ls.drop_last())
    }
}

/// All table-valued function names, highest layer first.
pub open spec fn table_function_names_in_search_order(ls: Seq<LayerModel>) -> Seq<Seq<char>>
    decreases ls.len(),
{
    if ls.len() == 0 {
        Seq::empty()
    } else {
        ls.last().table_functions.map_values(|e: (Seq<char>, TableFunctionView)| e.1.name)
            + table_function_names_in_search_order(ls.drop_last())
    }
}

/// The names of a list of relations.
pub open spec fn relation_names(rels: Seq<RelationView>) -> Seq<Seq<char>> {
    rels.map_values(|r: RelationView| r.name)
}

/// Whether an overload accepts `n` arguments.
pub open spec fn accepts(ov: FunctionOverload, n: nat) -> bool {
    match ov.arity {
        AritySpec::Exact(m) => m == n,
        AritySpec::AtLeast(m) => n >= m,
        AritySpec::Any => true,
    }
}

/// `expected` lists, increasing and without repeats, exactly the fixed
/// arities among `ovs`.
pub open spec fn is_fixed_arity_list(expected: Seq<usize>, ovs: Seq<FunctionOverload>) -> bool {
    &&& strictly_increasing(expected)
    &&& forall|n: usize| expected.contains(n) <==> exists|i: int| 0 <= i < ovs.len() && #[trigger] ovs[i].arity == AritySpec::Exact(n)
}

/// The fixed arities among `ovs`, increasing and without repeats.
pub open spec fn fixed_arities(ovs: Seq<FunctionOverload>) -> Seq<usize> {
    choose|e: Seq<usize>| is_fixed_arity_list(e, ovs)
}

/// Only one list describes the fixed arities of a set of overloads.
pub proof fn lemma_fixed_arities_unique(expected: Seq<usize>, ovs: Seq<FunctionOverload>)
    requires
        is_fixed_arity_list(expected, ovs),
    ensures
        expected == fixed_arities(ovs),
{
    let other = fixed_arities(ovs);
    assert(is_fixed_arity_list(other, ovs));
    let lt = |x: usize, y: usize| x < y;
    assert forall|i: int, j: int| 0 <= i < j < expected.len() implies #[trigger] lt(expected[i], expected[j]) by {
        assert(expected[i] < expected[j]);
    }
    assert forall|i: int, j: int| 0 <= i < j < other.len() implies #[trigger] lt(other[i], other[j]) by {
        assert(other[i] < other[j]);
    }
    assert forall|x: usize| #[trigger] expected.contains(x) <==> other.contains(x) by {
        assert(expected.contains(x) <==> exists|i: int| 0 <= i < ovs.len() && #[trigger] ovs[i].arity == AritySpec::Exact(x));
        assert(other.contains(x) <==> exists|i: int| 0 <= i < ovs.len() && #[trigger] ovs[i].arity == AritySpec::Exact(x));
    }
    lemma_sorted_same_elements(expected, other, lt);
}

/// Some column in `cols` matches `c` ignoring ASCII case.
pub open spec fn has_column(cols: Seq<Seq<char>>, c: Seq<char>) -> bool {
    exists|i: int| 0 <= i < cols.len() && #[trigger] same_ignoring_case(cols[i], c)
}

/// `SQLite`'s implicit rowid aliases.
pub open spec fn is_rowid_alias_spec(c: Seq<char>) -> bool {
    same_ignoring_case(c, "rowid"@) || same_ignoring_case(c, "oid"@) || same_ignoring_case(c, "_rowid_"@)
}

/// `c` names the implicit rowid of `rel`.
pub open spec fn implicit_rowid(c: Seq<char>, rel: RelationView) -> bool {
    !rel.without_rowid && is_rowid_alias_spec(c)
}

/// `rel` has a known column list containing `c` (or its implicit rowid).
pub open spec fn relation_has_column(rel: RelationView, c: Seq<char>) -> bool {
    match rel.columns {
        Some(cols) => has_column(cols, c) || implicit_rowid(c, rel),
        None => false,
    }
}

/// How a column reference resolves, as plain values.
pub enum ResolutionView {
    /// Column found in `table`, whose known columns are `all_columns`.
    Found { table: Seq<char>, all_columns: Seq<Seq<char>> },
    /// Table is in scope but this column is not in its known list.
    TableFoundColumnMissing,
    /// The qualifier table is not in scope.
    TableNotFound,
    /// Unqualified column not found in any table in scope.
    NotFound,
}

/// How a column reference resolved.
#[derive(Debug, PartialEq, Eq)]
pub enum ColumnResolution {
    /// Column found (or table has unknown columns — conservatively accepted).
    Found {
        /// The table the column belongs to (empty when anonymous).
        table: String,
        /// The table's known columns.
        all_columns: Vec<String>,
    },
    /// Table is in scope but this column is not in its known list.
    TableFoundColumnMissing,
    /// The qualifier table is not in scope — table check already reported this.
    TableNotFound,
    /// Unqualified column not found in any table in scope.
    NotFound,
}

impl View for ColumnResolution {
    type V = ResolutionView;

    open spec fn view(&self) -> ResolutionView {
        match self {
            ColumnResolution::Found { table, all_columns } => ResolutionView::Found {
                table: table@,
                all_columns: string_views(all_columns@),
            },
            ColumnResolution::TableFoundColumnMissing => ResolutionView::TableFoundColumnMissing,
            ColumnResolution::TableNotFound => ResolutionView::TableNotFound,
            ColumnResolution::NotFound => ResolutionView::NotFound,
        }
    }
}

/// The outcome of checking a function call.
#[derive(Debug, PartialEq, Eq)]
pub enum FunctionCheckResult {
    /// The function exists and accepts the argument count.
    Accepted,
    /// No function with this name exists.
    Unknown,
    /// The function exists but no overload accepts the argument count.
    WrongArity {
        /// The accepted fixed arities.
        expected: Vec<usize>,
    },
}

/// The outcome of calling a function set with `n` arguments.
pub open spec fn function_check_spec(found: Option<FunctionSetView>, n: nat, r: FunctionCheckResult) -> bool {
    match found {
        None => r is Unknown,
        Some(set) => if exists|i: int| 0 <= i < set.overloads.len() && accepts(#[trigger] set.overloads[i], n) {
            r is Accepted
        } else {
            r matches FunctionCheckResult::WrongArity { expected } && is_fixed_arity_list(expected@, set.overloads)
        },
    }
}

/// Resolution of `table.column`.
pub open spec fn qualified_resolution(ls: Seq<LayerModel>, table: Seq<char>, column: Seq<char>) -> ResolutionView {
    match top_relation(ls, lower_chars(table)) {
        None => ResolutionView::TableNotFound,
        Some(rel) => match rel.columns {
            Some(cols) => if has_column(cols, column) || implicit_rowid(column, rel) {
                ResolutionView::Found { table: rel.name, all_columns: cols }
            } else {
                ResolutionView::TableFoundColumnMissing
            },
            None => ResolutionView::Found { table: rel.name, all_columns: Seq::empty() },
        },
    }
}

/// `i` is the first relation in `rels` having `column`.
pub open spec fn first_having(rels: Seq<RelationView>, column: Seq<char>, i: int) -> bool {
    &&& 0 <= i < rels.len()
    &&& relation_has_column(rels[i], column)
    &&& forall|k: int| 0 <= k < i ==> !relation_has_column(#[trigger] rels[k], column)
}

/// Resolution of an unqualified column against relations in search order:
/// the first relation that has it; otherwise, if some relation's columns are
/// unknown, an anonymous match; otherwise not found.
pub open spec fn unqualified_resolution(rels: Seq<RelationView>, column: Seq<char>) -> ResolutionView {
    if exists|i: int| first_having(rels, column, i) {
        let i = choose|i: int| first_having(rels, column, i);
        ResolutionView::Found { table: rels[i].name, all_columns: rels[i].columns->0 }
    } else if exists|i: int| 0 <= i < rels.len() && (#[trigger] rels[i]).columns is None {
        ResolutionView::Found { table: Seq::empty(), all_columns: Seq::empty() }
    } else {
        ResolutionView::NotFound
    }
}

/// The lowercase column names `rel` contributes under the table filter:
/// its known columns when it passes the filter, nothing otherwise.
pub open spec fn own_column_names(rel: RelationView, table: Option<Seq<char>>) -> Seq<Seq<char>> {
    if (table matches Some(t) ==> same_ignoring_case(rel.name, t)) && rel.columns is Some {
        rel.columns->0.map_values(|c: Seq<char>| lower_chars(c))
    } else {
        Seq::empty()
    }
}

/// The lowercase column names of the relations that pass the table filter,
/// in the order of `rels`.
pub open spec fn filtered_column_names(rels: Seq<RelationView>, table: Option<Seq<char>>) -> Seq<Seq<char>>
    decreases rels.len(),
{
    if rels.len() == 0 {
        Seq::empty()
    } else {
        filtered_column_names(rels.drop_last(), table) + own_column_names(rels.last(), table)
    }
}

/// The view of an optional string.
pub open spec fn opt_str_view(t: Option<&str>) -> Option<Seq<char>> {
    match t {
        Some(s) => Some(s@),
        None => None,
    }
}

/// How many arguments each overload accepts, in registration order.
pub open spec fn overload_arities(ovs: Seq<FunctionOverload>) -> Seq<AritySpec> {
    ovs.map_values(|ov: FunctionOverload| ov.arity)
}

/// The category of a built-in function as the catalog records it.
pub open spec fn catalog_category(c: DialectFunctionCategory) -> FunctionCategory {
    match c {
        DialectFunctionCategory::Scalar | DialectFunctionCategory::TableValued => FunctionCategory::Scalar,
        DialectFunctionCategory::Aggregate => FunctionCategory::Aggregate,
        DialectFunctionCategory::Window => FunctionCategory::Window,
    }
}

/// The layer after registering one built-in function.
pub open spec fn with_builtin(m: LayerModel, f: BuiltinFunction) -> LayerModel {
    if f.category == DialectFunctionCategory::TableValued {
        LayerModel {
            table_functions: with_table_overload(m.table_functions, f.name@, AritySpec::Any, Seq::empty()),
            ..m
        }
    } else {
        LayerModel {
            functions: with_overloads(m.functions, f.name@, overloads_of_codes(catalog_category(f.category), f.arities@)),
            ..m
        }
    }
}

/// The dialect layer: every built-in function registered in order.
pub open spec fn dialect_layer(fs: Seq<BuiltinFunction>) -> LayerModel
    decreases fs.len(),
{
    if fs.len() == 0 {
        empty_layer()
    } else {
        with_builtin(dialect_layer(fs.drop_last()), fs.last())
    }
}

/// The search order of the layers from `i` up is that of the layers above
/// `i` followed by layer `i` itself.
pub proof fn lemma_search_order_step(ls: Seq<LayerModel>, i: int)
    requires
        0 <= i < ls.len(),
    ensures
        relations_in_search_order(ls.skip(i)) == relations_in_search_order(ls.skip(i + 1))
            + ls[i].relations.map_values(|e: (Seq<char>, RelationView)| e.1),
        function_names_in_search_order(ls.skip(i)) == function_names_in_search_order(ls.skip(i + 1))
            + ls[i].functions.map_values(|e: (Seq<char>, FunctionSetView)| e.1.name),
        table_function_names_in_search_order(ls.skip(i)) == table_function_names_in_search_order(ls.skip(i + 1))
            + ls[i].table_functions.map_values(|e: (Seq<char>, TableFunctionView)| e.1.name),
    decreases ls.len(),
{
    let a = ls.skip(i);
    let b = ls.skip(i + 1);
    if i == ls.len() - 1 {
        assert(b.len() == 0);
        assert(a.drop_last().len() == 0);
        assert(a.last() == ls[i]);
        assert(relations_in_search_order(b) =~= Seq::<RelationView>::empty());
        assert(relations_in_search_order(a.drop_last()) =~= Seq::<RelationView>::empty());
        assert(function_names_in_search_order(b) =~= Seq::<Seq<char>>::empty());
        assert(function_names_in_search_order(a.drop_last()) =~= Seq::<Seq<char>>::empty());
        assert(table_function_names_in_search_order(b) =~= Seq::<Seq<char>>::empty());
        assert(table_function_names_in_search_order(a.drop_last()) =~= Seq::<Seq<char>>::empty());
        assert(relations_in_search_order(a) =~= relations_in_search_order(b) + ls[i].relations.map_values(|e: (Seq<char>, RelationView)| e.1));
        assert(function_names_in_search_order(a) =~= function_names_in_search_order(b)
            + ls[i].functions.map_values(|e: (Seq<char>, FunctionSetView)| e.1.name));
        assert(table_function_names_in_search_order(a) =~= table_function_names_in_search_order(b)
            + ls[i].table_functions.map_values(|e: (Seq<char>, TableFunctionView)| e.1.name));
    } else {
        let d = ls.drop_last();
        lemma_search_order_step(d, i);
        assert(a.drop_last() =~= d.skip(i));
        assert(b.drop_last() =~= d.skip(i + 1));
        assert(a.last() == ls.last());
        assert(b.last() == ls.last());
        assert(d[i] == ls[i]);
        assert(relations_in_search_order(a) =~= relations_in_search_order(b) + ls[i].relations.map_values(|e: (Seq<char>, RelationView)| e.1));
        assert(function_names_in_search_order(a) =~= function_names_in_search_order(b)
            + ls[i].functions.map_values(|e: (Seq<char>, FunctionSetView)| e.1.name));
        assert(table_function_names_in_search_order(a) =~= table_function_names_in_search_order(b)
            + ls[i].table_functions.map_values(|e: (Seq<char>, TableFunctionView)| e.1.name));
    }
}

/// Looking up from the top of the first `i + 1` layers: layer `i` if it has
/// the key, otherwise the layers below it.
pub proof fn lemma_top_step(ls: Seq<LayerModel>, i: int, k: Seq<char>)
    requires
        0 <= i < ls.len(),
    ensures
        top_relation(ls.take(i + 1), k) == match lookup(ls[i].relations, k) {
            Some(r) => Some(r),
            None => top_relation(ls.take(i), k),
        },
        top_function(ls.take(i + 1), k) == match lookup(ls[i].functions, k) {
            Some(f) => Some(f),
            None => top_function(ls.take(i), k),
        },
        top_table_function(ls.take(i + 1), k) == match lookup(ls[i].table_functions, k) {
            Some(f) => Some(f),
            None => top_table_function(ls.take(i), k),
        },
        table_source_without_rowid(ls.take(i + 1), k) == match lookup(ls[i].relations, k) {
            Some(r) => r.without_rowid,
            None => match lookup(ls[i].table_functions, k) {
                Some(_) => false,
                None => table_source_without_rowid(ls.take(i), k),
            },
        },
        table_source_columns(ls.take(i + 1), k) == match lookup(ls[i].relations, k) {
            Some(r) => r.columns,
            None => match lookup(ls[i].table_functions, k) {
                Some(tf) => if tf.output_columns.len() == 0 {
                    None
                } else {
                    Some(tf.output_columns)
                },
                None => table_source_columns(ls.take(i), k),
            },
        },
{
    assert(ls.take(i + 1).drop_last() =~= ls.take(i));
    assert(ls.take(i + 1).last() == ls[i]);
}

/// The layers with a new, empty query scope on top.
pub open spec fn catalog_push(ls: Seq<LayerModel>) -> Seq<LayerModel> {
    ls.push(empty_layer())
}

/// The layers without the innermost query scope (the four fixed layers are
/// never removed).
pub open spec fn catalog_pop(ls: Seq<LayerModel>) -> Seq<LayerModel> {
    if ls.len() > 4 {
        ls.drop_last()
    } else {
        ls
    }
}

/// The layers after registering a table in the innermost query scope
/// (unchanged when no query scope is open).
pub open spec fn catalog_with_query_table(ls: Seq<LayerModel>, name: Seq<char>, columns: Option<Seq<Seq<char>>>) -> Seq<LayerModel> {
    if ls.len() > 4 {
        ls.update(ls.len() - 1, layer_with_relation(ls.last(), name, columns, false, false))
    } else {
        ls
    }
}

// ── Public Catalog ────────────────────────────────────────────────────────────

/// Layered semantic catalog describing a database schema.
///
/// Layers are stored in a single `Vec` indexed by priority (lowest first):
///
/// ```text
/// index 0  CatalogLayer::Dialect    — dialect built-ins (never mutated)
/// index 1  CatalogLayer::Database   — persistent user schema
/// index 2  CatalogLayer::Connection — connection-scoped schema
/// index 3  CatalogLayer::Document   — DDL from the current source
/// index 4+ query scopes             — pushed/popped during AST traversal
/// ```
///
/// Resolution iterates layers from highest index to lowest, so the priority
/// order is: innermost query scope > document > connection > database >
/// dialect.
pub struct Catalog {
    layers: Vec<CatalogLayerContents>,
}

impl View for Catalog {
    type V = Seq<LayerModel>;

    closed spec fn view(&self) -> Seq<LayerModel> {
        self.layers@.map_values(|l: CatalogLayerContents| l@)
    }
}

impl Catalog {
    /// The four fixed layers are present and every layer is consistent.
    pub closed spec fn wf(&self) -> bool {
        &&& self.layers@.len() >= FIXED_LAYER_COUNT
        &&& forall|i: int| 0 <= i < self.layers@.len() ==> (#[trigger] self.layers@[i]).wf()
    }

    /// A consistent catalog has its four fixed layers.
    pub proof fn lemma_fixed_layers(&self)
        requires
            self.wf(),
        ensures
            self@.len() >= 4,
    {
    }

    proof fn lemma_layer(&self, i: int)
        requires
            self.wf(),
            0 <= i < self@.len(),
        ensures
            self@.len() == self.layers@.len(),
            self.layers@[i].wf(),
            self.layers@[i]@ == self@[i],
    {
    }

    /// Create a catalog for `dialect`.
    ///
    /// The dialect's built-in functions are loaded immediately into the
    /// dialect layer; the other fixed layers start empty.
    pub fn new(dialect: &Dialect) -> (r: Self)
        ensures
            r.wf(),
            r@ == seq![dialect_layer(dialect.functions()), empty_layer(), empty_layer(), empty_layer()],
    {
        let mut dialect_contents = CatalogLayerContents::new();
        build_dialect_layer(&mut dialect_contents, dialect);
        let mut layers: Vec<CatalogLayerContents> = Vec::new();
        layers.push(dialect_contents);
        layers.push(CatalogLayerContents::new());
        layers.push(CatalogLayerContents::new());
        layers.push(CatalogLayerContents::new());
        let r = Catalog { layers };
        assert(r@ =~= seq![dialect_layer(dialect.functions()), empty_layer(), empty_layer(), empty_layer()]);
        r
    }

    /// Borrow a fixed layer immutably.
    pub fn layer(&self, which: CatalogLayer) -> (r: &CatalogLayerContents)
        requires
            self.wf(),
        ensures
            r.wf(),
            r@ == self@[layer_index(which)],
    {
        &self.layers[which.index()]
    }

    /// Borrow a fixed layer mutably.
    ///
    /// Use the returned `CatalogLayerContents` to insert relations, functions,
    /// or table-valued functions into the chosen layer.
    pub fn layer_mut(&mut self, which: CatalogLayer) -> (r: &mut CatalogLayerContents)
        requires
            old(self).wf(),
        ensures
            r.wf(),
            r@ == old(self)@[layer_index(which)],
            final(self)@ == old(self)@.update(layer_index(which), final(r)@),
            final(r).wf() ==> final(self).wf(),
    {
        let i = which.index();
        &mut self.layers[i]
    }

    /// Switch to a new database.
    ///
    /// Clears the Database, Connection, and Document layers and discards all
    /// query scopes. Use this when the connected database changes entirely.
    pub fn new_database(&mut self)
        requires
            old(self).wf(),
        ensures
            final(self).wf(),
            final(self)@ == seq![old(self)@[0], empty_layer(), empty_layer(), empty_layer()],
    {
        self.layers.truncate(FIXED_LAYER_COUNT);
        self.layers.set(1, CatalogLayerContents::new());
        self.layers.set(2, CatalogLayerContents::new());
        self.layers.set(3, CatalogLayerContents::new());
        assert(self@ =~= seq![old(self)@[0], empty_layer(), empty_layer(), empty_layer()]);
    }

    /// Switch to a new connection on the same database.
    ///
    /// Resets the Connection and Document layers and discards all query scopes.
    pub fn new_connection(&mut self)
        requires
            old(self).wf(),
        ensures
            final(self).wf(),
            final(self)@ == seq![old(self)@[0], old(self)@[1], empty_layer(), empty_layer()],
    {
        self.layers.truncate(FIXED_LAYER_COUNT);
        self.layers.set(2, CatalogLayerContents::new());
        self.layers.set(3, CatalogLayerContents::new());
        assert(self@ =~= seq![old(self)@[0], old(self)@[1], empty_layer(), empty_layer()]);
    }

    /// Start a new document analysis pass.
    ///
    /// Resets the Document layer and discards all query scopes.
    pub fn new_document(&mut self)
        requires
            old(self).wf(),
        ensures
            final(self).wf(),
            final(self)@ == seq![old(self)@[0], old(self)@[1], old(self)@[2], empty_layer()],
    {
        self.layers.truncate(FIXED_LAYER_COUNT);
        self.layers.set(3, CatalogLayerContents::new());
        assert(self@ =~= seq![old(self)@[0], old(self)@[1], old(self)@[2], empty_layer()]);
    }

    /// Push a new empty scope frame. Called on subquery / CTE entry.
    pub fn push_query_scope(&mut self)
        requires
            old(self).wf(),
        ensures
            final(self).wf(),
            final(self)@ == catalog_push(old(self)@),
    {
        self.layers.push(CatalogLayerContents::new());
        assert(self@ =~= old(self)@.push(empty_layer()));
    }

    /// Pop the innermost scope frame. Called on subquery / CTE exit.
    /// The fixed layers are never popped.
    pub fn pop_query_scope(&mut self)
        requires
            old(self).wf(),
        ensures
            final(self).wf(),
            final(self)@ == catalog_pop(old(self)@),
    {
        if self.layers.len() > FIXED_LAYER_COUNT {
            self.layers.pop();
            assert(self@ =~= old(self)@.drop_last());
        }
    }

    /// Register a table or alias in the current (innermost) query scope.
    /// `columns = None` means the table exists but its column list is
    /// unknown. Does nothing when no query scope is open.
    pub fn add_query_table(&mut self, name: &str, columns: Option<Vec<String>>)
        requires
            old(self).wf(),
        ensures
            final(self).wf(),
            final(self)@ == catalog_with_query_table(old(self)@, name@, columns_view(columns)),
    {
        let n = self.layers.len();
        if n > FIXED_LAYER_COUNT {
            let frame = &mut self.layers[n - 1];
            frame.insert_table(name, columns, false);
            assert(self@ =~= old(self)@.update(n - 1, layer_with_relation(old(self)@.last(), name@, columns_view(columns), false, false)));
        }
    }

    /// Copy the Database and Connection layers from `src` into this catalog.
    ///
    /// Called at the start of each Document-mode analysis pass.
    pub fn copy_schema_layers_from(&mut self, src: &Catalog)
        requires
            old(self).wf(),
            src.wf(),
        ensures
            final(self).wf(),
            final(self)@ == old(self)@.update(1, src@[1]).update(2, src@[2]),
    {
        let db = src.layers[1].duplicate();
        let conn = src.layers[2].duplicate();
        self.layers.set(1, db);
        self.layers.set(2, conn);
        assert(self@ =~= old(self)@.update(1, src@[1]).update(2, src@[2]));
    }

    /// Copy only the Database layer from `src`, preserving this catalog's
    /// Connection layer.
    pub fn copy_database_from(&mut self, src: &Catalog)
        requires
            old(self).wf(),
            src.wf(),
        ensures
            final(self).wf(),
            final(self)@ == old(self)@.update(1, src@[1]),
    {
        let db = src.layers[1].duplicate();
        self.layers.set(1, db);
        assert(self@ =~= old(self)@.update(1, src@[1]));
    }

    /// Merge DDL discovered in the Document layer into the Connection layer,
    /// so that it persists across later passes.
    pub fn promote_document_to_connection(&mut self)
        requires
            old(self).wf(),
        ensures
            final(self).wf(),
            final(self)@ == old(self)@.update(2, merged_layer(old(self)@[2], old(self)@[3])),
    {
        let doc = self.layers[3].duplicate();
        let conn = &mut self.layers[2];
        conn.merge_from(&doc);
        assert(self@ =~= old(self)@.update(2, merged_layer(old(self)@[2], old(self)@[3])));
    }

    // ── Resolution ────────────────────────────────────────────────────────────

    /// Returns `true` if `name` is a known relation in any layer.
    pub fn resolve_relation(&self, name: &str) -> (r: bool)
        requires
            self.wf(),
        ensures
            r == top_relation(self@, lower_chars(name@)) is Some,
    {
        let ghost ls = self@;
        let ghost k = lower_chars(name@);
        let mut i = self.layers.len();
        assert(ls.take(i as int) =~= ls);
        while i > 0
            invariant
                0 <= i <= ls.len(),
                ls == self@,
                k == lower_chars(name@),
                self.wf(),
                top_relation(ls, k) == top_relation(ls.take(i as int), k),
            decreases i,
        {
            i -= 1;
            proof {
                lemma_top_step(ls, i as int, k);
                self.lemma_layer(i as int);
            }
            if self.layers[i].relation_index(name).is_some() {
                return true;
            }
        }
        assert(ls.take(0).len() == 0);
        false
    }

    /// Returns `true` if `name` is a known table-valued function in any layer.
    pub fn resolve_table_function(&self, name: &str) -> (r: bool)
        requires
            self.wf(),
        ensures
            r == top_table_function(self@, lower_chars(name@)) is Some,
    {
        let ghost ls = self@;
        let ghost k = lower_chars(name@);
        let mut i = self.layers.len();
        assert(ls.take(i as int) =~= ls);
        while i > 0
            invariant
                0 <= i <= ls.len(),
                ls == self@,
                k == lower_chars(name@),
                self.wf(),
                top_table_function(ls, k) == top_table_function(ls.take(i as int), k),
            decreases i,
        {
            i -= 1;
            proof {
                lemma_top_step(ls, i as int, k);
                self.lemma_layer(i as int);
            }
            if self.layers[i].table_function_index(name).is_some() {
                return true;
            }
        }
        assert(ls.take(0).len() == 0);
        false
    }

    /// Returns `true` if `name` resolves to a view.
    pub fn is_view(&self, name: &str) -> (r: bool)
        requires
            self.wf(),
        ensures
            r == (top_relation(self@, lower_chars(name@)) matches Some(rel) && rel.is_view),
    {
        let ghost ls = self@;
        let ghost k = lower_chars(name@);
        let mut i = self.layers.len();
        assert(ls.take(i as int) =~= ls);
        while i > 0
            invariant
                0 <= i <= ls.len(),
                ls == self@,
                k == lower_chars(name@),
                self.wf(),
                top_relation(ls, k) == top_relation(ls.take(i as int), k),
            decreases i,
        {
            i -= 1;
            proof {
                lemma_top_step(ls, i as int, k);
                self.lemma_layer(i as int);
            }
            let layer = &self.layers[i];
            match layer.relation_index(name) {
                Some(ri) => {
                    return layer.relation_at(ri).is_view;
                },
                None => {},
            }
        }
        assert(ls.take(0).len() == 0);
        false
    }

    /// The layer and position of the function `name` resolves to.
    fn find_function(&self, name: &str) -> (r: Option<(usize, usize)>)
        requires
            self.wf(),
        ensures
            r is None ==> top_function(self@, lower_chars(name@)) is None,
            r matches Some((li, fi)) ==> li < self@.len() && fi < self@[li as int].functions.len()
                && top_function(self@, lower_chars(name@)) == Some(self@[li as int].functions[fi as int].1),
    {
        let ghost ls = self@;
        let ghost k = lower_chars(name@);
        let mut i = self.layers.len();
        assert(ls.take(i as int) =~= ls);
        while i > 0
            invariant
                0 <= i <= ls.len(),
                ls == self@,
                k == lower_chars(name@),
                self.wf(),
                top_function(ls, k) == top_function(ls.take(i as int), k),
            decreases i,
        {
            i -= 1;
            proof {
                lemma_top_step(ls, i as int, k);
                self.lemma_layer(i as int);
            }
            match self.layers[i].function_index(name) {
                Some(fi) => {
                    return Some((i, fi));
                },
                None => {},
            }
        }
        assert(ls.take(0).len() == 0);
        None
    }

    /// Check a call of `name` with `arg_count` arguments against the function
    /// the name resolves to.
    pub fn check_function(&self, name: &str, arg_count: usize) -> (r: FunctionCheckResult)
        requires
            self.wf(),
        ensures
            function_check_spec(top_function(self@, lower_chars(name@)), arg_count as nat, r),
    {
        match self.find_function(name) {
            None => FunctionCheckResult::Unknown,
            Some((li, fi)) => {
                proof {
                    self.lemma_layer(li as int);
                }
                let set = self.layers[li].function_at(fi);
                let ghost found = top_function(self@, lower_chars(name@));
                assert(found == Some(set@));
                assert(set@.overloads == set.overloads@);
                if any_overload_accepts(&set.overloads, arg_count) {
                    proof {
                        let w = choose|i: int| 0 <= i < set.overloads@.len() && accepts(#[trigger] set.overloads@[i], arg_count as nat);
                        assert(found->0.overloads[w] == set.overloads@[w]);
                        assert(accepts(found->0.overloads[w], arg_count as nat));
                    }
                    FunctionCheckResult::Accepted
                } else {
                    FunctionCheckResult::WrongArity { expected: expected_fixed_arities(&set.overloads) }
                }
            },
        }
    }

    /// Look up function metadata by name: the category of its first overload
    /// (scalar if it has none) and the arity of every overload.
    pub fn function_signature(&self, name: &str) -> (r: Option<(FunctionCategory, Vec<AritySpec>)>)
        requires
            self.wf(),
        ensures
            match top_function(self@, lower_chars(name@)) {
                None => r is None,
                Some(set) => r matches Some((c, ars)) && c == (if set.overloads.len() > 0 {
                    set.overloads[0].category
                } else {
                    FunctionCategory::Scalar
                }) && ars@ == overload_arities(set.overloads),
            },
    {
        match self.find_function(name) {
            None => None,
            Some((li, fi)) => {
                proof {
                    self.lemma_layer(li as int);
                }
                let set = self.layers[li].function_at(fi);
                let category = if set.overloads.len() > 0 {
                    set.overloads[0].category
                } else {
                    FunctionCategory::Scalar
                };
                let mut arities: Vec<AritySpec> = Vec::new();
                let mut j: usize = 0;
                while j < set.overloads.len()
                    invariant
                        0 <= j <= set.overloads@.len(),
                        arities@ == overload_arities(set.overloads@.take(j as int)),
                    decreases set.overloads@.len() - j,
                {
                    arities.push(set.overloads[j].arity);
                    j += 1;
                    assert(arities@ =~= overload_arities(set.overloads@.take(j as int)));
                }
                assert(set.overloads@.take(j as int) =~= set.overloads@);
                Some((category, arities))
            },
        }
    }

    /// Return the column list for a table or table-valued function.
    ///
    /// - `Some(cols)` — found with a known column list.
    /// - `None` — not found, or found but columns are unknown (suppress
    ///   column errors).
    pub fn columns_for_table_source(&self, name: &str) -> (r: Option<Vec<String>>)
        requires
            self.wf(),
        ensures
            columns_view(r) == table_source_columns(self@, lower_chars(name@)),
    {
        let ghost ls = self@;
        let ghost k = lower_chars(name@);
        let mut i = self.layers.len();
        assert(ls.take(i as int) =~= ls);
        while i > 0
            invariant
                0 <= i <= ls.len(),
                ls == self@,
                k == lower_chars(name@),
                self.wf(),
                table_source_columns(ls, k) == table_source_columns(ls.take(i as int), k),
            decreases i,
        {
            i -= 1;
            proof {
                lemma_top_step(ls, i as int, k);
                self.lemma_layer(i as int);
            }
            let layer = &self.layers[i];
            match layer.relation_index(name) {
                Some(ri) => {
                    let rel = layer.relation_at(ri);
                    return match &rel.columns {
                        Some(cols) => Some(copy_strings(cols)),
                        None => None,
                    };
                },
                None => {},
            }
            match layer.table_function_index(name) {
                Some(ti) => {
                    let tf = layer.table_function_at(ti);
                    return if tf.output_columns.len() == 0 {
                        None
                    } else {
                        Some(copy_strings(&tf.output_columns))
                    };
                },
                None => {},
            }
        }
        assert(ls.take(0).len() == 0);
        None
    }

    /// The column list of a FROM source and whether it lacks an implicit
    /// rowid (see [`table_source_columns`], [`table_source_without_rowid`]).
    pub fn table_source_info(&self, name: &str) -> (r: (Option<Vec<String>>, bool))
        requires
            self.wf(),
        ensures
            columns_view(r.0) == table_source_columns(self@, lower_chars(name@)),
            r.1 == table_source_without_rowid(self@, lower_chars(name@)),
    {
        let ghost ls = self@;
        let ghost k = lower_chars(name@);
        let mut i = self.layers.len();
        assert(ls.take(i as int) =~= ls);
        while i > 0
            invariant
                0 <= i <= ls.len(),
                ls == self@,
                k == lower_chars(name@),
                self.wf(),
                table_source_columns(ls, k) == table_source_columns(ls.take(i as int), k),
                table_source_without_rowid(ls, k) == table_source_without_rowid(ls.take(i as int), k),
            decreases i,
        {
            i -= 1;
            proof {
                lemma_top_step(ls, i as int, k);
                self.lemma_layer(i as int);
            }
            let layer = &self.layers[i];
            match layer.relation_index(name) {
                Some(ri) => {
                    let rel = layer.relation_at(ri);
                    let cols = match &rel.columns {
                        Some(cols) => Some(copy_strings(cols)),
                        None => None,
                    };
                    return (cols, rel.without_rowid);
                },
                None => {},
            }
            match layer.table_function_index(name) {
                Some(ti) => {
                    let tf = layer.table_function_at(ti);
                    let cols = if tf.output_columns.len() == 0 {
                        None
                    } else {
                        Some(copy_strings(&tf.output_columns))
                    };
                    return (cols, false);
                },
                None => {},
            }
        }
        assert(ls.take(0).len() == 0);
        (None, false)
    }

    /// Every relation name, once per name ignoring case (the first in
    /// resolution order wins), sorted by lowercase form.
    pub fn all_relation_names(&self) -> (r: Vec<String>)
        requires
            self.wf(),
        ensures
            is_key_summary(string_views(r@), relation_names(relations_in_search_order(self@))),
    {
        let ghost ls = self@;
        let mut out: Vec<String> = Vec::new();
        let mut i = self.layers.len();
        proof {
            lemma_key_summary_empty();
            assert(string_views(out@) =~= Seq::<Seq<char>>::empty());
            assert(relation_names(relations_in_search_order(ls.skip(i as int))) =~= Seq::<Seq<char>>::empty());
        }
        while i > 0
            invariant
                0 <= i <= ls.len(),
                ls == self@,
                self.wf(),
                is_key_summary(string_views(out@), relation_names(relations_in_search_order(ls.skip(i as int)))),
            decreases i,
        {
            i -= 1;
            proof {
                lemma_search_order_step(ls, i as int);
                self.lemma_layer(i as int);
            }
            let ghost done = relations_in_search_order(ls.skip(i + 1));
            let ghost here = ls[i as int].relations.map_values(|e: (Seq<char>, RelationView)| e.1);
            let layer = &self.layers[i];
            let n = layer.relation_count();
            let mut j: usize = 0;
            assert(done + here.take(0) =~= done);
            while j < n
                invariant
                    0 <= j <= n,
                    n == here.len(),
                    layer@ == ls[i as int],
                    layer.wf(),
                    here == ls[i as int].relations.map_values(|e: (Seq<char>, RelationView)| e.1),
                    is_key_summary(string_views(out@), relation_names(done + here.take(j as int))),
                decreases n - j,
            {
                let rel = layer.relation_at(j);
                add_to_key_summary(&mut out, rel.name.as_str(), Ghost(relation_names(done + here.take(j as int))));
                proof {
                    assert(done + here.take(j + 1) =~= (done + here.take(j as int)).push(rel@));
                    assert(relation_names(done + here.take(j + 1)) =~= relation_names(done + here.take(j as int)).push(rel@.name));
                }
                j += 1;
            }
            assert(here.take(n as int) =~= here);
        }
        assert(ls.skip(0) =~= ls);
        out
    }

    /// Every function name, once per name ignoring case (the first in
    /// resolution order wins), sorted by lowercase form.
    pub fn all_function_names(&self) -> (r: Vec<String>)
        requires
            self.wf(),
        ensures
            is_key_summary(string_views(r@), function_names_in_search_order(self@)),
    {
        let ghost ls = self@;
        let mut out: Vec<String> = Vec::new();
        let mut i = self.layers.len();
        proof {
            lemma_key_summary_empty();
            assert(string_views(out@) =~= Seq::<Seq<char>>::empty());
            assert(function_names_in_search_order(ls.skip(i as int)) =~= Seq::<Seq<char>>::empty());
        }
        while i > 0
            invariant
                0 <= i <= ls.len(),
                ls == self@,
                self.wf(),
                is_key_summary(string_views(out@), function_names_in_search_order(ls.skip(i as int))),
            decreases i,
        {
            i -= 1;
            proof {
                lemma_search_order_step(ls, i as int);
                self.lemma_layer(i as int);
            }
            let ghost done = function_names_in_search_order(ls.skip(i + 1));
            let ghost here = ls[i as int].functions.map_values(|e: (Seq<char>, FunctionSetView)| e.1.name);
            let layer = &self.layers[i];
            let n = layer.function_count();
            let mut j: usize = 0;
            assert(done + here.take(0) =~= done);
            while j < n
                invariant
                    0 <= j <= n,
                    n == here.len(),
                    layer@ == ls[i as int],
                    layer.wf(),
                    here == ls[i as int].functions.map_values(|e: (Seq<char>, FunctionSetView)| e.1.name),
                    is_key_summary(string_views(out@), done + here.take(j as int)),
                decreases n - j,
            {
                let f = layer.function_at(j);
                add_to_key_summary(&mut out, f.name.as_str(), Ghost(done + here.take(j as int)));
                proof {
                    assert(done + here.take(j + 1) =~= (done + here.take(j as int)).push(f@.name));
                }
                j += 1;
            }
            assert(here.take(n as int) =~= here);
        }
        assert(ls.skip(0) =~= ls);
        out
    }

    /// Every table-valued function name, once per name ignoring case (the
    /// first in resolution order wins), sorted by lowercase form.
    pub fn all_table_function_names(&self) -> (r: Vec<String>)
        requires
            self.wf(),
        ensures
            is_key_summary(string_views(r@), table_function_names_in_search_order(self@)),
    {
        let ghost ls = self@;
        let mut out: Vec<String> = Vec::new();
        let mut i = self.layers.len();
        proof {
            lemma_key_summary_empty();
            assert(string_views(out@) =~= Seq::<Seq<char>>::empty());
            assert(table_function_names_in_search_order(ls.skip(i as int)) =~= Seq::<Seq<char>>::empty());
        }
        while i > 0
            invariant
                0 <= i <= ls.len(),
                ls == self@,
                self.wf(),
                is_key_summary(string_views(out@), table_function_names_in_search_order(ls.skip(i as int))),
            decreases i,
        {
            i -= 1;
            proof {
                lemma_search_order_step(ls, i as int);
                self.lemma_layer(i as int);
            }
            let ghost done = table_function_names_in_search_order(ls.skip(i + 1));
            let ghost here = ls[i as int].table_functions.map_values(|e: (Seq<char>, TableFunctionView)| e.1.name);
            let layer = &self.layers[i];
            let n = layer.table_function_count();
            let mut j: usize = 0;
            assert(done + here.take(0) =~= done);
            while j < n
                invariant
                    0 <= j <= n,
                    n == here.len(),
                    layer@ == ls[i as int],
                    layer.wf(),
                    here == ls[i as int].table_functions.map_values(|e: (Seq<char>, TableFunctionView)| e.1.name),
                    is_key_summary(string_views(out@), done + here.take(j as int)),
                decreases n - j,
            {
                let f = layer.table_function_at(j);
                add_to_key_summary(&mut out, f.name.as_str(), Ghost(done + here.take(j as int)));
                proof {
                    assert(done + here.take(j + 1) =~= (done + here.take(j as int)).push(f@.name));
                }
                j += 1;
            }
            assert(here.take(n as int) =~= here);
        }
        assert(ls.skip(0) =~= ls);
        out
    }

    /// The distinct lowercase column names of every relation (or, when
    /// `table` is given, of the relations with that name ignoring case),
    /// sorted.
    pub fn all_column_names(&self, table: Option<&str>) -> (r: Vec<String>)
        requires
            self.wf(),
        ensures
            is_key_summary(string_views(r@), filtered_column_names(relations_in_search_order(self@), opt_str_view(table))),
    {
        let ghost ls = self@;
        let ghost t = opt_str_view(table);
        let mut out: Vec<String> = Vec::new();
        let mut i = self.layers.len();
        proof {
            lemma_key_summary_empty();
            assert(string_views(out@) =~= Seq::<Seq<char>>::empty());
            assert(relations_in_search_order(ls.skip(i as int)) =~= Seq::<RelationView>::empty());
        }
        while i > 0
            invariant
                0 <= i <= ls.len(),
                ls == self@,
                self.wf(),
                t == opt_str_view(table),
                is_key_summary(string_views(out@), filtered_column_names(relations_in_search_order(ls.skip(i as int)), t)),
            decreases i,
        {
            i -= 1;
            proof {
                lemma_search_order_step(ls, i as int);
                self.lemma_layer(i as int);
            }
            let ghost done = relations_in_search_order(ls.skip(i + 1));
            let ghost here = ls[i as int].relations.map_values(|e: (Seq<char>, RelationView)| e.1);
            let layer = &self.layers[i];
            let n = layer.relation_count();
            let mut j: usize = 0;
            assert(done + here.take(0) =~= done);
            while j < n
                invariant
                    0 <= j <= n,
                    n == here.len(),
                    layer@ == ls[i as int],
                    layer.wf(),
                    t == opt_str_view(table),
                    here == ls[i as int].relations.map_values(|e: (Seq<char>, RelationView)| e.1),
                    is_key_summary(string_views(out@), filtered_column_names(done + here.take(j as int), t)),
                decreases n - j,
            {
                let rel = layer.relation_at(j);
                let ghost pre = done + here.take(j as int);
                let passes = match table {
                    Some(tn) => eq_ignore_ascii_case(rel.name.as_str(), tn),
                    None => true,
                };
                proof {
                    assert(pre.push(rel@).drop_last() =~= pre);
                    assert(done + here.take(j + 1) =~= pre.push(rel@));
                }
                match &rel.columns {
                    Some(cols) => {
                        if passes {
                            let ghost own = own_column_names(rel@, t);
                            let mut c: usize = 0;
                            while c < cols.len()
                                invariant
                                    0 <= c <= cols@.len(),
                                    own == string_views(cols@).map_values(|x: Seq<char>| lower_chars(x)),
                                    is_key_summary(string_views(out@), filtered_column_names(pre, t) + own.take(c as int)),
                                decreases cols@.len() - c,
                            {
                                let lower = ascii_lowercase(cols[c].as_str());
                                add_to_key_summary(&mut out, lower.as_str(), Ghost(filtered_column_names(pre, t) + own.take(c as int)));
                                proof {
                                    assert(filtered_column_names(pre, t) + own.take(c + 1) =~= (filtered_column_names(pre, t) + own.take(c as int)).push(lower@));
                                }
                                c += 1;
                            }
                            assert(own.take(c as int) =~= own);
                        } else {
                            assert(own_column_names(rel@, t) =~= Seq::<Seq<char>>::empty());
                            assert(filtered_column_names(pre, t) + own_column_names(rel@, t) =~= filtered_column_names(pre, t));
                        }
                    },
                    None => {
                        assert(filtered_column_names(pre, t) + own_column_names(rel@, t) =~= filtered_column_names(pre, t));
                    },
                }
                j += 1;
            }
            assert(here.take(n as int) =~= here);
        }
        assert(ls.skip(0) =~= ls);
        out
    }

    /// Resolve `table.column` (when `table` is given) or a bare `column`.
    pub fn resolve_column(&self, table: Option<&str>, column: &str) -> (r: ColumnResolution)
        requires
            self.wf(),
        ensures
            r@ == match table {
                Some(t) => qualified_resolution(self@, t@, column@),
                None => unqualified_resolution(relations_in_search_order(self@), column@),
            },
    {
        match table {
            Some(tbl) => self.resolve_qualified_column(tbl, column),
            None => self.resolve_unqualified_column(column),
        }
    }

    fn resolve_qualified_column(&self, table: &str, column: &str) -> (r: ColumnResolution)
        requires
            self.wf(),
        ensures
            r@ == qualified_resolution(self@, table@, column@),
    {
        let ghost ls = self@;
        let ghost k = lower_chars(table@);
        let mut i = self.layers.len();
        assert(ls.take(i as int) =~= ls);
        while i > 0
            invariant
                0 <= i <= ls.len(),
                ls == self@,
                k == lower_chars(table@),
                self.wf(),
                top_relation(ls, k) == top_relation(ls.take(i as int), k),
            decreases i,
        {
            i -= 1;
            proof {
                lemma_top_step(ls, i as int, k);
                self.lemma_layer(i as int);
            }
            let layer = &self.layers[i];
            match layer.relation_index(table) {
                Some(ri) => {
                    let rel = layer.relation_at(ri);
                    return match &rel.columns {
                        Some(cols) => {
                            if any_column_matches(cols, column) || is_implicit_rowid(column, rel) {
                                ColumnResolution::Found { table: rel.name.clone(), all_columns: copy_strings(cols) }
                            } else {
                                ColumnResolution::TableFoundColumnMissing
                            }
                        },
                        None => {
                            let empty: Vec<String> = Vec::new();
                            assert(string_views(empty@) =~= Seq::<Seq<char>>::empty());
                            ColumnResolution::Found { table: rel.name.clone(), all_columns: empty }
                        },
                    };
                },
                None => {},
            }
        }
        assert(ls.take(0).len() == 0);
        ColumnResolution::TableNotFound
    }

    fn resolve_unqualified_column(&self, column: &str) -> (r: ColumnResolution)
        requires
            self.wf(),
        ensures
            r@ == unqualified_resolution(relations_in_search_order(self@), column@),
    {
        let ghost ls = self@;
        let ghost all = relations_in_search_order(ls);
        let mut has_unknown = false;
        let mut i = self.layers.len();
        assert(ls.skip(i as int).len() == 0);
        assert(relations_in_search_order(ls.skip(i as int)) =~= Seq::<RelationView>::empty());
        while i > 0
            invariant
                0 <= i <= ls.len(),
                ls == self@,
                self.wf(),
                all == relations_in_search_order(ls),
                forall|k: int| 0 <= k < relations_in_search_order(ls.skip(i as int)).len()
                    ==> !relation_has_column(#[trigger] relations_in_search_order(ls.skip(i as int))[k], column@),
                has_unknown == exists|k: int| 0 <= k < relations_in_search_order(ls.skip(i as int)).len()
                    && (#[trigger] relations_in_search_order(ls.skip(i as int))[k]).columns is None,
            decreases i,
        {
            i -= 1;
            proof {
                lemma_search_order_step(ls, i as int);
                self.lemma_layer(i as int);
            }
            let ghost done = relations_in_search_order(ls.skip(i + 1));
            let ghost here = ls[i as int].relations.map_values(|e: (Seq<char>, RelationView)| e.1);
            let layer = &self.layers[i];
            let n = layer.relation_count();
            let mut j: usize = 0;
            while j < n
                invariant
                    0 <= j <= n,
                    n == here.len(),
                    ls == self@,
                    self.wf(),
                    i < ls.len(),
                    layer@ == ls[i as int],
                    layer.wf(),
                    here == ls[i as int].relations.map_values(|e: (Seq<char>, RelationView)| e.1),
                    done == relations_in_search_order(ls.skip(i + 1)),
                    relations_in_search_order(ls.skip(i as int)) == done + here,
                    all == relations_in_search_order(ls),
                    forall|k: int| 0 <= k < (done + here.take(j as int)).len()
                        ==> !relation_has_column(#[trigger] (done + here.take(j as int))[k], column@),
                    has_unknown == exists|k: int| 0 <= k < (done + here.take(j as int)).len()
                        && (#[trigger] (done + here.take(j as int))[k]).columns is None,
                decreases n - j,
            {
                let rel = layer.relation_at(j);
                let ghost pre = done + here.take(j as int);
                assert(done + here.take(j + 1) =~= pre.push(rel@));
                match &rel.columns {
                    Some(cols) => {
                        if any_column_matches(cols, column) || is_implicit_rowid(column, rel) {
                            proof {
                                let p = pre.len() as int;
                                lemma_search_order_prefix(ls, i as int);
                                assert(all.subrange(0, p + 1) =~= pre.push(rel@));
                                assert(all.subrange(0, p + 1)[p] == rel@);
                                assert(all[p] == rel@);
                                assert(rel@.columns == Some(string_views(cols@)));
                                assert(relation_has_column(rel@, column@));
                                assert forall|q: int| 0 <= q < p implies !relation_has_column(#[trigger] all[q], column@) by {
                                    assert(all.subrange(0, p + 1)[q] == all[q]);
                                    assert(pre.push(rel@)[q] == pre[q]);
                                }
                                assert(first_having(all, column@, p));
                                assert forall|q: int| #[trigger] first_having(all, column@, q) implies q == p by {
                                    if q < p {
                                        assert(all.subrange(0, p + 1)[q] == all[q]);
                                    }
                                }
                            }
                            return ColumnResolution::Found { table: rel.name.clone(), all_columns: copy_strings(cols) };
                        }
                    },
                    None => {
                        has_unknown = true;
                    },
                }
                proof {
                    let pre1 = done + here.take(j + 1);
                    assert forall|k: int| 0 <= k < pre1.len() implies !relation_has_column(#[trigger] pre1[k], column@) by {
                        if k < pre.len() {
                            assert(pre1[k] == pre[k]);
                        }
                    }
                    if has_unknown {
                        if rel@.columns is None {
                            assert(pre1[pre.len() as int] == rel@);
                        } else {
                            let k = choose|k: int| 0 <= k < pre.len() && (#[trigger] pre[k]).columns is None;
                            assert(pre1[k] == pre[k]);
                        }
                    } else {
                        assert forall|k: int| 0 <= k < pre1.len() implies !((#[trigger] pre1[k]).columns is None) by {
                            if k < pre.len() {
                                assert(pre1[k] == pre[k]);
                            }
                        }
                    }
                }
                j += 1;
            }
            assert(here.take(n as int) =~= here);
            assert(relations_in_search_order(ls.skip(i as int)) =~= done + here);
        }
        assert(ls.skip(0) =~= ls);
        proof {
            assert(!exists|q: int| first_having(all, column@, q));
        }
        if has_unknown {
            let empty_cols: Vec<String> = Vec::new();
            assert(string_views(empty_cols@) =~= Seq::<Seq<char>>::empty());
            ColumnResolution::Found { table: String::new(), all_columns: empty_cols }
        } else {
            ColumnResolution::NotFound
        }
    }
}


/// The search order of all layers starts with that of the layers from `i` up.
pub proof fn lemma_search_order_prefix(ls: Seq<LayerModel>, i: int)
    requires
        0 <= i <= ls.len(),
    ensures
        relations_in_search_order(ls.skip(i)).len() <= relations_in_search_order(ls).len(),
        relations_in_search_order(ls).subrange(0, relations_in_search_order(ls.skip(i)).len() as int)
            == relations_in_search_order(ls.skip(i)),
    decreases i,
{
    if i == 0 {
        assert(ls.skip(0) =~= ls);
        assert(relations_in_search_order(ls).subrange(0, relations_in_search_order(ls).len() as int) =~= relations_in_search_order(ls));
    } else {
        lemma_search_order_prefix(ls, i - 1);
        lemma_search_order_step(ls, i - 1);
        let a = relations_in_search_order(ls.skip(i - 1));
        let b = relations_in_search_order(ls.skip(i));
        let all = relations_in_search_order(ls);
        assert(all.subrange(0, b.len() as int) =~= a.subrange(0, b.len() as int));
        assert(a.subrange(0, b.len() as int) =~= b);
    }
}

/// Whether some column in `cols` matches `column` ignoring ASCII case.
pub(crate) fn any_column_matches(cols: &Vec<String>, column: &str) -> (r: bool)
    ensures
        r == has_column(string_views(cols@), column@),
{
    let ghost views = string_views(cols@);
    let mut i: usize = 0;
    while i < cols.len()
        invariant
            0 <= i <= cols@.len(),
            views == string_views(cols@),
            forall|k: int| 0 <= k < i ==> !same_ignoring_case(#[trigger] views[k], column@),
        decreases cols@.len() - i,
    {
        if eq_ignore_ascii_case(cols[i].as_str(), column) {
            assert(same_ignoring_case(views[i as int], column@));
            return true;
        }
        i += 1;
    }
    false
}

/// `SQLite`'s implicit rowid aliases: `rowid`, `oid`, `_rowid_`.
pub(crate) fn is_rowid_alias(column: &str) -> (r: bool)
    ensures
        r == is_rowid_alias_spec(column@),
{
    eq_ignore_ascii_case(column, "rowid") || eq_ignore_ascii_case(column, "oid") || eq_ignore_ascii_case(column, "_rowid_")
}

/// Check whether `column` is an implicit rowid alias that `SQLite` provides
/// on every table unless it is declared WITHOUT ROWID.
fn is_implicit_rowid(column: &str, rel: &RelationEntry) -> (r: bool)
    ensures
        r == implicit_rowid(column@, rel@),
{
    if rel.without_rowid {
        return false;
    }
    is_rowid_alias(column)
}

fn overload_accepts(overload: FunctionOverload, arg_count: usize) -> (r: bool)
    ensures
        r == accepts(overload, arg_count as nat),
{
    match overload.arity {
        AritySpec::Exact(n) => n == arg_count,
        AritySpec::AtLeast(min) => arg_count >= min,
        AritySpec::Any => true,
    }
}

pub(crate) fn any_overload_accepts(ovs: &Vec<FunctionOverload>, arg_count: usize) -> (r: bool)
    ensures
        r == exists|i: int| 0 <= i < ovs@.len() && accepts(#[trigger] ovs@[i], arg_count as nat),
{
    let mut i: usize = 0;
    while i < ovs.len()
        invariant
            0 <= i <= ovs@.len(),
            forall|k: int| 0 <= k < i ==> !accepts(#[trigger] ovs@[k], arg_count as nat),
        decreases ovs@.len() - i,
    {
        if overload_accepts(ovs[i], arg_count) {
            return true;
        }
        i += 1;
    }
    false
}

/// The fixed arities among `ovs`, increasing and without repeats.
pub(crate) fn expected_fixed_arities(ovs: &Vec<FunctionOverload>) -> (r: Vec<usize>)
    ensures
        is_fixed_arity_list(r@, ovs@),
{
    let mut out: Vec<usize> = Vec::new();
    let mut i: usize = 0;
    while i < ovs.len()
        invariant
            0 <= i <= ovs@.len(),
            strictly_increasing(out@),
            forall|n: usize| out@.contains(n) <==> exists|k: int| 0 <= k < i && #[trigger] ovs@[k].arity == AritySpec::Exact(n),
        decreases ovs@.len() - i,
    {
        match ovs[i].arity {
            AritySpec::Exact(n) => {
                insert_sorted_unique(&mut out, n);
            },
            _ => {},
        }
        proof {
            assert forall|n: usize| out@.contains(n) <==> exists|k: int| 0 <= k < i + 1 && #[trigger] ovs@[k].arity == AritySpec::Exact(n) by {
                if exists|k: int| 0 <= k < i + 1 && #[trigger] ovs@[k].arity == AritySpec::Exact(n) {
                    let k = choose|k: int| 0 <= k < i + 1 && #[trigger] ovs@[k].arity == AritySpec::Exact(n);
                    if k < i {
                        assert(exists|k2: int| 0 <= k2 < i && #[trigger] ovs@[k2].arity == AritySpec::Exact(n));
                    }
                }
            }
        }
        i += 1;
    }
    out
}

fn build_dialect_layer(layer: &mut CatalogLayerContents, dialect: &Dialect)
    requires
        old(layer).wf(),
        old(layer)@ == empty_layer(),
    ensures
        final(layer).wf(),
        final(layer)@ == dialect_layer(dialect.functions()),
{
    let fs = dialect.builtin_functions();
    let mut i: usize = 0;
    while i < fs.len()
        invariant
            0 <= i <= fs@.len(),
            fs@ == dialect.functions(),
            layer.wf(),
            layer@ == dialect_layer(fs@.take(i as int)),
        decreases fs@.len() - i,
    {
        let entry = &fs[i];
        proof {
            assert(fs@.take(i + 1).drop_last() =~= fs@.take(i as int));
        }
        match entry.category {
            DialectFunctionCategory::TableValued => {
                let no_columns: Vec<String> = Vec::new();
                assert(string_views(no_columns@) =~= Seq::<Seq<char>>::empty());
                layer.insert_table_function(entry.name.as_str(), AritySpec::Any, no_columns);
            },
            _ => {
                let category = map_function_category(entry.category);
                layer.insert_function_arities(entry.name.as_str(), category, entry.arities.as_slice());
            },
        }
        i += 1;
    }
    assert(fs@.take(i as int) =~= fs@);
}

fn map_function_category(category: DialectFunctionCategory) -> (r: FunctionCategory)
    ensures
        r == catalog_category(category),
{
    match category {
        DialectFunctionCategory::Scalar | DialectFunctionCategory::TableValued => FunctionCategory::Scalar,
        DialectFunctionCategory::Aggregate => FunctionCategory::Aggregate,
        DialectFunctionCategory::Window => FunctionCategory::Window,
    }
}


// ── Laws ─────────────────────────────────────────────────────────────────────

/// A relation stored in any layer is found by resolution.
pub proof fn lemma_top_relation_some(ls: Seq<LayerModel>, j: int, k: Seq<char>)
    requires
        0 <= j < ls.len(),
        lookup(ls[j].relations, k) is Some,
    ensures
        top_relation(ls, k) is Some,
    decreases ls.len(),
{
    if j < ls.len() - 1 && lookup(ls.last().relations, k) is None {
        assert(ls.drop_last()[j] == ls[j]);
        lemma_top_relation_some(ls.drop_last(), j, k);
    }
}

/// A registered table or view resolves under any spelling of its name that
/// differs only in ASCII case, whatever layer it was registered in.
pub proof fn law_registered_relation_resolves(
    ls: Seq<LayerModel>,
    i: int,
    name: Seq<char>,
    columns: Option<Seq<Seq<char>>>,
    without_rowid: bool,
    is_view: bool,
    query: Seq<char>,
)
    requires
        0 <= i < ls.len(),
        layer_wf(ls[i]),
        same_ignoring_case(name, query),
    ensures
        top_relation(ls.update(i, layer_with_relation(ls[i], name, columns, without_rowid, is_view)), lower_chars(query)) is Some,
{
    let v = RelationView { name, columns, without_rowid, is_view };
    lemma_assoc_insert(ls[i].relations, lower_chars(name), v);
    lemma_top_relation_some(ls.update(i, layer_with_relation(ls[i], name, columns, without_rowid, is_view)), i, lower_chars(query));
}

/// A table registered with unknown columns accepts every column: any
/// `table.column` reference to it resolves, whatever the column.
pub proof fn law_unknown_columns_accept_every_column(
    ls: Seq<LayerModel>,
    i: int,
    name: Seq<char>,
    without_rowid: bool,
    is_view: bool,
    query: Seq<char>,
    column: Seq<char>,
)
    requires
        0 <= i < ls.len(),
        layer_wf(ls[i]),
        same_ignoring_case(name, query),
        forall|j: int| i < j < ls.len() ==> lookup((#[trigger] ls[j]).relations, lower_chars(query)) is None,
    ensures
        qualified_resolution(ls.update(i, layer_with_relation(ls[i], name, None, without_rowid, is_view)), query, column) is Found,
{
    let v = RelationView { name, columns: None, without_rowid, is_view };
    let ls2 = ls.update(i, layer_with_relation(ls[i], name, None, without_rowid, is_view));
    lemma_assoc_insert(ls[i].relations, lower_chars(name), v);
    lemma_top_relation_some(ls2, i, lower_chars(query));
    assert(lower_chars(name) == lower_chars(query));
    lemma_top_relation_is(ls2, i, lower_chars(query));
}

/// The relation found for `k` is that of layer `j` when no layer above `j`
/// has one.
proof fn lemma_top_relation_is(ls: Seq<LayerModel>, j: int, k: Seq<char>)
    requires
        0 <= j < ls.len(),
        lookup(ls[j].relations, k) is Some,
        forall|m: int| j < m < ls.len() ==> lookup((#[trigger] ls[m]).relations, k) is None,
    ensures
        top_relation(ls, k) == lookup(ls[j].relations, k),
    decreases ls.len(),
{
    if j < ls.len() - 1 {
        assert(lookup(ls[ls.len() - 1].relations, k) is None);
        assert forall|m: int| j < m < ls.drop_last().len() implies lookup((#[trigger] ls.drop_last()[m]).relations, k) is None by {
            assert(ls.drop_last()[m] == ls[m]);
        }
        assert(ls.drop_last()[j] == ls[j]);
        lemma_top_relation_is(ls.drop_last(), j, k);
    }
}

/// Resolution ignores ASCII case: names that differ only in case resolve to
/// the same relation, function and table-valued function.
pub proof fn law_resolution_ignores_case(ls: Seq<LayerModel>, a: Seq<char>, b: Seq<char>)
    requires
        same_ignoring_case(a, b),
    ensures
        top_relation(ls, lower_chars(a)) == top_relation(ls, lower_chars(b)),
        top_function(ls, lower_chars(a)) == top_function(ls, lower_chars(b)),
        top_table_function(ls, lower_chars(a)) == top_table_function(ls, lower_chars(b)),
        table_source_columns(ls, lower_chars(a)) == table_source_columns(ls, lower_chars(b)),
{
}

/// The highest layer holding a name decides: a query scope shadows the
/// document, the document the connection, the connection the database, and
/// the database the dialect.
pub proof fn law_highest_layer_decides(ls: Seq<LayerModel>, j: int, k: Seq<char>)
    requires
        0 <= j < ls.len(),
    ensures
        lookup(ls[j].relations, k) is Some && (forall|m: int| j < m < ls.len() ==> lookup(#[trigger] ls[m].relations, k) is None)
            ==> top_relation(ls, k) == lookup(ls[j].relations, k),
        lookup(ls[j].functions, k) is Some && (forall|m: int| j < m < ls.len() ==> lookup(#[trigger] ls[m].functions, k) is None)
            ==> top_function(ls, k) == lookup(ls[j].functions, k),
        lookup(ls[j].table_functions, k) is Some && (forall|m: int| j < m < ls.len() ==> lookup(
            #[trigger] ls[m].table_functions,
            k,
        ) is None) ==> top_table_function(ls, k) == lookup(ls[j].table_functions, k),
    decreases ls.len(),
{
    if j < ls.len() - 1 {
        let d = ls.drop_last();
        law_highest_layer_decides(d, j, k);
        assert(d[j] == ls[j]);
        assert forall|m: int| j < m < d.len() implies #[trigger] d[m] == ls[m] by {}
    }
}

/// The dialect layer holds functions only.
pub proof fn law_dialect_layer_has_no_relations(fs: Seq<BuiltinFunction>)
    ensures
        dialect_layer(fs).relations == Seq::<(Seq<char>, RelationView)>::empty(),
    decreases fs.len(),
{
    if fs.len() > 0 {
        law_dialect_layer_has_no_relations(fs.drop_last());
    }
}

/// After switching to a new database (or on a new catalog), only what the
/// dialect layer holds resolves: no table or view of the old database,
/// connection or document remains.
pub proof fn law_fresh_database_resolves_dialect_only(d: LayerModel, k: Seq<char>)
    ensures
        top_relation(seq![d, empty_layer(), empty_layer(), empty_layer()], k) == lookup(d.relations, k),
        top_function(seq![d, empty_layer(), empty_layer(), empty_layer()], k) == lookup(d.functions, k),
        top_table_function(seq![d, empty_layer(), empty_layer(), empty_layer()], k) == lookup(d.table_functions, k),
{
    let ls = seq![d, empty_layer(), empty_layer(), empty_layer()];
    reveal_with_fuel(top_relation, 5);
    reveal_with_fuel(top_function, 5);
    reveal_with_fuel(top_table_function, 5);
    assert(lookup(empty_layer().relations, k) is None);
    assert(lookup(empty_layer().functions, k) is None);
    assert(lookup(empty_layer().table_functions, k) is None);
    assert(ls.drop_last() =~= seq![d, empty_layer(), empty_layer()]);
    assert(ls.drop_last().drop_last() =~= seq![d, empty_layer()]);
    assert(ls.drop_last().drop_last().drop_last() =~= seq![d]);
    assert(ls.drop_last().drop_last().drop_last().drop_last() =~= Seq::<LayerModel>::empty());
}

/// Closing a query scope undoes opening one.
pub proof fn law_pop_undoes_push(ls: Seq<LayerModel>)
    requires
        ls.len() >= FIXED_LAYER_COUNT,
    ensures
        ls.push(empty_layer()).len() > FIXED_LAYER_COUNT,
        ls.push(empty_layer()).drop_last() == ls,
{
    assert(ls.push(empty_layer()).drop_last() =~= ls);
}

/// Looking up a name after a merge: the merged-in entry if there is one,
/// the original otherwise.
pub proof fn lemma_lookup_merge<V>(a: Seq<(Seq<char>, V)>, b: Seq<(Seq<char>, V)>, k: Seq<char>)
    requires
        keys_unique(a),
    ensures
        lookup(assoc_merge(a, b), k) == match lookup(b, k) {
            Some(v) => Some(v),
            None => lookup(a, k),
        },
    decreases b.len(),
{
    if b.len() > 0 {
        let m = assoc_merge(a, b.drop_last());
        lemma_lookup_merge(a, b.drop_last(), k);
        lemma_merge_unique(a, b.drop_last());
        lemma_assoc_insert(m, b.last().0, b.last().1);
        lemma_last_index_of(b, k);
        lemma_last_index_of(b.drop_last(), k);
        if b.last().0 != k {
            assert(last_index_of(b, k) == last_index_of(b.drop_last(), k));
            if last_index_of(b, k) >= 0 {
                assert(b.drop_last()[last_index_of(b, k)] == b[last_index_of(b, k)]);
            }
        }
    }
}

/// Promoting the document layer into the connection layer keeps every
/// document entry visible there, in place of a connection entry of the same
/// name; other connection entries stay.
pub proof fn law_promotion_keeps_document_entries(c: LayerModel, d: LayerModel, k: Seq<char>)
    requires
        layer_wf(c),
    ensures
        lookup(merged_layer(c, d).relations, k) == match lookup(d.relations, k) {
            Some(r) => Some(r),
            None => lookup(c.relations, k),
        },
        lookup(merged_layer(c, d).functions, k) == match lookup(d.functions, k) {
            Some(f) => Some(f),
            None => lookup(c.functions, k),
        },
        lookup(merged_layer(c, d).table_functions, k) == match lookup(d.table_functions, k) {
            Some(f) => Some(f),
            None => lookup(c.table_functions, k),
        },
{
    lemma_lookup_merge(c.relations, d.relations, k);
    lemma_lookup_merge(c.functions, d.functions, k);
    lemma_lookup_merge(c.table_functions, d.table_functions, k);
}


// ── Schema descriptions ──────────────────────────────────────────────────────

/// The column list a declared table contributes: unknown when it lists no
/// columns, otherwise the lowercase names.
pub open spec fn declared_columns(cols: Seq<Seq<char>>) -> Option<Seq<Seq<char>>> {
    if cols.len() == 0 {
        None
    } else {
        Some(cols.map_values(|c: Seq<char>| lower_chars(c)))
    }
}

/// The layer after registering declared tables (or views) in order.
pub open spec fn with_declared_relations(
    m: LayerModel,
    ts: Seq<crate::schema::TableInputView>,
    without_rowid: bool,
) -> LayerModel
    decreases ts.len(),
{
    if ts.len() == 0 {
        m
    } else {
        let t = ts.last();
        layer_with_relation(
            with_declared_relations(m, ts.drop_last(), without_rowid),
            t.name,
            declared_columns(t.columns),
            without_rowid,
            without_rowid,
        )
    }
}

/// The arity a declared argument count stands for.
pub open spec fn declared_arity(args: Option<usize>) -> AritySpec {
    match args {
        Some(n) => AritySpec::Exact(n),
        None => AritySpec::Any,
    }
}

/// The function table after registering declared functions in order, as
/// scalar functions.
pub open spec fn with_declared_functions(
    fs: Seq<(Seq<char>, FunctionSetView)>,
    inputs: Seq<crate::schema::FunctionInputView>,
) -> Seq<(Seq<char>, FunctionSetView)>
    decreases inputs.len(),
{
    if inputs.len() == 0 {
        fs
    } else {
        let f = inputs.last();
        with_overload(
            with_declared_functions(fs, inputs.drop_last()),
            f.name,
            FunctionOverload { category: FunctionCategory::Scalar, arity: declared_arity(f.args) },
        )
    }
}

/// The database layer a schema description yields: its tables, then its
/// views, then its functions.
pub open spec fn declared_layer(schema: crate::schema::SchemaInput) -> LayerModel {
    let rel = with_declared_relations(
        with_declared_relations(empty_layer(), crate::schema::table_views(schema.tables@), false),
        crate::schema::table_views(schema.views@),
        true,
    );
    LayerModel {
        functions: with_declared_functions(rel.functions, crate::schema::function_input_views(schema.functions@)),
        ..rel
    }
}

/// The lowercase forms of a list of names.
fn lowercase_all(v: &Vec<String>) -> (r: Vec<String>)
    ensures
        string_views(r@) == string_views(v@).map_values(|c: Seq<char>| lower_chars(c)),
{
    let mut out: Vec<String> = Vec::new();
    let mut i: usize = 0;
    while i < v.len()
        invariant
            0 <= i <= v@.len(),
            out@.len() == i,
            forall|k: int| 0 <= k < i ==> (#[trigger] out@[k])@ == lower_chars(v@[k]@),
        decreases v@.len() - i,
    {
        out.push(ascii_lowercase(v[i].as_str()));
        i += 1;
    }
    assert(string_views(out@) =~= string_views(v@).map_values(|c: Seq<char>| lower_chars(c)));
    out
}

/// Registers declared tables (or views) in a layer.
fn insert_declared(layer: &mut CatalogLayerContents, ts: &Vec<crate::schema::TableInput>, view: bool)
    requires
        old(layer).wf(),
    ensures
        final(layer).wf(),
        final(layer)@ == with_declared_relations(old(layer)@, crate::schema::table_views(ts@), view),
{
    let ghost tv = crate::schema::table_views(ts@);
    let mut i: usize = 0;
    assert(tv.take(0).len() == 0);
    while i < ts.len()
        invariant
            0 <= i <= ts@.len(),
            tv == crate::schema::table_views(ts@),
            layer.wf(),
            layer@ == with_declared_relations(old(layer)@, tv.take(i as int), view),
        decreases ts@.len() - i,
    {
        let t = &ts[i];
        let cols = if t.columns.len() == 0 {
            None
        } else {
            Some(lowercase_all(&t.columns))
        };
        assert(columns_view(cols) == declared_columns(t@.columns));
        if view {
            layer.insert_view(t.name.as_str(), cols);
        } else {
            layer.insert_table(t.name.as_str(), cols, false);
        }
        proof {
            assert(tv.take(i + 1).drop_last() =~= tv.take(i as int));
            assert(tv.take(i + 1).last() == t@);
        }
        i += 1;
    }
    assert(tv.take(i as int) =~= tv);
}

impl Catalog {
    /// A catalog for `dialect` whose database layer holds a declared schema:
    /// tables (with their lowercase column names, unknown when none are
    /// listed), views, and scalar functions (any argument count when none is
    /// given).
    pub fn from_schema(dialect: &Dialect, schema: &crate::schema::SchemaInput) -> (r: Self)
        ensures
            r.wf(),
            r@ == seq![dialect_layer(dialect.functions()), declared_layer(*schema), empty_layer(), empty_layer()],
    {
        let mut catalog = Catalog::new(dialect);
        let db = catalog.layer_mut(CatalogLayer::Database);
        insert_declared(db, &schema.tables, false);
        insert_declared(db, &schema.views, true);
        let ghost fv = crate::schema::function_input_views(schema.functions@);
        let ghost rel = db@;
        let mut i: usize = 0;
        assert(fv.take(0).len() == 0);
        while i < schema.functions.len()
            invariant
                0 <= i <= schema.functions@.len(),
                fv == crate::schema::function_input_views(schema.functions@),
                db.wf(),
                db@ == (LayerModel { functions: with_declared_functions(rel.functions, fv.take(i as int)), ..rel }),
            decreases schema.functions@.len() - i,
        {
            let f = &schema.functions[i];
            let arity = match f.args {
                Some(n) => AritySpec::Exact(n),
                None => AritySpec::Any,
            };
            db.insert_function_overload(f.name.as_str(), FunctionCategory::Scalar, arity);
            proof {
                assert(fv.take(i + 1).drop_last() =~= fv.take(i as int));
                assert(fv.take(i + 1).last() == f@);
            }
            i += 1;
        }
        assert(fv.take(i as int) =~= fv);
        catalog
    }
}

} // verus!
