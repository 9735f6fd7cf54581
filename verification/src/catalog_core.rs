//! A chain of catalog layers searched in precedence order, first layer first.

use vstd::prelude::*;

use crate::catalog::{
    any_overload_accepts, expected_fixed_arities, function_check_spec, functions_keyed, overloads_of_codes,
    register_arity_codes, register_overload, register_table_overload, table_functions_keyed, with_overload,
    with_overloads, with_table_overload, AritySpec, FunctionCategory, FunctionCheckResult, FunctionOverload,
    FunctionSet, FunctionSetView, TableFunctionSet, TableFunctionView,
};
use crate::table::{
    assoc_insert, keyed_by, keys_unique, lemma_assoc_insert, lemma_insert_keyed_by, lookup, DeepCopy, NameTable,
};
use crate::text::{
    add_to_key_summary, ascii_lowercase, is_key_summary, lemma_key_summary_empty, lower_chars, string_views,
};
use crate::table::copy_strings;

verus! {

/// A relation as a chain layer records it.
pub struct ChainRelationView {
    /// The name as it was registered.
    pub name: Seq<char>,
    /// The column names.
    pub columns: Seq<Seq<char>>,
}

/// A table or view with its columns.
pub struct RelationEntry {
    /// The name as it was registered.
    pub name: String,
    /// The column names.
    pub columns: Vec<String>,
}

impl View for RelationEntry {
    type V = ChainRelationView;

    open spec fn view(&self) -> ChainRelationView {
        ChainRelationView { name: self.name@, columns: string_views(self.columns@) }
    }
}

impl DeepCopy for RelationEntry {
    fn deep_copy(&self) -> (r: Self) {
        RelationEntry { name: self.name.clone(), columns: copy_strings(&self.columns) }
    }
}

/// The contents of one chain layer, each table keyed by lowercase name in
/// insertion order.
pub struct ChainLayerModel {
    /// Tables and views.
    pub relations: Seq<(Seq<char>, ChainRelationView)>,
    /// Scalar, aggregate and window functions.
    pub functions: Seq<(Seq<char>, FunctionSetView)>,
    /// Table-valued functions.
    pub table_functions: Seq<(Seq<char>, TableFunctionView)>,
}

/// One layer of schema objects.
pub struct CatalogLayer {
    relations: NameTable<RelationEntry>,
    functions: NameTable<FunctionSet>,
    table_functions: NameTable<TableFunctionSet>,
}

impl View for CatalogLayer {
    type V = ChainLayerModel;

    closed spec fn view(&self) -> ChainLayerModel {
        ChainLayerModel {
            relations: self.relations.entries(),
            functions: self.functions.entries(),
            table_functions: self.table_functions.entries(),
        }
    }
}

/// A layer with no entries.
pub open spec fn empty_chain_layer() -> ChainLayerModel {
    ChainLayerModel { relations: Seq::empty(), functions: Seq::empty(), table_functions: Seq::empty() }
}

impl Default for CatalogLayer {
    fn default() -> (r: Self)
        ensures
            r.wf(),
            r@ == empty_chain_layer(),
    {
        let r = CatalogLayer { relations: NameTable::new(), functions: NameTable::new(), table_functions: NameTable::new() };
        assert(r@.relations =~= Seq::<(Seq<char>, ChainRelationView)>::empty());
        r
    }
}

impl CatalogLayer {
    /// Each table is keyed by the lowercase names of its entries, once each.
    pub closed spec fn wf(&self) -> bool {
        &&& self.relations.wf()
        &&& self.functions.wf()
        &&& self.table_functions.wf()
        &&& keys_unique(self@.relations)
        &&& keyed_by(self@.relations, |r: ChainRelationView| lower_chars(r.name))
        &&& functions_keyed(self@.functions)
        &&& table_functions_keyed(self@.table_functions)
    }

    /// Register a relation, replacing one with the same name ignoring case.
    pub fn insert_relation(&mut self, name: &str, columns: Vec<String>)
        requires
            old(self).wf(),
        ensures
            final(self).wf(),
            final(self)@ == (ChainLayerModel {
                relations: assoc_insert(
                    old(self)@.relations,
                    lower_chars(name@),
                    ChainRelationView { name: name@, columns: string_views(columns@) },
                ),
                ..old(self)@
            }),
    {
        let key = ascii_lowercase(name);
        let ghost v = ChainRelationView { name: name@, columns: string_views(columns@) };
        let entry = RelationEntry { name: name.to_owned(), columns };
        self.relations.insert(key, entry);
        proof {
            lemma_insert_keyed_by(old(self)@.relations, lower_chars(name@), v, |r: ChainRelationView| lower_chars(r.name));
            lemma_assoc_insert(old(self)@.relations, lower_chars(name@), v);
        }
    }

    /// Register one overload of a function.
    pub fn insert_function_overload(&mut self, name: &str, category: FunctionCategory, arity: AritySpec)
        requires
            old(self).wf(),
        ensures
            final(self).wf(),
            final(self)@ == (ChainLayerModel {
                functions: with_overload(old(self)@.functions, name@, FunctionOverload { category, arity }),
                ..old(self)@
            }),
    {
        register_overload(&mut self.functions, name, FunctionOverload { category, arity });
    }

    /// Register one overload per encoded arity: `-1` any count, `-n-1` at
    /// least `n`, `n >= 0` exactly `n`; no codes registers one any-count
    /// overload.
    pub fn insert_function_arities(&mut self, name: &str, category: FunctionCategory, arities: &[i16])
        requires
            old(self).wf(),
        ensures
            final(self).wf(),
            final(self)@ == (ChainLayerModel {
                functions: with_overloads(old(self)@.functions, name@, overloads_of_codes(category, arities@)),
                ..old(self)@
            }),
    {
        register_arity_codes(&mut self.functions, name, category, arities);
    }

    /// Register one overload of a table-valued function.
    pub fn insert_table_function_overload(&mut self, name: &str, arity: AritySpec, output_columns: Vec<String>)
        requires
            old(self).wf(),
        ensures
            final(self).wf(),
            final(self)@ == (ChainLayerModel {
                table_functions: with_table_overload(old(self)@.table_functions, name@, arity, string_views(output_columns@)),
                ..old(self)@
            }),
    {
        register_table_overload(&mut self.table_functions, name, arity, output_columns);
    }

    /// The relation registered under `name` (ignoring case).
    pub fn relation(&self, name: &str) -> (r: Option<&RelationEntry>)
        requires
            self.wf(),
        ensures
            match lookup(self@.relations, lower_chars(name@)) {
                None => r is None,
                Some(v) => r matches Some(e) && e@ == v,
            },
    {
        let key = ascii_lowercase(name);
        match self.relations.find(key.as_str()) {
            Some(i) => Some(self.relations.get(i)),
            None => None,
        }
    }

    /// The function registered under `name` (ignoring case).
    pub fn function(&self, name: &str) -> (r: Option<&FunctionSet>)
        requires
            self.wf(),
        ensures
            match lookup(self@.functions, lower_chars(name@)) {
                None => r is None,
                Some(v) => r matches Some(e) && e@ == v,
            },
    {
        let key = ascii_lowercase(name);
        match self.functions.find(key.as_str()) {
            Some(i) => Some(self.functions.get(i)),
            None => None,
        }
    }

    /// The table-valued function registered under `name` (ignoring case).
    pub fn table_function(&self, name: &str) -> (r: Option<&TableFunctionSet>)
        requires
            self.wf(),
        ensures
            match lookup(self@.table_functions, lower_chars(name@)) {
                None => r is None,
                Some(v) => r matches Some(e) && e@ == v,
            },
    {
        let key = ascii_lowercase(name);
        match self.table_functions.find(key.as_str()) {
            Some(i) => Some(self.table_functions.get(i)),
            None => None,
        }
    }
}

// ── Specification of chain lookup ────────────────────────────────────────────

/// The relation under `k` in the first layer that has one.
pub open spec fn first_relation(ls: Seq<ChainLayerModel>, k: Seq<char>) -> Option<ChainRelationView>
    decreases ls.len(),
{
    if ls.len() == 0 {
        None
    } else {
        match lookup(ls[0].relations, k) {
            Some(r) => Some(r),
            None => first_relation(ls.drop_first(), k),
        }
    }
}

/// The function under `k` in the first layer that has one.
pub open spec fn first_function(ls: Seq<ChainLayerModel>, k: Seq<char>) -> Option<FunctionSetView>
    decreases ls.len(),
{
    if ls.len() == 0 {
        None
    } else {
        match lookup(ls[0].functions, k) {
            Some(f) => Some(f),
            None => first_function(ls.drop_first(), k),
        }
    }
}

/// The table-valued function under `k` in the first layer that has one.
pub open spec fn first_table_function(ls: Seq<ChainLayerModel>, k: Seq<char>) -> Option<TableFunctionView>
    decreases ls.len(),
{
    if ls.len() == 0 {
        None
    } else {
        match lookup(ls[0].table_functions, k) {
            Some(f) => Some(f),
            None => first_table_function(ls.drop_first(), k),
        }
    }
}

/// All relation names, layer by layer in chain order.
pub open spec fn chain_relation_names(ls: Seq<ChainLayerModel>) -> Seq<Seq<char>>
    decreases ls.len(),
{
    if ls.len() == 0 {
        Seq::empty()
    } else {
        chain_relation_names(ls.drop_last()) + ls.last().relations.map_values(|e: (Seq<char>, ChainRelationView)| e.1.name)
    }
}

/// All function names, layer by layer in chain order.
pub open spec fn chain_function_names(ls: Seq<ChainLayerModel>) -> Seq<Seq<char>>
    decreases ls.len(),
{
    if ls.len() == 0 {
        Seq::empty()
    } else {
        chain_function_names(ls.drop_last()) + ls.last().functions.map_values(|e: (Seq<char>, FunctionSetView)| e.1.name)
    }
}

/// All table-valued function names, layer by layer in chain order.
pub open spec fn chain_table_function_names(ls: Seq<ChainLayerModel>) -> Seq<Seq<char>>
    decreases ls.len(),
{
    if ls.len() == 0 {
        Seq::empty()
    } else {
        chain_table_function_names(ls.drop_last()) + ls.last().table_functions.map_values(
            |e: (Seq<char>, TableFunctionView)| e.1.name,
        )
    }
}

/// Looking up from layer `i` on: layer `i` if it has the key, otherwise the
/// layers after it.
pub proof fn lemma_first_step(ls: Seq<ChainLayerModel>, i: int, k: Seq<char>)
    requires
        0 <= i < ls.len(),
    ensures
        first_relation(ls.skip(i), k) == match lookup(ls[i].relations, k) {
            Some(r) => Some(r),
            None => first_relation(ls.skip(i + 1), k),
        },
        first_function(ls.skip(i), k) == match lookup(ls[i].functions, k) {
            Some(f) => Some(f),
            None => first_function(ls.skip(i + 1), k),
        },
        first_table_function(ls.skip(i), k) == match lookup(ls[i].table_functions, k) {
            Some(f) => Some(f),
            None => first_table_function(ls.skip(i + 1), k),
        },
{
    assert(ls.skip(i).drop_first() =~= ls.skip(i + 1));
    assert(ls.skip(i)[0] == ls[i]);
}

/// Layers searched in order, the first that has a name decides.
pub struct CatalogChain<'a> {
    layers: Vec<&'a CatalogLayer>,
}

impl<'a> View for CatalogChain<'a> {
    type V = Seq<ChainLayerModel>;

    closed spec fn view(&self) -> Seq<ChainLayerModel> {
        self.layers@.map_values(|l: &'a CatalogLayer| l@)
    }
}

impl<'a> CatalogChain<'a> {
    /// Every layer is consistent.
    pub closed spec fn wf(&self) -> bool {
        forall|i: int| 0 <= i < self.layers@.len() ==> (#[trigger] self.layers@[i]).wf()
    }

    proof fn lemma_layer(&self, i: int)
        requires
            self.wf(),
            0 <= i < self@.len(),
        ensures
            self@.len() == self.layers@.len(),
            self.layers@[i].wf(),
            self.layers@[i]@ == self@[i],
    {
    }

    /// An empty chain.
    pub fn new() -> (r: Self)
        ensures
            r.wf(),
            r@ == Seq::<ChainLayerModel>::empty(),
    {
        let r = CatalogChain { layers: Vec::new() };
        assert(r@ =~= Seq::<ChainLayerModel>::empty());
        r
    }

    /// Append a layer, searched after those already in the chain.
    pub fn push_layer(&mut self, layer: &'a CatalogLayer)
        requires
            old(self).wf(),
            layer.wf(),
        ensures
            final(self).wf(),
            final(self)@ == old(self)@.push(layer@),
    {
        self.layers.push(layer);
        assert(self@ =~= old(self)@.push(layer@));
    }

    /// A chain of `layers`, searched in the given order.
    pub fn with_layers(layers: Vec<&'a CatalogLayer>) -> (r: Self)
        requires
            forall|i: int| 0 <= i < layers@.len() ==> (#[trigger] layers@[i]).wf(),
        ensures
            r.wf(),
            r@ == layers@.map_values(|l: &'a CatalogLayer| l@),
    {
        CatalogChain { layers }
    }

    /// Check a call of `name` with `arg_count` arguments against the first
    /// function registered under that name.
    pub fn check_function(&self, name: &str, arg_count: usize) -> (r: FunctionCheckResult)
        requires
            self.wf(),
        ensures
            function_check_spec(first_function(self@, lower_chars(name@)), arg_count as nat, r),
    {
        let ghost ls = self@;
        let ghost k = lower_chars(name@);
        let mut i: usize = 0;
        assert(ls.skip(0) =~= ls);
        while i < self.layers.len()
            invariant
                0 <= i <= ls.len(),
                ls == self@,
                k == lower_chars(name@),
                self.wf(),
                first_function(ls, k) == first_function(ls.skip(i as int), k),
            decreases ls.len() - i,
        {
            proof {
                lemma_first_step(ls, i as int, k);
                self.lemma_layer(i as int);
            }
            match self.layers[i].function(name) {
                Some(set) => {
                    if any_overload_accepts(&set.overloads, arg_count) {
                        proof {
                            let w = choose|j: int| 0 <= j < set.overloads@.len() && crate::catalog::accepts(#[trigger] set.overloads@[j], arg_count as nat);
                            assert(first_function(ls, k)->0.overloads[w] == set.overloads@[w]);
                        }
                        return FunctionCheckResult::Accepted;
                    }
                    return FunctionCheckResult::WrongArity { expected: expected_fixed_arities(&set.overloads) };
                },
                None => {},
            }
            i += 1;
        }
        assert(ls.skip(i as int).len() == 0);
        FunctionCheckResult::Unknown
    }

    /// The first relation registered under `name` (ignoring case).
    pub fn relation(&self, name: &str) -> (r: Option<&'a RelationEntry>)
        requires
            self.wf(),
        ensures
            match first_relation(self@, lower_chars(name@)) {
                None => r is None,
                Some(v) => r matches Some(e) && e@ == v,
            },
    {
        let ghost ls = self@;
        let ghost k = lower_chars(name@);
        let mut i: usize = 0;
        assert(ls.skip(0) =~= ls);
        while i < self.layers.len()
            invariant
                0 <= i <= ls.len(),
                ls == self@,
                k == lower_chars(name@),
                self.wf(),
                first_relation(ls, k) == first_relation(ls.skip(i as int), k),
            decreases ls.len() - i,
        {
            proof {
                lemma_first_step(ls, i as int, k);
                self.lemma_layer(i as int);
            }
            let layer: &'a CatalogLayer = self.layers[i];
            match layer.relation(name) {
                Some(e) => {
                    return Some(e);
                },
                None => {},
            }
            i += 1;
        }
        assert(ls.skip(i as int).len() == 0);
        None
    }

    /// The first table-valued function registered under `name` (ignoring case).
    pub fn table_function(&self, name: &str) -> (r: Option<&'a TableFunctionSet>)
        requires
            self.wf(),
        ensures
            match first_table_function(self@, lower_chars(name@)) {
                None => r is None,
                Some(v) => r matches Some(e) && e@ == v,
            },
    {
        let ghost ls = self@;
        let ghost k = lower_chars(name@);
        let mut i: usize = 0;
        assert(ls.skip(0) =~= ls);
        while i < self.layers.len()
            invariant
                0 <= i <= ls.len(),
                ls == self@,
                k == lower_chars(name@),
                self.wf(),
                first_table_function(ls, k) == first_table_function(ls.skip(i as int), k),
            decreases ls.len() - i,
        {
            proof {
                lemma_first_step(ls, i as int, k);
                self.lemma_layer(i as int);
            }
            let layer: &'a CatalogLayer = self.layers[i];
            match layer.table_function(name) {
                Some(e) => {
                    return Some(e);
                },
                None => {},
            }
            i += 1;
        }
        assert(ls.skip(i as int).len() == 0);
        None
    }

    /// Every relation name, once per name ignoring case (the earliest layer
    /// wins), sorted by lowercase form.
    pub fn all_relation_names(&self) -> (r: Vec<String>)
        requires
            self.wf(),
        ensures
            is_key_summary(string_views(r@), chain_relation_names(self@)),
    {
        let ghost ls = self@;
        let mut out: Vec<String> = Vec::new();
        let mut i: usize = 0;
        proof {
            lemma_key_summary_empty();
            assert(string_views(out@) =~= Seq::<Seq<char>>::empty());
            assert(ls.take(0) =~= Seq::<ChainLayerModel>::empty());
        }
        while i < self.layers.len()
            invariant
                0 <= i <= ls.len(),
                ls == self@,
                self.wf(),
                is_key_summary(string_views(out@), chain_relation_names(ls.take(i as int))),
            decreases ls.len() - i,
        {
            proof {
                self.lemma_layer(i as int);
                assert(ls.take(i + 1).drop_last() =~= ls.take(i as int));
                assert(ls.take(i + 1).last() == ls[i as int]);
            }
            let ghost done = chain_relation_names(ls.take(i as int));
            let ghost here = ls[i as int].relations.map_values(|e: (Seq<char>, ChainRelationView)| e.1.name);
            let layer: &'a CatalogLayer = self.layers[i];
            let n = layer.relations.len();
            let mut j: usize = 0;
            assert(done + here.take(0) =~= done);
            while j < n
                invariant
                    0 <= j <= n,
                    n == here.len(),
                    layer@ == ls[i as int],
                    layer.wf(),
                    here == ls[i as int].relations.map_values(|e: (Seq<char>, ChainRelationView)| e.1.name),
                    is_key_summary(string_views(out@), done + here.take(j as int)),
                decreases n - j,
            {
                let entry = layer.relations.get(j);
                add_to_key_summary(&mut out, entry.name.as_str(), Ghost(done + here.take(j as int)));
                proof {
                    assert(done + here.take(j + 1) =~= (done + here.take(j as int)).push(entry@.name));
                }
                j += 1;
            }
            assert(here.take(n as int) =~= here);
            i += 1;
        }
        assert(ls.take(i as int) =~= ls);
        out
    }

    /// Every function name, once per name ignoring case (the earliest layer
    /// wins), sorted by lowercase form.
    pub fn all_function_names(&self) -> (r: Vec<String>)
        requires
            self.wf(),
        ensures
            is_key_summary(string_views(r@), chain_function_names(self@)),
    {
        let ghost ls = self@;
        let mut out: Vec<String> = Vec::new();
        let mut i: usize = 0;
        proof {
            lemma_key_summary_empty();
            assert(string_views(out@) =~= Seq::<Seq<char>>::empty());
            assert(ls.take(0) =~= Seq::<ChainLayerModel>::empty());
        }
        while i < self.layers.len()
            invariant
                0 <= i <= ls.len(),
                ls == self@,
                self.wf(),
                is_key_summary(string_views(out@), chain_function_names(ls.take(i as int))),
            decreases ls.len() - i,
        {
            proof {
                self.lemma_layer(i as int);
                assert(ls.take(i + 1).drop_last() =~= ls.take(i as int));
                assert(ls.take(i + 1).last() == ls[i as int]);
            }
            let ghost done = chain_function_names(ls.take(i as int));
            let ghost here = ls[i as int].functions.map_values(|e: (Seq<char>, FunctionSetView)| e.1.name);
            let layer: &'a CatalogLayer = self.layers[i];
            let n = layer.functions.len();
            let mut j: usize = 0;
            assert(done + here.take(0) =~= done);
            while j < n
                invariant
                    0 <= j <= n,
                    n == here.len(),
                    layer@ == ls[i as int],
                    layer.wf(),
                    here == ls[i as int].functions.map_values(|e: (Seq<char>, FunctionSetView)| e.1.name),
                    is_key_summary(string_views(out@), done + here.take(j as int)),
                decreases n - j,
            {
                let entry = layer.functions.get(j);
                add_to_key_summary(&mut out, entry.name.as_str(), Ghost(done + here.take(j as int)));
                proof {
                    assert(done + here.take(j + 1) =~= (done + here.take(j as int)).push(entry@.name));
                }
                j += 1;
            }
            assert(here.take(n as int) =~= here);
            i += 1;
        }
        assert(ls.take(i as int) =~= ls);
        out
    }

    /// Every table-valued function name, once per name ignoring case (the earliest layer
    /// wins), sorted by lowercase form.
    pub fn all_table_function_names(&self) -> (r: Vec<String>)
        requires
            self.wf(),
        ensures
            is_key_summary(string_views(r@), chain_table_function_names(self@)),
    {
        let ghost ls = self@;
        let mut out: Vec<String> = Vec::new();
        let mut i: usize = 0;
        proof {
            lemma_key_summary_empty();
            assert(string_views(out@) =~= Seq::<Seq<char>>::empty());
            assert(ls.take(0) =~= Seq::<ChainLayerModel>::empty());
        }
        while i < self.layers.len()
            invariant
                0 <= i <= ls.len(),
                ls == self@,
                self.wf(),
                is_key_summary(string_views(out@), chain_table_function_names(ls.take(i as int))),
            decreases ls.len() - i,
        {
            proof {
                self.lemma_layer(i as int);
                assert(ls.take(i + 1).drop_last() =~= ls.take(i as int));
                assert(ls.take(i + 1).last() == ls[i as int]);
            }
            let ghost done = chain_table_function_names(ls.take(i as int));
            let ghost here = ls[i as int].table_functions.map_values(|e: (Seq<char>, TableFunctionView)| e.1.name);
            let layer: &'a CatalogLayer = self.layers[i];
            let n = layer.table_functions.len();
            let mut j: usize = 0;
            assert(done + here.take(0) =~= done);
            while j < n
                invariant
                    0 <= j <= n,
                    n == here.len(),
                    layer@ == ls[i as int],
                    layer.wf(),
                    here == ls[i as int].table_functions.map_values(|e: (Seq<char>, TableFunctionView)| e.1.name),
                    is_key_summary(string_views(out@), done + here.take(j as int)),
                decreases n - j,
            {
                let entry = layer.table_functions.get(j);
                add_to_key_summary(&mut out, entry.name.as_str(), Ghost(done + here.take(j as int)));
                proof {
                    assert(done + here.take(j + 1) =~= (done + here.take(j as int)).push(entry@.name));
                }
                j += 1;
            }
            assert(here.take(n as int) =~= here);
            i += 1;
        }
        assert(ls.take(i as int) =~= ls);
        out
    }
}

} // verus!
