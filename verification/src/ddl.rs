//! What DDL statements contribute to the catalog.

use vstd::prelude::*;

use crate::catalog::{
    columns_view, dialect_layer, empty_layer, layer_index, layer_with_relation, with_overload, with_table_overload, AritySpec, Catalog,
    CatalogLayer, FunctionCategory, FunctionOverload, LayerModel,
};
use crate::dialect::Dialect;
use crate::catalog::layer_wf;
use crate::table::lookup;
use crate::text::{ascii_lowercase, lower_chars, string_views, utf8};
use crate::tree::{
    columns_from_select, lemma_spans_fit_at, named_spans, node_fits, opt_fits, opt_select_columns, span_texts, spans_fit,
    Node, ParseItem, Span, items_fit,
};

verus! {

/// The lowercase names of a declared column list.
pub open spec fn lowered(names: Seq<Seq<char>>) -> Seq<Seq<char>> {
    names.map_values(|n: Seq<char>| lower_chars(n))
}

/// The columns a table or view definition declares: its column list,
/// lowercased, or else the columns its body names (`None` when unknown).
pub open spec fn ddl_columns(src: Seq<u8>, columns: Seq<Span>, select: Option<Box<Node>>) -> Option<Seq<Seq<char>>> {
    let named = named_spans(columns);
    if named.len() > 0 {
        Some(lowered(span_texts(named)))
    } else {
        opt_select_columns(src, select)
    }
}

/// The arity a function definition declares.
pub open spec fn declared_arity(arg_count: Option<usize>) -> AritySpec {
    match arg_count {
        Some(n) => AritySpec::Exact(n),
        None => AritySpec::Any,
    }
}

/// A layer after the definitions of one statement: a named table, view or
/// function is registered (a function returning a table also as a
/// table-valued function); other statements contribute nothing.
pub open spec fn ddl_layer(m: LayerModel, src: Seq<u8>, n: Node) -> LayerModel {
    match n {
        Node::CreateTable { name, columns, select, without_rowid, .. } => if name.text@.len() > 0 {
            layer_with_relation(m, name.text@, ddl_columns(src, columns@, select), without_rowid, false)
        } else {
            m
        },
        Node::CreateView { name, columns, select, .. } => if name.text@.len() > 0 {
            layer_with_relation(m, name.text@, ddl_columns(src, columns@, select), true, true)
        } else {
            m
        },
        Node::CreateFunction { name, arg_count, returns_table, .. } => if name.text@.len() > 0 {
            let m1 = LayerModel {
                functions: with_overload(
                    m.functions,
                    name.text@,
                    FunctionOverload { category: FunctionCategory::Scalar, arity: declared_arity(arg_count) },
                ),
                ..m
            };
            if returns_table {
                LayerModel {
                    table_functions: with_table_overload(m1.table_functions, name.text@, AritySpec::Any, Seq::empty()),
                    ..m1
                }
            } else {
                m1
            }
        } else {
            m
        },
        _ => m,
    }
}

/// The statement defines a temporary (`TEMP`) table or view.
pub open spec fn is_temporary(n: Node) -> bool {
    match n {
        Node::CreateTable { temporary, .. } => temporary,
        Node::CreateView { temporary, .. } => temporary,
        _ => false,
    }
}

/// The layer a statement's definitions go to: temporary objects always go to
/// the connection layer, everything else to `target`.
pub open spec fn ddl_target(target: int, n: Node) -> int {
    if is_temporary(n) {
        2
    } else {
        target
    }
}

/// The catalog layers after a statement's definitions are registered, with
/// `target` as the layer for objects that are not temporary.
pub open spec fn ddl_catalog(c: Seq<LayerModel>, target: int, src: Seq<u8>, n: Node) -> Seq<LayerModel> {
    let k = ddl_target(target, n);
    c.update(k, ddl_layer(c[k], src, n))
}

/// The catalog layers after the definitions of every statement of a
/// document.
pub open spec fn ddl_catalogs(c: Seq<LayerModel>, target: int, src: Seq<u8>, items: Seq<ParseItem>) -> Seq<LayerModel>
    decreases items.len(),
{
    if items.len() == 0 {
        c
    } else {
        let prev = ddl_catalogs(c, target, src, items.drop_last());
        match items.last() {
            ParseItem::Statement(n) => ddl_catalog(prev, target, src, n),
            ParseItem::Error { .. } => prev,
        }
    }
}

proof fn lemma_named_spans_all(sps: Seq<Span>)
    requires
        forall|i: int| 0 <= i < sps.len() ==> (#[trigger] sps[i]).text@.len() > 0,
    ensures
        named_spans(sps) == sps,
    decreases sps.len(),
{
    if sps.len() > 0 {
        let prev = sps.drop_last();
        assert forall|i: int| 0 <= i < prev.len() implies (#[trigger] prev[i]).text@.len() > 0 by {
            assert(prev[i] == sps[i]);
        }
        lemma_named_spans_all(prev);
        assert(sps.last() == sps[sps.len() - 1]);
        assert(prev.push(sps.last()) =~= sps);
    }
}

/// A table or view defined with a column list gets exactly those columns,
/// lowercased and in order, in the layer it is registered in, whatever its
/// `AS SELECT` body names.
pub proof fn law_column_list_decides_columns(
    cat: Seq<LayerModel>,
    target: int,
    src: Seq<u8>,
    name: Span,
    columns: Vec<Span>,
    select: Option<Box<Node>>,
    without_rowid: bool,
    temporary: bool,
    is_view: bool,
)
    requires
        cat.len() == 4,
        0 <= target < 4,
        layer_wf(cat[if temporary { 2 } else { target }]),
        name.text@.len() > 0,
        columns@.len() > 0,
        forall|i: int| 0 <= i < columns@.len() ==> (#[trigger] columns@[i]).text@.len() > 0,
    ensures
        ({
            let n = if is_view {
                Node::CreateView { name, columns, select, temporary }
            } else {
                Node::CreateTable { name, columns, select, without_rowid, temporary }
            };
            let k = ddl_target(target, n);
            lookup(ddl_catalog(cat, target, src, n)[k].relations, lower_chars(name.text@)) matches Some(rel)
                && rel.columns == Some(columns@.map_values(|sp: Span| lower_chars(sp.text@)))
        }),
{
    let n = if is_view {
        Node::CreateView { name, columns, select, temporary }
    } else {
        Node::CreateTable { name, columns, select, without_rowid, temporary }
    };
    let k = ddl_target(target, n);
    lemma_named_spans_all(columns@);
    let cols = lowered(span_texts(named_spans(columns@)));
    assert(cols =~= columns@.map_values(|sp: Span| lower_chars(sp.text@)));
    assert(ddl_columns(src, columns@, select) == Some(cols));
    let v = crate::catalog::RelationView { name: name.text@, columns: Some(cols), without_rowid: if is_view { true } else { without_rowid }, is_view };
    crate::table::lemma_assoc_insert(cat[k].relations, lower_chars(name.text@), v);
}

/// The columns a definition declares (see [`ddl_columns`]).
fn ddl_column_names(source: &str, columns: &Vec<Span>, select: &Option<Box<Node>>) -> (r: Option<Vec<String>>)
    requires
        spans_fit(utf8(source@), columns@),
        opt_fits(utf8(source@), *select),
        utf8(source@).len() <= usize::MAX,
    ensures
        columns_view(r) == ddl_columns(utf8(source@), columns@, *select),
{
    let mut out: Vec<String> = Vec::new();
    let mut i: usize = 0;
    while i < columns.len()
        invariant
            0 <= i <= columns@.len(),
            string_views(out@) == lowered(span_texts(named_spans(columns@.take(i as int)))),
        decreases columns@.len() - i,
    {
        assert(columns@.take(i + 1).drop_last() =~= columns@.take(i as int));
        assert(columns@.take(i + 1).last() == columns@[i as int]);
        let sp = &columns[i];
        if !sp.text.as_str().is_empty() {
            let ghost prev = string_views(out@);
            out.push(ascii_lowercase(sp.text.as_str()));
            assert(string_views(out@) =~= prev.push(lower_chars(sp.text@)));
            assert(lowered(span_texts(named_spans(columns@.take(i + 1)))) =~= lowered(
                span_texts(named_spans(columns@.take(i as int))),
            ).push(lower_chars(sp.text@)));
        }
        i += 1;
    }
    assert(columns@.take(i as int) =~= columns@);
    if out.len() > 0 {
        Some(out)
    } else {
        assert(named_spans(columns@).len() == 0);
        match select {
            Some(b) => columns_from_select(source, b),
            None => None,
        }
    }
}

impl Catalog {
    /// Register what a statement defines into the layer `target`: a table
    /// (with its declared columns, or those its body names), a view, or a
    /// function. Temporary tables and views always go to the connection
    /// layer instead. Other statements leave the catalog unchanged.
    pub fn accumulate_ddl(&mut self, target: CatalogLayer, source: &str, node: &Node)
        requires
            old(self).wf(),
            node_fits(utf8(source@), *node),
            utf8(source@).len() <= usize::MAX,
        ensures
            final(self).wf(),
            final(self)@ == ddl_catalog(old(self)@, layer_index(target), utf8(source@), *node),
    {
        let ghost i = layer_index(target);
        proof {
            old(self).lemma_fixed_layers();
        }
        match node {
            Node::CreateTable { name, columns, select, without_rowid, temporary } => {
                if !name.text.as_str().is_empty() {
                    let cols = ddl_column_names(source, columns, select);
                    let layer = if *temporary {
                        self.layer_mut(CatalogLayer::Connection)
                    } else {
                        self.layer_mut(target)
                    };
                    layer.insert_table(name.text.as_str(), cols, *without_rowid);
                    return;
                }
            },
            Node::CreateView { name, columns, select, temporary } => {
                if !name.text.as_str().is_empty() {
                    let cols = ddl_column_names(source, columns, select);
                    let layer = if *temporary {
                        self.layer_mut(CatalogLayer::Connection)
                    } else {
                        self.layer_mut(target)
                    };
                    layer.insert_view(name.text.as_str(), cols);
                    return;
                }
            },
            Node::CreateFunction { name, arg_count, returns_table, .. } => {
                if !name.text.as_str().is_empty() {
                    let arity = match arg_count {
                        Some(n) => AritySpec::Exact(*n),
                        None => AritySpec::Any,
                    };
                    let layer = self.layer_mut(target);
                    layer.insert_function_overload(name.text.as_str(), FunctionCategory::Scalar, arity);
                    if *returns_table {
                        let no_columns: Vec<String> = Vec::new();
                        assert(string_views(no_columns@) =~= Seq::<Seq<char>>::empty());
                        layer.insert_table_function(name.text.as_str(), AritySpec::Any, no_columns);
                    }
                    return;
                }
            },
            _ => {},
        }
        assert(old(self)@.update(ddl_target(i, *node), old(self)@[ddl_target(i, *node)]) =~= old(self)@);
    }

    /// A catalog for `dialect` whose database layer holds what the
    /// statements of a parsed document define (its temporary tables and
    /// views are in the connection layer), with the message of each parse
    /// error, in order.
    pub fn from_ddl(dialect: &Dialect, source: &str, items: &Vec<ParseItem>) -> (r: (Self, Vec<String>))
        requires
            items_fit(utf8(source@), items@),
            utf8(source@).len() <= usize::MAX,
        ensures
            r.0.wf(),
            r.0@ == ddl_catalogs(
                seq![dialect_layer(dialect.functions()), empty_layer(), empty_layer(), empty_layer()],
                1,
                utf8(source@),
                items@,
            ),
            string_views(r.1@) == error_messages(items@),
    {
        let mut catalog = Catalog::new(dialect);
        let mut errors: Vec<String> = Vec::new();
        let ghost c0 = catalog@;
        let mut i: usize = 0;
        while i < items.len()
            invariant
                0 <= i <= items@.len(),
                catalog.wf(),
                items_fit(utf8(source@), items@),
                utf8(source@).len() <= usize::MAX,
                catalog@ == ddl_catalogs(c0, 1, utf8(source@), items@.take(i as int)),
                c0 == seq![dialect_layer(dialect.functions()), empty_layer(), empty_layer(), empty_layer()],
                string_views(errors@) == error_messages(items@.take(i as int)),
            decreases items@.len() - i,
        {
            assert(items@.take(i + 1).drop_last() =~= items@.take(i as int));
            assert(items@.take(i + 1).last() == items@[i as int]);
            match &items[i] {
                ParseItem::Statement(n) => {
                    assert(items@[i as int] matches ParseItem::Statement(n) ==> node_fits(utf8(source@), n));
                    catalog.accumulate_ddl(CatalogLayer::Database, source, n);

                },
                ParseItem::Error { message, .. } => {
                    let ghost prev = string_views(errors@);
                    errors.push(message.clone());
                    assert(string_views(errors@) =~= prev.push(message@));
                },
            }
            i += 1;
        }
        assert(items@.take(i as int) =~= items@);
        (catalog, errors)
    }
}

/// The messages of the parse errors of a document, in order.
pub open spec fn error_messages(items: Seq<ParseItem>) -> Seq<Seq<char>>
    decreases items.len(),
{
    if items.len() == 0 {
        Seq::empty()
    } else {
        let prev = error_messages(items.drop_last());
        match items.last() {
            ParseItem::Error { message, .. } => prev.push(message@),
            ParseItem::Statement(_) => prev,
        }
    }
}

/// The name a table or view definition introduces, lowercased, and the
/// range where it is written.
pub open spec fn ddl_name_site(n: Node) -> Option<(Seq<char>, (usize, usize))> {
    match n {
        Node::CreateTable { name, .. } => if name.text@.len() > 0 {
            Some((lower_chars(name.text@), (name.offset, crate::pass::end_of(name))))
        } else {
            None
        },
        Node::CreateView { name, .. } => if name.text@.len() > 0 {
            Some((lower_chars(name.text@), (name.offset, crate::pass::end_of(name))))
        } else {
            None
        },
        _ => None,
    }
}

/// The definition name and byte range of a table or view definition (see
/// [`ddl_name_site`]).
pub fn ddl_name_offset(source: &str, node: &Node) -> (r: Option<(String, (usize, usize))>)
    requires
        node_fits(utf8(source@), *node),
        utf8(source@).len() <= usize::MAX,
    ensures
        match r {
            Some((k, site)) => ddl_name_site(*node) == Some((k@, site)),
            None => ddl_name_site(*node) is None,
        },
{
    let name = match node {
        Node::CreateTable { name, .. } => name,
        Node::CreateView { name, .. } => name,
        _ => {
            return None;
        },
    };
    let text = name.text.as_str();
    if text.is_empty() {
        return None;
    }
    let end = name.offset + text.len();
    assert(end == crate::pass::end_of(*name));
    Some((ascii_lowercase(text), (name.offset, end)))
}

} // verus!
