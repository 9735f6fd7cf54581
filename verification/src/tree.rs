//! A parsed statement as plain values: the nodes the semantic walk reads,
//! each carrying the source spans it holds.
//!
//! The parser produces an arena of nodes tagged with grammar-specific kinds;
//! every kind plays one semantic role (a table reference, a column
//! reference, a query, ...). A [`Node`] is that role with the parts of the
//! node the analysis looks at, so the analysis itself does not depend on any
//! grammar.

use vstd::prelude::*;

use vstd::utf8::{
    decode_utf8, encode_utf8_decode_utf8, encode_utf8_valid_utf8, is_char_boundary, is_char_boundary_iff_not_is_continuation_byte,
    is_char_boundary_start_end_of_seq, valid_utf8, valid_utf8_split,
};

use vstd::string::StringSliceAdditionalSpecFns;

use crate::catalog::columns_view;
use crate::relations::opt_string_view;
use crate::text::{ascii_lowercase, lower_chars, string_views, utf8};

verus! {

/// A piece of the source text: the byte offset where it starts and the text
/// itself. An empty text stands for a name that is absent.
#[derive(Clone, Debug)]
pub struct Span {
    /// Byte offset of the text in the source.
    pub offset: usize,
    /// The text as written.
    pub text: String,
}

/// A node of a parsed statement, by semantic role.
#[derive(Debug)]
pub enum Node {
    /// A node without a semantic role, or a list: the spans it holds and its
    /// child nodes, in source order.
    Plain { spans: Vec<Span>, children: Vec<Node> },
    /// `CREATE TABLE`: its name, the names in its column list, its
    /// `AS SELECT` body, whether it is `WITHOUT ROWID` and whether it is
    /// `TEMP`.
    CreateTable { name: Span, columns: Vec<Span>, select: Option<Box<Node>>, without_rowid: bool, temporary: bool },
    /// `CREATE VIEW`: its name, the names in its column list, its body and
    /// whether it is `TEMP`.
    CreateView { name: Span, columns: Vec<Span>, select: Option<Box<Node>>, temporary: bool },
    /// A function definition: its name, the number of declared arguments
    /// (`None` without an argument list), whether it returns a table, and
    /// its body.
    CreateFunction { name: Span, arg_count: Option<usize>, returns_table: bool, select: Option<Box<Node>> },
    /// A node whose contents the analysis does not look into (a return
    /// specification, an import).
    Opaque,
    /// A result column of a query: whether it is a `*` wildcard, its alias
    /// and its expression.
    ResultColumn { star: bool, alias: Span, expr: Option<Box<Node>> },
    /// A column reference, optionally qualified by a table name.
    ColumnRef { column: Span, table: Span },
    /// A function call: its name, its argument list, and its other child
    /// nodes (filter, window).
    Call { name: Span, args: Vec<Node>, rest: Vec<Node> },
    /// A table, view or table-valued function named in a FROM clause.
    SourceRef { name: Span, alias: Span },
    /// A subquery in a FROM clause and its alias.
    ScopedSource { body: Option<Box<Node>>, alias: Span },
    /// A `SELECT`: its FROM clause, its result columns (`None` when
    /// missing), and its WHERE, GROUP BY, HAVING, ORDER BY and LIMIT clauses
    /// that are present, in that order.
    Query { from: Option<Box<Node>>, results: Option<Vec<Node>>, clauses: Vec<Node> },
    /// A `WITH` clause: whether it is recursive, its bindings and the
    /// statement it scopes.
    CteScope { recursive: bool, bindings: Vec<Node>, body: Option<Box<Node>> },
    /// One CTE: its name, the names in its column list and its body.
    CteBinding { name: Span, columns: Vec<Span>, body: Option<Box<Node>> },
    /// A trigger: its WHEN condition and its body.
    TriggerScope { when: Option<Box<Node>>, body: Option<Box<Node>> },
    /// An INSERT, UPDATE or DELETE: its child nodes in order.
    DmlScope { children: Vec<Node> },
}

// ── Spans and the source ─────────────────────────────────────────────────────

/// Byte offset just past a span.
pub open spec fn span_end(sp: Span) -> int {
    sp.offset + utf8(sp.text@).len()
}

/// A non-empty span lies inside the source and starts and ends at character
/// boundaries.
pub open spec fn span_fits(src: Seq<u8>, sp: Span) -> bool {
    sp.text@.len() > 0 ==> {
        &&& span_end(sp) <= src.len()
        &&& is_char_boundary(src, sp.offset as int)
        &&& is_char_boundary(src, span_end(sp))
    }
}

/// Every span of a list fits the source.
pub open spec fn spans_fit(src: Seq<u8>, sps: Seq<Span>) -> bool
    decreases sps.len(),
{
    if sps.len() == 0 {
        true
    } else {
        spans_fit(src, sps.drop_last()) && span_fits(src, sps.last())
    }
}

/// Every span of a node, at any depth, fits the source.
pub open spec fn node_fits(src: Seq<u8>, n: Node) -> bool
    decreases n,
{
    match n {
        Node::Plain { spans, children } => spans_fit(src, spans@) && nodes_fit(src, children@),
        Node::CreateTable { name, columns, select, .. } => span_fits(src, name) && spans_fit(src, columns@)
            && opt_fits(src, select),
        Node::CreateView { name, columns, select, .. } => span_fits(src, name) && spans_fit(src, columns@) && opt_fits(
            src,
            select,
        ),
        Node::CreateFunction { name, select, .. } => span_fits(src, name) && opt_fits(src, select),
        Node::Opaque => true,
        Node::ResultColumn { alias, expr, .. } => span_fits(src, alias) && opt_fits(src, expr),
        Node::ColumnRef { column, table } => span_fits(src, column) && span_fits(src, table),
        Node::Call { name, args, rest } => span_fits(src, name) && nodes_fit(src, args@) && nodes_fit(src, rest@),
        Node::SourceRef { name, alias } => span_fits(src, name) && span_fits(src, alias),
        Node::ScopedSource { body, alias } => opt_fits(src, body) && span_fits(src, alias),
        Node::Query { from, results, clauses } => opt_fits(src, from) && match results {
            Some(cs) => nodes_fit(src, cs@),
            None => true,
        } && nodes_fit(src, clauses@),
        Node::CteScope { bindings, body, .. } => nodes_fit(src, bindings@) && opt_fits(src, body),
        Node::CteBinding { name, columns, body } => span_fits(src, name) && spans_fit(src, columns@) && opt_fits(
            src,
            body,
        ),
        Node::TriggerScope { when, body } => opt_fits(src, when) && opt_fits(src, body),
        Node::DmlScope { children } => nodes_fit(src, children@),
    }
}

/// Every node of a list fits the source.
pub open spec fn nodes_fit(src: Seq<u8>, ns: Seq<Node>) -> bool
    decreases ns,
{
    if ns.len() == 0 {
        true
    } else {
        nodes_fit(src, ns.drop_last()) && node_fits(src, ns.last())
    }
}

/// An optional node fits the source.
pub open spec fn opt_fits(src: Seq<u8>, o: Option<Box<Node>>) -> bool
    decreases o,
{
    match o {
        Some(b) => node_fits(src, *b),
        None => true,
    }
}


// ── The source text an expression spans ─────────────────────────────────────

/// Widens `(start, end)` to cover a non-empty span.
pub open spec fn span_bounds(sp: Span, b: (usize, usize)) -> (usize, usize) {
    if sp.text@.len() == 0 {
        b
    } else {
        let end = span_end(sp) as usize;
        (if sp.offset < b.0 { sp.offset } else { b.0 }, if end > b.1 { end } else { b.1 })
    }
}

/// Widens `b` to cover every span of a list, in order.
pub open spec fn spans_bounds(sps: Seq<Span>, b: (usize, usize)) -> (usize, usize)
    decreases sps.len(),
{
    if sps.len() == 0 {
        b
    } else {
        span_bounds(sps.last(), spans_bounds(sps.drop_last(), b))
    }
}

/// Widens `b` to cover every span of a node at any depth.
pub open spec fn node_bounds(n: Node, b: (usize, usize)) -> (usize, usize)
    decreases n,
{
    match n {
        Node::Plain { spans, children } => nodes_bounds(children@, spans_bounds(spans@, b)),
        Node::CreateTable { name, columns, select, .. } => opt_bounds(select, spans_bounds(columns@, span_bounds(name, b))),
        Node::CreateView { name, columns, select, .. } => opt_bounds(select, spans_bounds(columns@, span_bounds(name, b))),
        Node::CreateFunction { name, select, .. } => opt_bounds(select, span_bounds(name, b)),
        Node::Opaque => b,
        Node::ResultColumn { alias, expr, .. } => opt_bounds(expr, span_bounds(alias, b)),
        Node::ColumnRef { column, table } => span_bounds(table, span_bounds(column, b)),
        Node::Call { name, args, rest } => nodes_bounds(rest@, nodes_bounds(args@, span_bounds(name, b))),
        Node::SourceRef { name, alias } => span_bounds(alias, span_bounds(name, b)),
        Node::ScopedSource { body, alias } => span_bounds(alias, opt_bounds(body, b)),
        Node::Query { from, results, clauses } => nodes_bounds(
            clauses@,
            match results {
                Some(cs) => nodes_bounds(cs@, opt_bounds(from, b)),
                None => opt_bounds(from, b),
            },
        ),
        Node::CteScope { bindings, body, .. } => opt_bounds(body, nodes_bounds(bindings@, b)),
        Node::CteBinding { name, columns, body } => opt_bounds(body, spans_bounds(columns@, span_bounds(name, b))),
        Node::TriggerScope { when, body } => opt_bounds(body, opt_bounds(when, b)),
        Node::DmlScope { children } => nodes_bounds(children@, b),
    }
}

/// Widens `b` to cover every node of a list, in order.
pub open spec fn nodes_bounds(ns: Seq<Node>, b: (usize, usize)) -> (usize, usize)
    decreases ns,
{
    if ns.len() == 0 {
        b
    } else {
        node_bounds(ns.last(), nodes_bounds(ns.drop_last(), b))
    }
}

/// Widens `b` to cover an optional node.
pub open spec fn opt_bounds(o: Option<Box<Node>>, b: (usize, usize)) -> (usize, usize)
    decreases o,
{
    match o {
        Some(n) => node_bounds(*n, b),
        None => b,
    }
}

/// The source text an expression spans: from the start of its first span to
/// the end of its last one, if it has any non-empty span.
pub open spec fn expr_text(src: Seq<u8>, e: Node) -> Option<Seq<char>> {
    let b = node_bounds(e, (usize::MAX, 0));
    if b.0 < b.1 {
        Some(decode_utf8(src.subrange(b.0 as int, b.1 as int)))
    } else {
        None
    }
}

/// Bounds that are either unset or character boundaries of the source.
pub open spec fn bounds_ok(src: Seq<u8>, b: (usize, usize)) -> bool {
    &&& b.0 == usize::MAX || (b.0 <= src.len() && is_char_boundary(src, b.0 as int))
    &&& b.1 <= src.len()
    &&& is_char_boundary(src, b.1 as int)
}

pub proof fn lemma_spans_fit_at(src: Seq<u8>, sps: Seq<Span>, i: int)
    requires
        spans_fit(src, sps),
        0 <= i < sps.len(),
    ensures
        span_fits(src, sps[i]),
    decreases sps.len(),
{
    if i < sps.len() - 1 {
        lemma_spans_fit_at(src, sps.drop_last(), i);
    }
}

pub proof fn lemma_nodes_fit_at(src: Seq<u8>, ns: Seq<Node>, i: int)
    requires
        nodes_fit(src, ns),
        0 <= i < ns.len(),
    ensures
        node_fits(src, ns[i]),
    decreases ns.len(),
{
    if i < ns.len() - 1 {
        lemma_nodes_fit_at(src, ns.drop_last(), i);
    }
}

fn add_span(sp: &Span, lo: &mut usize, hi: &mut usize, Ghost(src): Ghost<Seq<u8>>)
    requires
        span_fits(src, *sp),
        src.len() <= usize::MAX,
        bounds_ok(src, (*old(lo), *old(hi))),
    ensures
        (*final(lo), *final(hi)) == span_bounds(*sp, (*old(lo), *old(hi))),
        bounds_ok(src, (*final(lo), *final(hi))),
{
    let text = sp.text.as_str();
    if !text.is_empty() {
        let start = sp.offset;
        let end = start + text.len();
        if start < *lo {
            *lo = start;
        }
        if end > *hi {
            *hi = end;
        }
    }
}

fn add_spans(sps: &Vec<Span>, lo: &mut usize, hi: &mut usize, Ghost(src): Ghost<Seq<u8>>)
    requires
        spans_fit(src, sps@),
        src.len() <= usize::MAX,
        bounds_ok(src, (*old(lo), *old(hi))),
    ensures
        (*final(lo), *final(hi)) == spans_bounds(sps@, (*old(lo), *old(hi))),
        bounds_ok(src, (*final(lo), *final(hi))),
{
    let ghost b0 = (*lo, *hi);
    let mut i: usize = 0;
    while i < sps.len()
        invariant
            0 <= i <= sps@.len(),
            spans_fit(src, sps@),
            src.len() <= usize::MAX,
            (*lo, *hi) == spans_bounds(sps@.take(i as int), b0),
            bounds_ok(src, (*lo, *hi)),
        decreases sps@.len() - i,
    {
        proof {
            lemma_spans_fit_at(src, sps@, i as int);
            assert(sps@.take(i + 1).drop_last() =~= sps@.take(i as int));
        }
        add_span(&sps[i], lo, hi, Ghost(src));
        i += 1;
    }
    assert(sps@.take(i as int) =~= sps@);
}

fn add_node_spans(n: &Node, lo: &mut usize, hi: &mut usize, Ghost(src): Ghost<Seq<u8>>)
    requires
        node_fits(src, *n),
        src.len() <= usize::MAX,
        bounds_ok(src, (*old(lo), *old(hi))),
    ensures
        (*final(lo), *final(hi)) == node_bounds(*n, (*old(lo), *old(hi))),
        bounds_ok(src, (*final(lo), *final(hi))),
    decreases *n,
{
    match n {
        Node::Plain { spans, children } => {
            add_spans(spans, lo, hi, Ghost(src));
            add_nodes_spans(children, lo, hi, Ghost(src));
        },
        Node::CreateTable { name, columns, select, .. } => {
            add_span(name, lo, hi, Ghost(src));
            add_spans(columns, lo, hi, Ghost(src));
            add_opt_spans(select, lo, hi, Ghost(src));
        },
        Node::CreateView { name, columns, select, .. } => {
            add_span(name, lo, hi, Ghost(src));
            add_spans(columns, lo, hi, Ghost(src));
            add_opt_spans(select, lo, hi, Ghost(src));
        },
        Node::CreateFunction { name, select, .. } => {
            add_span(name, lo, hi, Ghost(src));
            add_opt_spans(select, lo, hi, Ghost(src));
        },
        Node::Opaque => {},
        Node::ResultColumn { alias, expr, .. } => {
            add_span(alias, lo, hi, Ghost(src));
            add_opt_spans(expr, lo, hi, Ghost(src));
        },
        Node::ColumnRef { column, table } => {
            add_span(column, lo, hi, Ghost(src));
            add_span(table, lo, hi, Ghost(src));
        },
        Node::Call { name, args, rest } => {
            add_span(name, lo, hi, Ghost(src));
            add_nodes_spans(args, lo, hi, Ghost(src));
            add_nodes_spans(rest, lo, hi, Ghost(src));
        },
        Node::SourceRef { name, alias } => {
            add_span(name, lo, hi, Ghost(src));
            add_span(alias, lo, hi, Ghost(src));
        },
        Node::ScopedSource { body, alias } => {
            add_opt_spans(body, lo, hi, Ghost(src));
            add_span(alias, lo, hi, Ghost(src));
        },
        Node::Query { from, results, clauses } => {
            add_opt_spans(from, lo, hi, Ghost(src));
            match results {
                Some(cs) => add_nodes_spans(cs, lo, hi, Ghost(src)),
                None => {},
            }
            add_nodes_spans(clauses, lo, hi, Ghost(src));
        },
        Node::CteScope { bindings, body, .. } => {
            add_nodes_spans(bindings, lo, hi, Ghost(src));
            add_opt_spans(body, lo, hi, Ghost(src));
        },
        Node::CteBinding { name, columns, body } => {
            add_span(name, lo, hi, Ghost(src));
            add_spans(columns, lo, hi, Ghost(src));
            add_opt_spans(body, lo, hi, Ghost(src));
        },
        Node::TriggerScope { when, body } => {
            add_opt_spans(when, lo, hi, Ghost(src));
            add_opt_spans(body, lo, hi, Ghost(src));
        },
        Node::DmlScope { children } => {
            add_nodes_spans(children, lo, hi, Ghost(src));
        },
    }
}

fn add_opt_spans(o: &Option<Box<Node>>, lo: &mut usize, hi: &mut usize, Ghost(src): Ghost<Seq<u8>>)
    requires
        opt_fits(src, *o),
        src.len() <= usize::MAX,
        bounds_ok(src, (*old(lo), *old(hi))),
    ensures
        (*final(lo), *final(hi)) == opt_bounds(*o, (*old(lo), *old(hi))),
        bounds_ok(src, (*final(lo), *final(hi))),
    decreases *o,
{
    match o {
        Some(b) => add_node_spans(b, lo, hi, Ghost(src)),
        None => {},
    }
}

fn add_nodes_spans(ns: &Vec<Node>, lo: &mut usize, hi: &mut usize, Ghost(src): Ghost<Seq<u8>>)
    requires
        nodes_fit(src, ns@),
        src.len() <= usize::MAX,
        bounds_ok(src, (*old(lo), *old(hi))),
    ensures
        (*final(lo), *final(hi)) == nodes_bounds(ns@, (*old(lo), *old(hi))),
        bounds_ok(src, (*final(lo), *final(hi))),
    decreases *ns,
{
    let ghost b0 = (*lo, *hi);
    let mut i: usize = 0;
    while i < ns.len()
        invariant
            0 <= i <= ns@.len(),
            nodes_fit(src, ns@),
            src.len() <= usize::MAX,
            (*lo, *hi) == nodes_bounds(ns@.take(i as int), b0),
            bounds_ok(src, (*lo, *hi)),
        decreases ns@.len() - i,
    {
        proof {
            lemma_nodes_fit_at(src, ns@, i as int);
            assert(ns@.take(i + 1).drop_last() =~= ns@.take(i as int));
        }
        add_node_spans(&ns[i], lo, hi, Ghost(src));
        i += 1;
    }
    assert(ns@.take(i as int) =~= ns@);
}


/// A boundary of a valid UTF-8 sequence before `hi` is also a boundary of
/// its first `hi` bytes.
proof fn lemma_prefix_boundary(bytes: Seq<u8>, lo: int, hi: int)
    requires
        valid_utf8(bytes),
        0 <= lo < hi <= bytes.len(),
        is_char_boundary(bytes, lo),
        is_char_boundary(bytes, hi),
    ensures
        valid_utf8(bytes.subrange(0, hi)),
        is_char_boundary(bytes.subrange(0, hi), lo),
{
    valid_utf8_split(bytes, hi);
    let head = bytes.subrange(0, hi);
    is_char_boundary_iff_not_is_continuation_byte(bytes, lo);
    is_char_boundary_iff_not_is_continuation_byte(head, lo);
    assert(head[lo] == bytes[lo]);
}

/// The source text an expression spans: from the start of its first
/// non-empty span to the end of its last one (`None` if it has none).
pub fn expr_source_text(source: &str, e: &Node) -> (r: Option<String>)
    requires
        node_fits(utf8(source@), *e),
        utf8(source@).len() <= usize::MAX,
    ensures
        match r {
            Some(t) => expr_text(utf8(source@), *e) == Some(t@),
            None => expr_text(utf8(source@), *e) is None,
        },
{
    let ghost src = utf8(source@);
    proof {
        encode_utf8_valid_utf8(source@);
        is_char_boundary_start_end_of_seq(src);
    }
    let mut lo: usize = usize::MAX;
    let mut hi: usize = 0;
    add_node_spans(e, &mut lo, &mut hi, Ghost(src));
    if lo < hi {
        proof {
            lemma_prefix_boundary(src, lo as int, hi as int);
        }
        let (head, _) = source.split_at(hi);
        assert(head.spec_bytes() =~= src.subrange(0, hi as int));
        let (_, mid) = head.split_at(lo);
        let text = mid.to_owned();
        proof {
            assert(mid.spec_bytes() =~= src.subrange(lo as int, hi as int));
            encode_utf8_decode_utf8(mid@);
        }
        Some(text)
    } else {
        None
    }
}


// ── Result columns ───────────────────────────────────────────────────────────

/// The name a result column gets, lowercased: its alias; else, for a bare
/// column reference, the column's name; else the text its expression spans.
pub open spec fn result_column_name(src: Seq<u8>, alias: Span, expr: Option<Box<Node>>) -> Option<Seq<char>> {
    if alias.text@.len() > 0 {
        Some(lower_chars(alias.text@))
    } else {
        match expr {
            None => None,
            Some(e) => match *e {
                Node::ColumnRef { column, .. } if column.text@.len() > 0 => Some(lower_chars(column.text@)),
                _ => match expr_text(src, *e) {
                    Some(t) => Some(lower_chars(t)),
                    None => None,
                },
            },
        }
    }
}

/// The names of the result columns of a list, in order; `None` when one of
/// them is a `*` wildcard or cannot be named. Other nodes are skipped.
pub open spec fn result_names(src: Seq<u8>, cs: Seq<Node>) -> Option<Seq<Seq<char>>>
    decreases cs.len(),
{
    if cs.len() == 0 {
        Some(Seq::empty())
    } else {
        match result_names(src, cs.drop_last()) {
            None => None,
            Some(prev) => match cs.last() {
                Node::ResultColumn { star, alias, expr } => if star {
                    None
                } else {
                    match result_column_name(src, alias, expr) {
                        Some(n) => Some(prev.push(n)),
                        None => None,
                    }
                },
                _ => Some(prev),
            },
        }
    }
}

/// The column names a SELECT body yields: those of its result columns, or
/// `None` when it is not a plain query, has none, or one of them cannot be
/// named (a wildcard, say).
pub open spec fn select_columns(src: Seq<u8>, n: Node) -> Option<Seq<Seq<char>>> {
    match n {
        Node::Query { results: Some(cs), .. } => match result_names(src, cs@) {
            Some(names) => if names.len() > 0 {
                Some(names)
            } else {
                None
            },
            None => None,
        },
        _ => None,
    }
}

/// `select_columns` of an optional body.
pub open spec fn opt_select_columns(src: Seq<u8>, o: Option<Box<Node>>) -> Option<Seq<Seq<char>>> {
    match o {
        Some(b) => select_columns(src, *b),
        None => None,
    }
}

/// The number of result columns in a list, or `None` if one is a wildcard.
pub open spec fn result_count(cs: Seq<Node>) -> Option<nat>
    decreases cs.len(),
{
    if cs.len() == 0 {
        Some(0)
    } else {
        match result_count(cs.drop_last()) {
            None => None,
            Some(k) => match cs.last() {
                Node::ResultColumn { star, .. } => if star {
                    None
                } else {
                    Some(k + 1)
                },
                _ => Some(k),
            },
        }
    }
}

/// How many result columns a body has, when it is a plain query without
/// wildcards.
pub open spec fn body_column_count(o: Option<Box<Node>>) -> Option<nat> {
    match o {
        Some(b) => match *b {
            Node::Query { results: Some(cs), .. } => result_count(cs@),
            _ => None,
        },
        None => None,
    }
}

/// The aliased result columns of a list: their alias spans, in order.
pub open spec fn alias_spans(cs: Seq<Node>) -> Seq<Span>
    decreases cs.len(),
{
    if cs.len() == 0 {
        Seq::empty()
    } else {
        let prev = alias_spans(cs.drop_last());
        match cs.last() {
            Node::ResultColumn { alias, .. } => if alias.text@.len() > 0 {
                prev.push(alias)
            } else {
                prev
            },
            _ => prev,
        }
    }
}

/// The aliases of an optional result column list.
pub open spec fn result_aliases(results: Option<Vec<Node>>) -> Seq<Span> {
    match results {
        Some(cs) => alias_spans(cs@),
        None => Seq::empty(),
    }
}

/// The aliases of the result columns of a body that is a plain query.
pub open spec fn body_aliases(o: Option<Box<Node>>) -> Seq<Span> {
    match o {
        Some(b) => match *b {
            Node::Query { results, .. } => result_aliases(results),
            _ => Seq::empty(),
        },
        None => Seq::empty(),
    }
}

/// The non-empty spans of a list, in order.
pub open spec fn named_spans(sps: Seq<Span>) -> Seq<Span>
    decreases sps.len(),
{
    if sps.len() == 0 {
        Seq::empty()
    } else if sps.last().text@.len() > 0 {
        named_spans(sps.drop_last()).push(sps.last())
    } else {
        named_spans(sps.drop_last())
    }
}

/// The texts of a list of spans.
pub open spec fn span_texts(sps: Seq<Span>) -> Seq<Seq<char>> {
    sps.map_values(|sp: Span| sp.text@)
}

/// The name of one result column (see [`result_column_name`]).
pub(crate) fn result_column_name_of(source: &str, alias: &Span, expr: &Option<Box<Node>>) -> (r: Option<String>)
    requires
        span_fits(utf8(source@), *alias),
        opt_fits(utf8(source@), *expr),
        utf8(source@).len() <= usize::MAX,
    ensures
        opt_string_view(r) == result_column_name(utf8(source@), *alias, *expr),
{
    if !alias.text.as_str().is_empty() {
        return Some(ascii_lowercase(alias.text.as_str()));
    }
    match expr {
        None => None,
        Some(e) => {
            match &**e {
                Node::ColumnRef { column, .. } => {
                    if !column.text.as_str().is_empty() {
                        return Some(ascii_lowercase(column.text.as_str()));
                    }
                },
                _ => {},
            }
            match expr_source_text(source, e) {
                Some(t) => Some(ascii_lowercase(t.as_str())),
                None => None,
            }
        },
    }
}

/// The column names a SELECT body yields (see [`select_columns`]).
pub fn columns_from_select(source: &str, n: &Node) -> (r: Option<Vec<String>>)
    requires
        node_fits(utf8(source@), *n),
        utf8(source@).len() <= usize::MAX,
    ensures
        columns_view(r) == select_columns(utf8(source@), *n),
{
    let ghost src = utf8(source@);
    match n {
        Node::Query { results: Some(cs), .. } => {
            let mut out: Vec<String> = Vec::new();
            let mut i: usize = 0;
            while i < cs.len()
                invariant
                    0 <= i <= cs@.len(),
                    nodes_fit(src, cs@),
                    src == utf8(source@),
                    src.len() <= usize::MAX,
                    result_names(src, cs@.take(i as int)) == Some(string_views(out@)),
                    (*n) matches Node::Query { results: Some(v), .. } && v@ == cs@,
                decreases cs@.len() - i,
            {
                proof {
                    lemma_nodes_fit_at(src, cs@, i as int);
                    assert(cs@.take(i + 1).drop_last() =~= cs@.take(i as int));
                }
                assert(cs@.take(i + 1).last() == cs@[i as int]);
                match &cs[i] {
                    Node::ResultColumn { star, alias, expr } => {
                        if *star {
                            proof {
                                assert(result_names(src, cs@.take(i + 1)) is None);
                                lemma_result_names_none_stays(src, cs@, i + 1);
                            }
                            return None;
                        }
                        let ghost prev = string_views(out@);
                        match result_column_name_of(source, alias, expr) {
                            Some(name) => {
                                let ghost nv = name@;
                                out.push(name);
                                assert(string_views(out@) =~= prev.push(nv));
                            },
                            None => {
                                proof {
                                    assert(result_names(src, cs@.take(i + 1)) is None);
                                    lemma_result_names_none_stays(src, cs@, i + 1);
                                }
                                return None;
                            },
                        }
                    },
                    _ => {},
                }
                i += 1;
            }
            assert(cs@.take(i as int) =~= cs@);
            if out.len() > 0 {
                Some(out)
            } else {
                None
            }
        },
        _ => None,
    }
}


/// Once a prefix of the result columns cannot be named, neither can the list.
proof fn lemma_result_names_none_stays(src: Seq<u8>, cs: Seq<Node>, k: int)
    requires
        0 <= k <= cs.len(),
        result_names(src, cs.take(k)) is None,
    ensures
        result_names(src, cs) is None,
    decreases cs.len() - k,
{
    if k < cs.len() {
        assert(cs.take(k + 1).drop_last() =~= cs.take(k));
        lemma_result_names_none_stays(src, cs, k + 1);
    } else {
        assert(cs.take(k) =~= cs);
    }
}


// ── Parsed documents ─────────────────────────────────────────────────────────

/// One item a parser yields for a document: a statement, or an error for a
/// stretch it could not parse (its message, and where, when known).
#[derive(Debug)]
pub enum ParseItem {
    Statement(Node),
    Error { message: String, offset: Option<usize>, length: Option<usize> },
}

/// Every statement of a list fits the source.
pub open spec fn items_fit(src: Seq<u8>, items: Seq<ParseItem>) -> bool {
    forall|i: int| 0 <= i < items.len() ==> (#[trigger] items[i] matches ParseItem::Statement(n) ==> node_fits(src, n))
}

} // verus!
