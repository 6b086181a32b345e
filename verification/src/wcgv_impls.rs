//! Implementations as nodes of a symbol graph.

use vstd::prelude::*;
use crate::edges::{append_edges, edge, edge_texts, push_edge, EdgeText, GraphEdge};
use crate::ranges::{bytes_snippet, contains, covers, read_range_snippet, SourceRange, Span};
use crate::syntax::{
    impl_block, impl_span, item_texts, parse_impl, parse_impl_span, parse_items, path_names,
    source_items, ImplBlock, ImplSpan, ImplSpanText, ImplText, ItemKind, ItemText, PlacedName,
    SourceItem,
};
use crate::text::{join, joined, opt_text, same, texts};
use crate::wcgv::{
    impl_key, make_impl_key, make_syn_range, push_symbol, symbol_texts, syn_range, SymbolNode,
    SymbolText,
};
use crate::wcgv_links::{find_type, type_key};

verus! {

/// An implementation in a file.
#[derive(Debug, PartialEq, Eq)]
pub struct ImplNode {
    pub key: String,
    pub path: String,
    pub target_label: String,
    pub trait_label: Option<String>,
    pub full_range: SourceRange,
    pub selection_range: SourceRange,
    pub source_snippet: Option<String>,
}

/// What an `ImplNode` holds.
pub struct ImplNodeText {
    pub key: Seq<char>,
    pub path: Seq<char>,
    pub target_label: Seq<char>,
    pub trait_label: Option<Seq<char>>,
    pub full_range: SourceRange,
    pub selection_range: SourceRange,
    pub source_snippet: Option<Seq<char>>,
}

impl View for ImplNode {
    type V = ImplNodeText;

    open spec fn view(&self) -> ImplNodeText {
        ImplNodeText {
            key: self.key@,
            path: self.path@,
            target_label: self.target_label@,
            trait_label: opt_text(self.trait_label),
            full_range: self.full_range,
            selection_range: self.selection_range,
            source_snippet: opt_text(self.source_snippet),
        }
    }
}

pub open spec fn impl_node_texts(v: Seq<ImplNode>) -> Seq<ImplNodeText> {
    v.map_values(|i: ImplNode| i@)
}

/// The label of a type: the last name on its path, if it is one.
pub open spec fn type_label(path: Option<Seq<Seq<char>>>) -> Seq<char> {
    match path {
        Some(p) if p.len() > 0 => p.last(),
        _ => "<type>"@,
    }
}

/// The label of a type: the last name on its path, if it is one.
pub fn type_to_label(path: &Option<Vec<String>>) -> (r: String)
    ensures
        r@ == type_label(
            match *path {
                Some(p) => Some(texts(p@)),
                None => None,
            },
        ),
{
    match path {
        Some(p) => if p.len() > 0 {
            assert(texts(p@).last() == p@[p@.len() - 1]@);
            p[p.len() - 1].clone()
        } else {
            "<type>".to_owned()
        },
        None => "<type>".to_owned(),
    }
}

/// The label of a trait: its path.
pub open spec fn trait_label(path: Option<Seq<(Seq<char>, Span)>>) -> Option<Seq<char>> {
    match path {
        Some(p) => Some(joined(p.map_values(|n: (Seq<char>, Span)| n.0), "::"@)),
        None => None,
    }
}

/// The label of a trait: its path.
pub fn path_to_label(path: &Option<Vec<PlacedName>>) -> (r: Option<String>)
    ensures
        opt_text(r) == trait_label(
            match *path {
                Some(p) => Some(path_names(p@)),
                None => None,
            },
        ),
{
    match path {
        Some(p) => {
            let ghost all = path_names(p@).map_values(|n: (Seq<char>, Span)| n.0);
            let mut names: Vec<String> = Vec::new();
            let mut i: usize = 0;
            while i < p.len()
                invariant
                    i <= p@.len(),
                    texts(names@) == all.take(i as int),
                decreases p@.len() - i,
            {
                let ghost now = texts(names@);
                let name: String = p[i].name.clone();
                assert(name@ == all[i as int]);
                names.push(name);
                assert(texts(names@) =~= now.push(all[i as int]));
                assert(all.take(i + 1) =~= all.take(i as int).push(all[i as int]));
                i += 1;
            }
            assert(all.take(i as int) =~= all);
            Some(join(&names, "::"))
        },
        None => None,
    }
}

/// The span that an implementation is found by: the last name of its trait, or its type.
pub open spec fn name_span(s: ImplSpanText) -> Span {
    match s.trait_path {
        Some(p) if p.len() > 0 => p.last().1,
        _ => s.self_type,
    }
}

/// The span that an implementation is found by.
pub fn selection_span(s: &ImplSpan) -> (r: Span)
    ensures
        r == name_span(s@),
{
    match &s.trait_path {
        Some(p) => if p.len() > 0 {
            assert(path_names(p@).last() == (p@[p@.len() - 1].name@, p@[p@.len() - 1].span));
            p[p.len() - 1].span
        } else {
            s.self_type
        },
        None => s.self_type,
    }
}

/// The node of an implementation.
pub open spec fn impl_node(
    block: ImplText,
    span: ImplSpanText,
    source: Seq<char>,
    rel_path: Seq<char>,
    include_sources: bool,
) -> ImplNodeText {
    let full = syn_range(source, span.block);
    let selection = syn_range(source, name_span(span));
    ImplNodeText {
        key: impl_key(
            rel_path,
            type_label(block.type_path),
            trait_label(span.trait_path),
            selection.start,
        ),
        path: rel_path,
        target_label: type_label(block.type_path),
        trait_label: trait_label(span.trait_path),
        full_range: full,
        selection_range: selection,
        source_snippet: if include_sources {
            bytes_snippet(source, full)
        } else {
            None
        },
    }
}

/// The node of an implementation, given what the parser sees of it.
pub fn make_impl_node(
    block: &ImplBlock,
    span: &ImplSpan,
    source: &str,
    rel_path: &str,
    include_sources: bool,
) -> (r: ImplNode)
    ensures
        r@ == impl_node(block@, span@, source@, rel_path@, include_sources),
{
    let target_label: String = type_to_label(&block.type_path);
    let trait_label: Option<String> = path_to_label(&span.trait_path);
    let full_range: SourceRange = make_syn_range(source, span.block);
    let selection_range: SourceRange = make_syn_range(source, selection_span(span));
    let source_snippet: Option<String> = if include_sources {
        read_range_snippet(source, &full_range)
    } else {
        None
    };
    ImplNode {
        key: make_impl_key(rel_path, target_label.as_str(), &trait_label, &selection_range),
        path: rel_path.to_owned(),
        target_label,
        trait_label,
        full_range,
        selection_range,
        source_snippet,
    }
}

/// The implementations among the first `n` items of a file.
pub open spec fn impl_nodes(
    source: Seq<char>,
    rel_path: Seq<char>,
    include_sources: bool,
    items: Seq<ItemText>,
    n: int,
) -> Seq<ImplNodeText>
    decreases n,
{
    if n <= 0 {
        Seq::empty()
    } else {
        let before = impl_nodes(source, rel_path, include_sources, items, n - 1);
        match (impl_block(source, (n - 1) as nat), impl_span(source, (n - 1) as nat)) {
            (Some(b), Some(s)) if items[n - 1].kind == ItemKind::Impl => before.push(
                impl_node(b, s, source, rel_path, include_sources),
            ),
            _ => before,
        }
    }
}

/// The implementations of a file, or `None` where it does not parse.
pub fn collect_impl_blocks(source: &str, rel_path: &str, include_sources: bool) -> (r: Option<
    Vec<ImplNode>,
>)
    ensures
        match (source_items(source@), r) {
            (Some(items), Some(v)) => impl_node_texts(v@) == impl_nodes(
                source@,
                rel_path@,
                include_sources,
                items,
                items.len() as int,
            ),
            (items, v) => items is None && v is None,
        },
{
    let items: Vec<SourceItem> = match parse_items(source) {
        Some(v) => v,
        None => {
            return None;
        },
    };
    let ghost all = item_texts(items@);
    let mut out: Vec<ImplNode> = Vec::new();
    let n: usize = items.len();
    let mut i: usize = 0;
    assert(impl_node_texts(out@) =~= Seq::empty());
    while i < n
        invariant
            i <= n,
            n == items@.len(),
            impl_node_texts(out@) == impl_nodes(source@, rel_path@, include_sources, all, i as int),
        decreases n - i,
    {
        let ghost now = impl_node_texts(out@);
        assert(all[i as int] == items@[i as int]@);
        match items[i].kind {
            ItemKind::Impl => {
                let block: Option<ImplBlock> = parse_impl(source, i);
                let span: Option<ImplSpan> = parse_impl_span(source, i);
                match (block, span) {
                    (Some(b), Some(s)) => {
                        let node: ImplNode = make_impl_node(
                            &b,
                            &s,
                            source,
                            rel_path,
                            include_sources,
                        );
                        let ghost held = node@;
                        out.push(node);
                        assert(impl_node_texts(out@) =~= now.push(held));
                    },
                    _ => {},
                }
            },
            _ => {},
        }
        i += 1;
    }
    Some(out)
}

/// What an implementation is called.
pub open spec fn impl_title(i: ImplNode) -> Seq<char> {
    match i.trait_label {
        Some(t) => "impl "@ + t@ + " for "@ + i.target_label@,
        None => "impl "@ + i.target_label@,
    }
}

fn show_title(i: &ImplNode) -> (r: String)
    ensures
        r@ == impl_title(*i),
{
    let mut out: String = "impl ".to_owned();
    match &i.trait_label {
        Some(t) => {
            out.append(t.as_str());
            out.append(" for ");
        },
        None => {},
    }
    out.append(i.target_label.as_str());
    out
}

/// The symbol that an implementation is.
pub open spec fn impl_symbol(i: ImplNode) -> SymbolText {
    SymbolText {
        key: i.key@,
        label: impl_title(i),
        kind: "impl"@,
        path: i.path@,
        visibility: "private"@,
        signature: Some(impl_title(i)),
        selection_range: i.selection_range,
        full_range: i.full_range,
        source_snippet: opt_text(i.source_snippet),
    }
}

fn make_impl_symbol(i: &ImplNode) -> (r: SymbolNode)
    ensures
        r@ == impl_symbol(*i),
{
    SymbolNode {
        key: i.key.clone(),
        label: show_title(i),
        kind: "impl".to_owned(),
        path: i.path.clone(),
        visibility: "private".to_owned(),
        signature: Some(show_title(i)),
        selection_range: i.selection_range,
        full_range: i.full_range,
        source_snippet: match &i.source_snippet {
            Some(s) => Some(s.clone()),
            None => None,
        },
    }
}

/// Whether a symbol is a method whose name lies in an implementation.
pub open spec fn is_method_in(n: SymbolNode, i: ImplNode) -> bool {
    n.kind@ == "method"@ && n.path@ == i.path@ && covers(
        i.full_range,
        n.selection_range.start.line as int,
        n.selection_range.start.column as int,
    )
}

/// The edges from an implementation to its methods among the first `n` symbols.
pub open spec fn method_edges(nodes: Seq<SymbolNode>, n: int, i: ImplNode) -> Seq<EdgeText>
    decreases n,
{
    if n <= 0 {
        Seq::empty()
    } else if is_method_in(nodes[n - 1], i) {
        method_edges(nodes, n - 1, i).push(edge(i.key@, nodes[n - 1].key@, "contains"@))
    } else {
        method_edges(nodes, n - 1, i)
    }
}

/// The edges of an implementation: to its type, where that is a symbol, and to its methods.
pub open spec fn impl_edges(nodes: Seq<SymbolNode>, i: ImplNode) -> Seq<EdgeText> {
    (match type_key(nodes, i.target_label@, true) {
        Some(t) => seq![edge(i.key@, t, "associated_with"@)],
        None => Seq::empty(),
    }) + method_edges(nodes, nodes.len() as int, i)
}

fn make_method_edges(nodes: &[SymbolNode], i: &ImplNode) -> (r: Vec<GraphEdge>)
    ensures
        edge_texts(r@) == method_edges(nodes@, nodes@.len() as int, *i),
{
    let mut out: Vec<GraphEdge> = Vec::new();
    let n: usize = nodes.len();
    let mut k: usize = 0;
    assert(edge_texts(out@) =~= Seq::empty());
    while k < n
        invariant
            k <= n,
            n == nodes@.len(),
            edge_texts(out@) == method_edges(nodes@, k as int, *i),
        decreases n - k,
    {
        let m: &SymbolNode = &nodes[k];
        if same(m.kind.as_str(), "method") && same(m.path.as_str(), i.path.as_str()) && contains(
            &i.full_range,
            m.selection_range.start.line,
            m.selection_range.start.column,
        ) {
            push_edge(&mut out, i.key.as_str(), m.key.as_str(), "contains");
        }
        k += 1;
    }
    out
}

fn make_impl_edges(nodes: &[SymbolNode], i: &ImplNode) -> (r: Vec<GraphEdge>)
    ensures
        edge_texts(r@) == impl_edges(nodes@, *i),
{
    let mut out: Vec<GraphEdge> = Vec::new();
    assert(edge_texts(out@) =~= Seq::empty());
    match find_type(nodes, i.target_label.as_str(), true) {
        Some(t) => {
            push_edge(&mut out, i.key.as_str(), nodes[t].key.as_str(), "associated_with");
        },
        None => {},
    }
    append_edges(&mut out, make_method_edges(nodes, i));
    out
}

/// The edges of the first `n` implementations.
pub open spec fn all_impl_edges(
    nodes: Seq<SymbolNode>,
    impls: Seq<ImplNode>,
    n: int,
) -> Seq<EdgeText>
    decreases n,
{
    if n <= 0 {
        Seq::empty()
    } else {
        all_impl_edges(nodes, impls, n - 1) + impl_edges(nodes, impls[n - 1])
    }
}

fn make_all_impl_edges(nodes: &[SymbolNode], impls: &[ImplNode]) -> (r: Vec<GraphEdge>)
    ensures
        edge_texts(r@) == all_impl_edges(nodes@, impls@, impls@.len() as int),
{
    let mut out: Vec<GraphEdge> = Vec::new();
    let n: usize = impls.len();
    let mut i: usize = 0;
    assert(edge_texts(out@) =~= Seq::empty());
    while i < n
        invariant
            i <= n,
            n == impls@.len(),
            edge_texts(out@) == all_impl_edges(nodes@, impls@, i as int),
        decreases n - i,
    {
        append_edges(&mut out, make_impl_edges(nodes, &impls[i]));
        i += 1;
    }
    out
}

/// Adds implementations to the symbols, with their edges to types and methods among the symbols
/// that were there before.
pub fn attach_impl_nodes_and_edges(
    nodes: &mut Vec<SymbolNode>,
    edges: &mut Vec<GraphEdge>,
    impls: &[ImplNode],
)
    ensures
        symbol_texts(final(nodes)@) == symbol_texts(old(nodes)@) + impls@.map_values(
            |i: ImplNode| impl_symbol(i),
        ),
        edge_texts(final(edges)@) == edge_texts(old(edges)@) + all_impl_edges(
            old(nodes)@,
            impls@,
            impls@.len() as int,
        ),
{
    let more: Vec<GraphEdge> = make_all_impl_edges(nodes.as_slice(), impls);
    append_edges(edges, more);
    let ghost start = symbol_texts(nodes@);
    let ghost all = impls@.map_values(|i: ImplNode| impl_symbol(i));
    let n: usize = impls.len();
    let mut i: usize = 0;
    assert(start + all.take(0) =~= start);
    while i < n
        invariant
            i <= n,
            n == impls@.len(),
            symbol_texts(nodes@) == start + all.take(i as int),
        decreases n - i,
    {
        push_symbol(nodes, make_impl_symbol(&impls[i]));
        assert(symbol_texts(nodes@) =~= start + all.take(i + 1));
        i += 1;
    }
    assert(all.take(i as int) =~= all);
}

} // verus!
