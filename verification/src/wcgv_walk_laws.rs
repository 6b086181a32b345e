//! What a walk through reported symbols finds, said of the places of the symbols in the report.

use vstd::prelude::*;
use crate::edges::edge;
use crate::text::opt_text;
use crate::wcgv::{
    is_interesting, kind_name, or_zero, own_part, range_of, symbol_name, symbol_node, symbol_ranges,
    walked, SymbolModel, SymbolText,
};
use crate::wcgv_laws::{lemma_stands_further, lemma_stands_last, stands_in};

verus! {

/// Whether the report has a symbol at a place: the number of a symbol, of one inside it, and so on.
pub open spec fn lies_in(items: Seq<SymbolModel>, place: Seq<int>) -> bool
    decreases place.len(),
{
    &&& place.len() > 0
    &&& 0 <= place[0] < items.len()
    &&& place.len() == 1 || lies_in(items[place[0]].children@, place.drop_first())
}

/// The symbol at a place of the report.
pub open spec fn symbol_at(items: Seq<SymbolModel>, place: Seq<int>) -> SymbolModel
    decreases place.len(),
{
    if place.len() <= 1 {
        items[place[0]]
    } else {
        symbol_at(items[place[0]].children@, place.drop_first())
    }
}

/// Whether a symbol becomes a node.
pub open spec fn becomes_node(sym: SymbolModel, fields: bool) -> bool {
    is_interesting(kind_name(or_zero(sym.kind)), fields)
}

/// The node that a symbol becomes.
pub open spec fn node_of(sym: SymbolModel, rel_path: Seq<char>, content: Option<Seq<char>>) -> SymbolText {
    symbol_node(sym, symbol_ranges(sym)->Ok_0.0, symbol_ranges(sym)->Ok_0.1, rel_path, content)
}

/// The node that what is inside a symbol is contained in.
pub open spec fn inner_of(
    sym: SymbolModel,
    rel_path: Seq<char>,
    content: Option<Seq<char>>,
    fields: bool,
    parent: Option<Seq<char>>,
) -> Option<Seq<char>> {
    if becomes_node(sym, fields) {
        Some(node_of(sym, rel_path, content).key)
    } else {
        parent
    }
}

proof fn lemma_stands_behind<T>(part: Seq<T>, before: Seq<T>, whole: Seq<T>)
    requires
        stands_in(part, whole),
    ensures
        stands_in(part, before + whole),
{
    let (a, b) = choose|a: int, b: int| 0 <= a <= b <= whole.len() && part == #[trigger] whole.subrange(a, b);
    assert((before + whole).subrange(before.len() + a, before.len() + b) =~= part);
}

proof fn lemma_stands_first<T>(part: Seq<T>, more: Seq<T>)
    ensures
        stands_in(part, part + more),
{
    assert((part + more).subrange(0, part.len() as int) =~= part);
}

proof fn lemma_stood<T>(part: Seq<T>, whole: Seq<T>, x: T)
    requires
        stands_in(part, whole),
        part.contains(x),
    ensures
        whole.contains(x),
{
    let (a, b) = choose|a: int, b: int| 0 <= a <= b <= whole.len() && part == #[trigger] whole.subrange(a, b);
    let k = choose|k: int| 0 <= k < part.len() && part[k] == x;
    assert(whole[a + k] == x);
}

/// What symbol `i` itself adds and what is inside it both stand in a walk.
proof fn lemma_item_walked(
    items: Seq<SymbolModel>,
    rel_path: Seq<char>,
    content: Option<Seq<char>>,
    fields: bool,
    parent: Option<Seq<char>>,
    i: int,
)
    requires
        walked(items, rel_path, content, fields, parent) is Ok,
        0 <= i < items.len(),
    ensures
        symbol_ranges(items[i]) is Ok,
        ({
            let w = walked(items, rel_path, content, fields, parent)->Ok_0;
            let own = own_part(node_of(items[i], rel_path, content), becomes_node(items[i], fields), parent);
            let inside = walked(
                items[i].children@,
                rel_path,
                content,
                fields,
                inner_of(items[i], rel_path, content, fields, parent),
            );
            &&& inside is Ok
            &&& stands_in(own.nodes, w.nodes)
            &&& stands_in(own.edges, w.edges)
            &&& stands_in(inside->Ok_0.nodes, w.nodes)
            &&& stands_in(inside->Ok_0.edges, w.edges)
        }),
    decreases items.len(),
{
    let w = walked(items, rel_path, content, fields, parent)->Ok_0;
    let tail = items.subrange(1, items.len() as int);
    let own = own_part(node_of(items[0], rel_path, content), becomes_node(items[0], fields), parent);
    let inner = inner_of(items[0], rel_path, content, fields, parent);
    assert(symbol_ranges(items[0]) is Ok);
    let inside = walked(items[0].children@, rel_path, content, fields, inner);
    assert(inside is Ok);
    let rest = walked(tail, rel_path, content, fields, parent);
    assert(rest is Ok);
    let c = inside->Ok_0;
    let r = rest->Ok_0;
    assert(w.nodes == own.nodes + c.nodes + r.nodes);
    assert(w.edges == own.edges + c.edges + r.edges);
    if i == 0 {
        lemma_stands_first(own.nodes, c.nodes);
        lemma_stands_first(own.edges, c.edges);
        lemma_stands_further(own.nodes, own.nodes + c.nodes, r.nodes);
        lemma_stands_further(own.edges, own.edges + c.edges, r.edges);
        lemma_stands_last(own.nodes, c.nodes);
        lemma_stands_last(own.edges, c.edges);
        lemma_stands_further(c.nodes, own.nodes + c.nodes, r.nodes);
        lemma_stands_further(c.edges, own.edges + c.edges, r.edges);
    } else {
        lemma_item_walked(tail, rel_path, content, fields, parent, i - 1);
        assert(tail[i - 1] == items[i]);
        let own_i = own_part(node_of(items[i], rel_path, content), becomes_node(items[i], fields), parent);
        let c_i = walked(
            items[i].children@,
            rel_path,
            content,
            fields,
            inner_of(items[i], rel_path, content, fields, parent),
        )->Ok_0;
        lemma_stands_behind(own_i.nodes, own.nodes + c.nodes, r.nodes);
        lemma_stands_behind(own_i.edges, own.edges + c.edges, r.edges);
        lemma_stands_behind(c_i.nodes, own.nodes + c.nodes, r.nodes);
        lemma_stands_behind(c_i.edges, own.edges + c.edges, r.edges);
    }
}

/// Wherever in the report a symbol stands whose kind becomes a node, at any depth, the walk has a
/// node with its name, kind, file, signature and ranges.
pub proof fn law_every_symbol_is_a_node(
    items: Seq<SymbolModel>,
    rel_path: Seq<char>,
    content: Option<Seq<char>>,
    fields: bool,
    parent: Option<Seq<char>>,
    place: Seq<int>,
)
    requires
        walked(items, rel_path, content, fields, parent) is Ok,
        lies_in(items, place),
        becomes_node(symbol_at(items, place), fields),
    ensures
        ({
            let sym = symbol_at(items, place);
            let nodes = walked(items, rel_path, content, fields, parent)->Ok_0.nodes;
            &&& sym.range is Some
            &&& nodes.contains(node_of(sym, rel_path, content))
            &&& exists|k: int|
                {
                    &&& 0 <= k < nodes.len()
                    &&& (#[trigger] nodes[k]).label == symbol_name(sym)
                    &&& nodes[k].kind == kind_name(or_zero(sym.kind))
                    &&& nodes[k].path == rel_path
                    &&& nodes[k].signature == opt_text(sym.detail)
                    &&& range_of(sym.range->0) == Ok::<crate::ranges::SourceRange, crate::wcgv::SymbolError>(
                        nodes[k].full_range,
                    )
                }
        }),
    decreases place.len(),
{
    let i = place[0];
    let w = walked(items, rel_path, content, fields, parent)->Ok_0;
    lemma_item_walked(items, rel_path, content, fields, parent, i);
    let sym = symbol_at(items, place);
    let node = node_of(sym, rel_path, content);
    if place.len() == 1 {
        let own = own_part(node, true, parent);
        assert(own.nodes[0] == node);
        lemma_stood(own.nodes, w.nodes, node);
    } else {
        let inner = inner_of(items[i], rel_path, content, fields, parent);
        let c = walked(items[i].children@, rel_path, content, fields, inner)->Ok_0;
        law_every_symbol_is_a_node(items[i].children@, rel_path, content, fields, inner, place.drop_first());
        lemma_stood(c.nodes, w.nodes, node);
    }
    let k = choose|k: int| 0 <= k < w.nodes.len() && w.nodes[k] == node;
    assert(w.nodes[k].label == symbol_name(sym));
}

/// A symbol right inside another one, both of kinds that become nodes, has an edge from that one's
/// node to its own, wherever in the report they stand.
pub proof fn law_every_symbol_is_contained(
    items: Seq<SymbolModel>,
    rel_path: Seq<char>,
    content: Option<Seq<char>>,
    fields: bool,
    parent: Option<Seq<char>>,
    place: Seq<int>,
    child: int,
)
    requires
        walked(items, rel_path, content, fields, parent) is Ok,
        lies_in(items, place),
        0 <= child < symbol_at(items, place).children@.len(),
        becomes_node(symbol_at(items, place), fields),
        becomes_node(symbol_at(items, place).children@[child], fields),
    ensures
        walked(items, rel_path, content, fields, parent)->Ok_0.edges.contains(
            edge(
                node_of(symbol_at(items, place), rel_path, content).key,
                node_of(symbol_at(items, place).children@[child], rel_path, content).key,
                "contains"@,
            ),
        ),
    decreases place.len(),
{
    let i = place[0];
    let w = walked(items, rel_path, content, fields, parent)->Ok_0;
    lemma_item_walked(items, rel_path, content, fields, parent, i);
    let inner = inner_of(items[i], rel_path, content, fields, parent);
    let inside = items[i].children@;
    let c = walked(inside, rel_path, content, fields, inner)->Ok_0;
    let sym = symbol_at(items, place);
    let e = edge(
        node_of(sym, rel_path, content).key,
        node_of(sym.children@[child], rel_path, content).key,
        "contains"@,
    );
    if place.len() == 1 {
        lemma_item_walked(inside, rel_path, content, fields, inner, child);
        let own = own_part(node_of(inside[child], rel_path, content), true, inner);
        assert(own.edges[0] == e);
        lemma_stood(own.edges, c.edges, e);
    } else {
        law_every_symbol_is_contained(inside, rel_path, content, fields, inner, place.drop_first(), child);
    }
    lemma_stood(c.edges, w.edges, e);
}

/// A symbol of the report that is not inside another one and becomes a node has an edge from the
/// parent that was given.
pub proof fn law_outermost_symbols_belong_to_the_parent(
    items: Seq<SymbolModel>,
    rel_path: Seq<char>,
    content: Option<Seq<char>>,
    fields: bool,
    parent: Seq<char>,
    i: int,
)
    requires
        walked(items, rel_path, content, fields, Some(parent)) is Ok,
        0 <= i < items.len(),
        becomes_node(items[i], fields),
    ensures
        walked(items, rel_path, content, fields, Some(parent))->Ok_0.edges.contains(
            edge(parent, node_of(items[i], rel_path, content).key, "contains"@),
        ),
{
    let w = walked(items, rel_path, content, fields, Some(parent))->Ok_0;
    lemma_item_walked(items, rel_path, content, fields, Some(parent), i);
    let own = own_part(node_of(items[i], rel_path, content), true, Some(parent));
    let e = edge(parent, node_of(items[i], rel_path, content).key, "contains"@);
    assert(own.edges[0] == e);
    lemma_stood(own.edges, w.edges, e);
}

/// Whether a node is that of a symbol of the report whose kind becomes one.
pub open spec fn comes_from_report(
    items: Seq<SymbolModel>,
    rel_path: Seq<char>,
    content: Option<Seq<char>>,
    fields: bool,
    node: SymbolText,
) -> bool {
    exists|place: Seq<int>|
        {
            &&& #[trigger] lies_in(items, place)
            &&& becomes_node(symbol_at(items, place), fields)
            &&& node == node_of(symbol_at(items, place), rel_path, content)
        }
}

/// Every node of a walk is that of a symbol of the report whose kind becomes one.
pub proof fn law_nodes_come_from_symbols(
    items: Seq<SymbolModel>,
    rel_path: Seq<char>,
    content: Option<Seq<char>>,
    fields: bool,
    parent: Option<Seq<char>>,
    k: int,
)
    requires
        walked(items, rel_path, content, fields, parent) is Ok,
        0 <= k < walked(items, rel_path, content, fields, parent)->Ok_0.nodes.len(),
    ensures
        comes_from_report(
            items,
            rel_path,
            content,
            fields,
            walked(items, rel_path, content, fields, parent)->Ok_0.nodes[k],
        ),
    decreases items,
{
    if items.len() > 0 {
        let w = walked(items, rel_path, content, fields, parent)->Ok_0;
        let tail = items.subrange(1, items.len() as int);
        let own = own_part(node_of(items[0], rel_path, content), becomes_node(items[0], fields), parent);
        let inner = inner_of(items[0], rel_path, content, fields, parent);
        assert(symbol_ranges(items[0]) is Ok);
        let c = walked(items[0].children@, rel_path, content, fields, inner)->Ok_0;
        let r = walked(tail, rel_path, content, fields, parent)->Ok_0;
        assert(w.nodes == own.nodes + c.nodes + r.nodes);
        let a = own.nodes.len();
        let b = c.nodes.len();
        let node = w.nodes[k];
        if k < a {
            let place = seq![0int];
            assert(lies_in(items, place));
            assert(symbol_at(items, place) == items[0]);
        } else if k < a + b {
            assert(node == c.nodes[k - a]);
            law_nodes_come_from_symbols(items[0].children@, rel_path, content, fields, inner, k - a);
            let p = choose|place: Seq<int>|
                {
                    &&& #[trigger] lies_in(items[0].children@, place)
                    &&& becomes_node(symbol_at(items[0].children@, place), fields)
                    &&& node == node_of(symbol_at(items[0].children@, place), rel_path, content)
                };
            let place = seq![0int] + p;
            assert(place.drop_first() =~= p);
            assert(lies_in(items, place));
            assert(symbol_at(items, place) == symbol_at(items[0].children@, p));
        } else {
            assert(node == r.nodes[k - a - b]);
            law_nodes_come_from_symbols(tail, rel_path, content, fields, parent, k - a - b);
            let p = choose|place: Seq<int>|
                {
                    &&& #[trigger] lies_in(tail, place)
                    &&& becomes_node(symbol_at(tail, place), fields)
                    &&& node == node_of(symbol_at(tail, place), rel_path, content)
                };
            let place = p.update(0, p[0] + 1);
            assert(tail[p[0]] == items[p[0] + 1]);
            assert(place.drop_first() =~= p.drop_first());
            assert(lies_in(items, place));
            assert(symbol_at(items, place) == symbol_at(tail, p));
        }
    }
}

/// A walk fails only where some symbol of the report has no range of its own, or a range without a
/// start or an end.
pub proof fn law_walk_succeeds(
    items: Seq<SymbolModel>,
    rel_path: Seq<char>,
    content: Option<Seq<char>>,
    fields: bool,
    parent: Option<Seq<char>>,
)
    requires
        forall|place: Seq<int>| #[trigger]
            lies_in(items, place) ==> symbol_ranges(symbol_at(items, place)) is Ok,
    ensures
        walked(items, rel_path, content, fields, parent) is Ok,
    decreases items,
{
    if items.len() > 0 {
        let tail = items.subrange(1, items.len() as int);
        let inside = items[0].children@;
        let own = seq![0int];
        assert(lies_in(items, own));
        assert(symbol_at(items, own) == items[0]);
        assert forall|p: Seq<int>| #[trigger] lies_in(inside, p) implies symbol_ranges(symbol_at(inside, p)) is Ok by {
            let place = own + p;
            assert(place.drop_first() =~= p);
            assert(lies_in(items, place));
            assert(symbol_at(items, place) == symbol_at(inside, p));
        }
        assert forall|p: Seq<int>| #[trigger] lies_in(tail, p) implies symbol_ranges(symbol_at(tail, p)) is Ok by {
            let place = p.update(0, p[0] + 1);
            assert(tail[p[0]] == items[p[0] + 1]);
            assert(place.drop_first() =~= p.drop_first());
            assert(lies_in(items, place));
            assert(symbol_at(items, place) == symbol_at(tail, p));
        }
        law_walk_succeeds(inside, rel_path, content, fields, inner_of(items[0], rel_path, content, fields, parent));
        law_walk_succeeds(tail, rel_path, content, fields, parent);
    }
}

} // verus!
