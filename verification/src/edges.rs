//! Edges of graphs.

use vstd::prelude::*;
use crate::json::{items, json_texts, list, put_item, text, Json, JsonText};
use crate::text::same;

verus! {

/// An edge between two nodes, named by their keys.
#[derive(Debug, PartialEq, Eq)]
pub struct GraphEdge {
    pub source: String,
    pub target: String,
    pub edge_type: String,
}

/// What a `GraphEdge` holds.
pub struct EdgeText {
    pub source: Seq<char>,
    pub target: Seq<char>,
    pub edge_type: Seq<char>,
}

impl View for GraphEdge {
    type V = EdgeText;

    open spec fn view(&self) -> EdgeText {
        EdgeText { source: self.source@, target: self.target@, edge_type: self.edge_type@ }
    }
}

pub open spec fn edge_texts(v: Seq<GraphEdge>) -> Seq<EdgeText> {
    v.map_values(|e: GraphEdge| e@)
}

pub open spec fn edge(source: Seq<char>, target: Seq<char>, edge_type: Seq<char>) -> EdgeText {
    EdgeText { source, target, edge_type }
}

/// Adds an edge.
pub fn push_edge(v: &mut Vec<GraphEdge>, source: &str, target: &str, edge_type: &str)
    ensures
        edge_texts(final(v)@) == edge_texts(old(v)@).push(edge(source@, target@, edge_type@)),
{
    let e: GraphEdge = GraphEdge {
        source: source.to_owned(),
        target: target.to_owned(),
        edge_type: edge_type.to_owned(),
    };
    let ghost held = e@;
    v.push(e);
    assert(edge_texts(v@) =~= edge_texts(old(v)@).push(held));
}

/// Adds the edges of `more`.
pub fn append_edges(v: &mut Vec<GraphEdge>, more: Vec<GraphEdge>)
    ensures
        edge_texts(final(v)@) == edge_texts(old(v)@) + edge_texts(more@),
{
    let ghost held = edge_texts(more@);
    let mut more: Vec<GraphEdge> = more;
    v.append(&mut more);
    assert(edge_texts(v@) =~= edge_texts(old(v)@) + held);
}

fn same_edge(a: &GraphEdge, b: &GraphEdge) -> (r: bool)
    ensures
        r == (a@ == b@),
{
    same(a.source.as_str(), b.source.as_str()) && same(a.target.as_str(), b.target.as_str())
        && same(a.edge_type.as_str(), b.edge_type.as_str())
}

fn holds_edge(v: &[GraphEdge], e: &GraphEdge) -> (r: bool)
    ensures
        r == edge_texts(v@).contains(e@),
{
    let mut i: usize = 0;
    while i < v.len()
        invariant
            i <= v@.len(),
            forall|j: int| 0 <= j < i ==> (#[trigger] edge_texts(v@)[j]) != e@,
        decreases v@.len() - i,
    {
        if same_edge(&v[i], e) {
            assert(edge_texts(v@)[i as int] == e@);
            return true;
        }
        i += 1;
    }
    false
}

/// Edges, each at its first place only.
pub open spec fn distinct(v: Seq<EdgeText>) -> Seq<EdgeText>
    decreases v.len(),
{
    if v.len() == 0 {
        Seq::empty()
    } else if distinct(v.drop_last()).contains(v.last()) {
        distinct(v.drop_last())
    } else {
        distinct(v.drop_last()).push(v.last())
    }
}

/// Edges, each at its first place only.
pub fn distinct_edges(v: &[GraphEdge]) -> (r: Vec<GraphEdge>)
    ensures
        edge_texts(r@) == distinct(edge_texts(v@)),
{
    let ghost all = edge_texts(v@);
    let mut out: Vec<GraphEdge> = Vec::new();
    let mut i: usize = 0;
    while i < v.len()
        invariant
            i <= v@.len(),
            edge_texts(out@) == distinct(all.take(i as int)),
        decreases v@.len() - i,
    {
        assert(all.take(i + 1).drop_last() =~= all.take(i as int));
        assert(all.take(i + 1).last() == v@[i as int]@);
        if !holds_edge(&out, &v[i]) {
            push_edge(&mut out, v[i].source.as_str(), v[i].target.as_str(), v[i].edge_type.as_str());
        }
        i += 1;
    }
    assert(all.take(i as int) =~= all);
    out
}

/// No edge is there twice, and every edge is still there.
pub proof fn law_distinct(v: Seq<EdgeText>)
    ensures
        distinct(v).no_duplicates(),
        forall|e: EdgeText| #[trigger] distinct(v).contains(e) <==> v.contains(e),
    decreases v.len(),
{
    if v.len() > 0 {
        let before = distinct(v.drop_last());
        law_distinct(v.drop_last());
        assert forall|e: EdgeText| #[trigger] distinct(v).contains(e) <==> v.contains(e) by {
            if v.contains(e) {
                let i = choose|i: int| 0 <= i < v.len() && v[i] == e;
                if i < v.len() - 1 {
                    assert(v.drop_last()[i] == e);
                    assert(v.drop_last().contains(e));
                }
            }
            if v.drop_last().contains(e) {
                let i = choose|i: int| 0 <= i < v.len() - 1 && v.drop_last()[i] == e;
                assert(v[i] == e);
                assert(before.contains(e));
                let j = choose|j: int| 0 <= j < before.len() && before[j] == e;
                assert(distinct(v)[j] == e);
            }
            if !before.contains(v.last()) {
                assert(distinct(v)[before.len() as int] == v.last());
                assert(v[v.len() - 1] == v.last());
            }
            if distinct(v).contains(e) && e != v.last() {
                let j = choose|j: int| 0 <= j < distinct(v).len() && distinct(v)[j] == e;
                assert(before[j] == e);
                assert(before.contains(e));
                let i = choose|i: int| 0 <= i < v.len() - 1 && v.drop_last()[i] == e;
                assert(v[i] == e);
            }
            if e == v.last() {
                assert(v[v.len() - 1] == e);
            }
        }
    }
}

/// An edge as JSON.
pub open spec fn edge_json(e: EdgeText) -> JsonText {
    JsonText::object().with("source"@, JsonText::Text(e.source)).with(
        "target"@,
        JsonText::Text(e.target),
    ).with("attributes"@, JsonText::object().with("type"@, JsonText::Text(e.edge_type)))
}

fn show_edge(e: &GraphEdge) -> (r: Json)
    ensures
        r@ == edge_json(e@),
{
    Json::object().with("source", text(e.source.as_str())).with(
        "target",
        text(e.target.as_str()),
    ).with("attributes", Json::object().with("type", text(e.edge_type.as_str())))
}

/// Edges as JSON.
pub open spec fn edges_json(v: Seq<EdgeText>) -> JsonText {
    JsonText::List(v.map_values(|e: EdgeText| edge_json(e)))
}

/// Edges as JSON.
pub fn show_edges(v: &[GraphEdge]) -> (r: Json)
    ensures
        r@ == edges_json(edge_texts(v@)),
{
    let ghost all = edge_texts(v@).map_values(|e: EdgeText| edge_json(e));
    let mut out: Vec<Json> = items();
    let mut i: usize = 0;
    while i < v.len()
        invariant
            i <= v@.len(),
            json_texts(out@) == all.take(i as int),
        decreases v@.len() - i,
    {
        assert(all.take(i + 1) =~= all.take(i as int).push(all[i as int]));
        put_item(&mut out, show_edge(&v[i]));
        i += 1;
    }
    assert(all.take(i as int) =~= all);
    list(out)
}

} // verus!
