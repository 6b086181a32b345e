//! Edges between the symbols of a graph.

use vstd::prelude::*;
use crate::edges::{edge, edge_texts, push_edge, EdgeText, GraphEdge};
use crate::ordered::TextMap;
use crate::path::{relative, relative_to};
use crate::ranges::{contains, covers, SourceRange};
use crate::text::{opt_text, same};
use crate::uri::{path_of_uri, uri_to_path};
use crate::wcgv::{make_range, range_of, RangeModel, SymbolNode};

verus! {

/// Whether `a` comes before `b`, by the first place at which they differ.
pub open spec fn less(a: (int, int, int, int), b: (int, int, int, int)) -> bool {
    a.0 < b.0 || (a.0 == b.0 && (a.1 < b.1 || (a.1 == b.1 && (a.2 < b.2 || (a.2 == b.2 && a.3
        < b.3)))))
}

fn is_less(a: (u64, u64, u64, u64), b: (u64, u64, u64, u64)) -> (r: bool)
    ensures
        r == less(
            (a.0 as int, a.1 as int, a.2 as int, a.3 as int),
            (b.0 as int, b.1 as int, b.2 as int, b.3 as int),
        ),
{
    a.0 < b.0 || (a.0 == b.0 && (a.1 < b.1 || (a.1 == b.1 && (a.2 < b.2 || (a.2 == b.2 && a.3
        < b.3)))))
}

/// `a - b`, or zero where `b` is larger.
pub open spec fn minus(a: u64, b: u64) -> int {
    if a >= b {
        a - b
    } else {
        0
    }
}

/// How wide a range is, and where it begins: the smallest comes first.
pub open spec fn span_score(r: SourceRange) -> (int, int, int, int) {
    (
        minus(r.end.line, r.start.line),
        minus(r.end.column, r.start.column),
        r.start.line as int,
        r.start.column as int,
    )
}

/// How wide a range is, and where it begins.
pub fn range_span_score(range: &SourceRange) -> (r: (u64, u64, u64, u64))
    ensures
        (r.0 as int, r.1 as int, r.2 as int, r.3 as int) == span_score(*range),
{
    (
        range.end.line.saturating_sub(range.start.line),
        range.end.column.saturating_sub(range.start.column),
        range.start.line,
        range.start.column,
    )
}

/// Where a range begins and ends.
pub open spec fn place_order(r: SourceRange) -> (int, int, int, int) {
    (r.start.line as int, r.start.column as int, r.end.line as int, r.end.column as int)
}

fn place_of(range: &SourceRange) -> (r: (u64, u64, u64, u64))
    ensures
        (r.0 as int, r.1 as int, r.2 as int, r.3 as int) == place_order(*range),
{
    (range.start.line, range.start.column, range.end.line, range.end.column)
}

/// Whether symbol `i` stands before symbol `j` in the list of a file: by where it begins and ends,
/// and then by the order of the report.
pub open spec fn stands_before(nodes: Seq<SymbolNode>, i: int, j: int) -> bool {
    let a = place_order(nodes[i].full_range);
    let b = place_order(nodes[j].full_range);
    less(a, b) || (a == b && i < j)
}

/// Whether `v` lists the symbols of a file among the first `n`, in their order.
pub open spec fn lists_file(
    nodes: Seq<SymbolNode>,
    n: int,
    path: Seq<char>,
    v: Seq<usize>,
) -> bool {
    &&& forall|p: int, q: int|
        0 <= p < q < v.len() ==> stands_before(nodes, #[trigger] v[p] as int, #[trigger] v[q] as int)
    &&& forall|p: int| 0 <= p < v.len() ==> #[trigger] v[p] < n && nodes[v[p] as int].path@ == path
    &&& forall|i: int|
        0 <= i < n && #[trigger] nodes[i].path@ == path ==> exists|p: int|
            0 <= p < v.len() && #[trigger] v[p] == i
}

/// Whether `index` lists the symbols of each file that has any, and no other file.
pub open spec fn is_index(
    nodes: Seq<SymbolNode>,
    n: int,
    index: Map<Seq<char>,
    Vec<usize>>,
) -> bool {
    &&& forall|path: Seq<char>| #[trigger]
        index.dom().contains(path) ==> lists_file(nodes, n, path, index[path]@)
        && index[path]@.len() > 0
    &&& forall|i: int| 0 <= i < n ==> index.dom().contains(#[trigger] nodes[i].path@)
}

/// The lists of files, one after the other.
pub open spec fn lists_joined(index: Map<Seq<char>, Vec<usize>>, paths: Seq<Seq<char>>) -> Seq<usize>
    decreases paths.len(),
{
    if paths.len() == 0 {
        Seq::empty()
    } else {
        lists_joined(index, paths.drop_last()) + index[paths.last()]@
    }
}

/// How many symbols the lists of files hold together.
pub open spec fn total_listed(index: Map<Seq<char>, Vec<usize>>, paths: Seq<Seq<char>>) -> nat
    decreases paths.len(),
{
    if paths.len() == 0 {
        0
    } else {
        total_listed(index, paths.drop_last()) + index[paths.last()]@.len()
    }
}

proof fn lemma_lists_joined(
    nodes: Seq<SymbolNode>,
    index: Map<Seq<char>, Vec<usize>>,
    paths: Seq<Seq<char>>,
)
    requires
        is_index(nodes, nodes.len() as int, index),
        paths.no_duplicates(),
        forall|k: int| 0 <= k < paths.len() ==> index.dom().contains(#[trigger] paths[k]),
    ensures
        lists_joined(index, paths).no_duplicates(),
        lists_joined(index, paths).len() == total_listed(index, paths),
        forall|p: int|
            0 <= p < lists_joined(index, paths).len() ==> #[trigger] lists_joined(index, paths)[p]
                < nodes.len() && paths.contains(
                nodes[lists_joined(index, paths)[p] as int].path@,
            ),
        forall|i: int|
            0 <= i < nodes.len() && paths.contains(#[trigger] nodes[i].path@) ==> lists_joined(
                index,
                paths,
            ).contains(i as usize),
    decreases paths.len(),
{
    let all = lists_joined(index, paths);
    if paths.len() > 0 {
        let earlier = paths.drop_last();
        let path = paths.last();
        let list = index[path]@;
        let first = lists_joined(index, earlier);
        assert(index.dom().contains(paths[paths.len() - 1]));
        assert forall|k: int| 0 <= k < earlier.len() implies index.dom().contains(
            #[trigger] earlier[k],
        ) by {
            assert(earlier[k] == paths[k]);
        }
        lemma_lists_joined(nodes, index, earlier);
        assert(lists_file(nodes, nodes.len() as int, path, list));
        assert(!earlier.contains(path)) by {
            if earlier.contains(path) {
                let k = choose|k: int| 0 <= k < earlier.len() && earlier[k] == path;
                assert(paths[k] == paths[paths.len() - 1]);
            }
        }
        assert forall|p: int, q: int| 0 <= p < all.len() && 0 <= q < all.len() && p != q implies all[p]
            != all[q] by {
            let n = first.len() as int;
            if p < n && q < n {
                assert(first[p] != first[q]);
            } else if p >= n && q >= n {
                if p < q {
                    assert(stands_before(nodes, list[p - n] as int, list[q - n] as int));
                } else {
                    assert(stands_before(nodes, list[q - n] as int, list[p - n] as int));
                }
            } else if p < n {
                assert(earlier.contains(nodes[first[p] as int].path@));
                assert(nodes[list[q - n] as int].path@ == path);
            } else {
                assert(earlier.contains(nodes[first[q] as int].path@));
                assert(nodes[list[p - n] as int].path@ == path);
            }
        }
        assert forall|p: int| 0 <= p < all.len() implies #[trigger] all[p] < nodes.len()
            && paths.contains(nodes[all[p] as int].path@) by {
            if p < first.len() {
                let owner = nodes[first[p] as int].path@;
                assert(earlier.contains(owner));
                let k = choose|k: int| 0 <= k < earlier.len() && earlier[k] == owner;
                assert(paths[k] == owner);
            } else {
                assert(all[p] == list[p - first.len()]);
                assert(paths[paths.len() - 1] == path);
            }
        }
        assert forall|i: int| 0 <= i < nodes.len() && paths.contains(#[trigger] nodes[i].path@) implies
            all.contains(i as usize) by {
            if nodes[i].path@ == path {
                let p = choose|p: int| 0 <= p < list.len() && #[trigger] list[p] == i;
                assert(all[first.len() + p] == i as usize);
            } else {
                let k = choose|k: int| 0 <= k < paths.len() && paths[k] == nodes[i].path@;
                assert(earlier[k] == nodes[i].path@);
                assert(first.contains(i as usize));
                let p = choose|p: int| 0 <= p < first.len() && first[p] == i as usize;
                assert(all[p] == i as usize);
            }
        }
    }
}

/// The files that an index has are exactly those of the symbols, and their lists hold as many
/// symbols together as there are: each symbol stands in one list, once.
pub proof fn law_index_holds_every_symbol_once(
    nodes: Seq<SymbolNode>,
    index: Map<Seq<char>, Vec<usize>>,
    paths: Seq<Seq<char>>,
)
    requires
        nodes.len() <= usize::MAX,
        is_index(nodes, nodes.len() as int, index),
        paths.no_duplicates(),
        forall|p: Seq<char>| paths.contains(p) <==> #[trigger] index.dom().contains(p),
    ensures
        forall|p: Seq<char>| #[trigger]
            index.dom().contains(p) <==> exists|i: int|
                0 <= i < nodes.len() && #[trigger] nodes[i].path@ == p,
        total_listed(index, paths) == nodes.len(),
{
    assert forall|p: Seq<char>| #[trigger] index.dom().contains(p) implies exists|i: int|
        0 <= i < nodes.len() && #[trigger] nodes[i].path@ == p by {
        let list = index[p]@;
        assert(lists_file(nodes, nodes.len() as int, p, list) && list.len() > 0);
        assert(nodes[list[0] as int].path@ == p);
    }
    assert forall|k: int| 0 <= k < paths.len() implies index.dom().contains(#[trigger] paths[k]) by {
        assert(paths.contains(paths[k]));
    }
    lemma_lists_joined(nodes, index, paths);
    let all = lists_joined(index, paths);
    let ints = all.map_values(|i: usize| i as int);
    let every = vstd::set_lib::set_int_range(0, nodes.len() as int);
    vstd::set_lib::lemma_int_range(0, nodes.len() as int);
    assert(ints.no_duplicates());
    ints.unique_seq_to_set();
    assert forall|i: int| every.contains(i) implies ints.to_set().contains(i) by {
        assert(index.dom().contains(nodes[i].path@));
        assert(all.contains(i as usize));
        let p = choose|p: int| 0 <= p < all.len() && all[p] == i as usize;
        assert(ints[p] == i);
    }
    assert forall|i: int| ints.to_set().contains(i) implies every.contains(i) by {
        let p = choose|p: int| 0 <= p < ints.len() && ints[p] == i;
        assert(all[p] == i as usize);
    }
    assert(ints.to_set() =~= every);
}

fn insert_symbol(nodes: &[SymbolNode], v: &mut Vec<usize>, at: usize)
    requires
        at < nodes@.len(),
        lists_file(nodes@, at as int, nodes@[at as int].path@, old(v)@),
    ensures
        lists_file(nodes@, at + 1, nodes@[at as int].path@, final(v)@),
{
    let ghost was = v@;
    let ghost path = nodes@[at as int].path@;
    let n: usize = v.len();
    let mut k: usize = 0;
    while k < n && !is_less(place_of(&nodes[at].full_range), place_of(&nodes[v[k]].full_range))
        invariant
            k <= n,
            n == was.len(),
            v@ == was,
            forall|p: int| 0 <= p < k ==> stands_before(nodes@, #[trigger] was[p] as int, at as int),
        decreases n - k,
    {
        k += 1;
    }
    v.insert(k, at);
    proof {
        let now = v@;
        assert(now =~= was.insert(k as int, at));
        assert forall|p: int, q: int| 0 <= p < q < now.len() implies stands_before(
            nodes@,
            #[trigger] now[p] as int,
            #[trigger] now[q] as int,
        ) by {
            if p == k {
                assert(now[q] == was[q - 1]);
                if q - 1 > k {
                    assert(stands_before(nodes@, was[k as int] as int, was[q - 1] as int));
                }
            } else if q == k {
                assert(now[p] == was[p]);
            } else if p < k && q < k {
                assert(stands_before(nodes@, was[p] as int, was[q] as int));
            } else if p < k {
                assert(stands_before(nodes@, was[p] as int, was[q - 1] as int));
            } else {
                assert(stands_before(nodes@, was[p - 1] as int, was[q - 1] as int));
            }
        }
        assert forall|p: int| 0 <= p < now.len() implies #[trigger] now[p] < at + 1
            && nodes@[now[p] as int].path@ == path by {
            if p < k {
                assert(was[p] < at);
            } else if p > k {
                assert(was[p - 1] < at);
            }
        }
        assert forall|i: int| 0 <= i < at + 1 && #[trigger] nodes@[i].path@ == path implies exists|
            p: int,
        |
            0 <= p < now.len() && #[trigger] now[p] == i by {
            if i == at {
                assert(now[k as int] == i);
            } else {
                let p = choose|p: int| 0 <= p < was.len() && #[trigger] was[p] == i;
                if p < k {
                    assert(now[p] == i);
                } else {
                    assert(now[p + 1] == i);
                }
            }
        }
    }
}

/// The symbols of each file, in order.
pub fn build_file_symbol_index(nodes: &[SymbolNode]) -> (r: TextMap<Vec<usize>>)
    ensures
        r.wf(),
        is_index(nodes@, nodes@.len() as int, r@),
{
    let mut index: TextMap<Vec<usize>> = TextMap::new();
    let n: usize = nodes.len();
    let mut i: usize = 0;
    while i < n
        invariant
            i <= n,
            n == nodes@.len(),
            index.wf(),
            is_index(nodes@, i as int, index@),
        decreases n - i,
    {
        let ghost was = index;
        let ghost path = nodes@[i as int].path@;
        assert forall|p: Seq<char>| was@.dom().contains(p) && p != path implies lists_file(
            nodes@,
            i + 1,
            p,
            (#[trigger] was@[p])@,
        ) by {
            assert(lists_file(nodes@, i as int, p, was@[p]@));
        }
        match index.index_of(nodes[i].path.as_str()) {
            Some(k) => {
                proof {
                    was.lemma_entries();
                    assert(lists_file(nodes@, i as int, path, was@[path]@));
                }
                let list: &mut Vec<usize> = index.value_mut(k);
                insert_symbol(nodes, list, i);
                proof {
                    index.lemma_value_changed(was, k as int);
                }
            },
            None => {
                let mut list: Vec<usize> = Vec::new();
                assert(lists_file(nodes@, i as int, path, list@));
                insert_symbol(nodes, &mut list, i);
                index.insert(nodes[i].path.as_str(), list);
            },
        }
        assert(lists_file(nodes@, i + 1, path, index@[path]@));
        assert forall|p: Seq<char>| #[trigger] index@.dom().contains(p) implies lists_file(
            nodes@,
            i + 1,
            p,
            index@[p]@,
        ) by {
            if p != path {
                assert(index@[p] == was@[p]);
            }
        }
        assert forall|j: int| 0 <= j < i + 1 implies index@.dom().contains(
            #[trigger] nodes@[j].path@,
        ) by {
            if j < i {
                assert(was@.dom().contains(nodes@[j].path@));
            }
        }
        i += 1;
    }
    index
}

/// Whether symbol `i` is of a file and its range covers a position.
pub open spec fn encloses(
    nodes: Seq<SymbolNode>,
    path: Seq<char>,
    line: int,
    col: int,
    i: int,
) -> bool {
    0 <= i < nodes.len() && nodes[i].path@ == path && covers(nodes[i].full_range, line, col)
}

/// Whether symbol `i` encloses a position more closely than symbol `j`: it is narrower, or of the
/// same width and stands before it.
pub open spec fn closer(nodes: Seq<SymbolNode>, i: int, j: int) -> bool {
    let a = span_score(nodes[i].full_range);
    let b = span_score(nodes[j].full_range);
    less(a, b) || (a == b && stands_before(nodes, i, j))
}

/// Whether symbol `i` is the one that encloses a position most closely.
pub open spec fn is_closest(
    nodes: Seq<SymbolNode>,
    path: Seq<char>,
    line: int,
    col: int,
    i: int,
) -> bool {
    &&& encloses(nodes, path, line, col, i)
    &&& forall|j: int| #[trigger]
        encloses(nodes, path, line, col, j) && j != i ==> closer(nodes, i, j)
}

/// At most one symbol encloses a position most closely.
pub proof fn law_closest_is_unique(
    nodes: Seq<SymbolNode>,
    path: Seq<char>,
    line: int,
    col: int,
    i: int,
    j: int,
)
    requires
        is_closest(nodes, path, line, col, i),
        is_closest(nodes, path, line, col, j),
    ensures
        i == j,
{
}

/// The symbol that encloses a position most closely, if any does.
pub open spec fn closest(
    nodes: Seq<SymbolNode>,
    path: Seq<char>,
    line: int,
    col: int,
) -> Option<int> {
    if exists|i: int| #[trigger] encloses(nodes, path, line, col, i) {
        Some(choose|i: int| is_closest(nodes, path, line, col, i))
    } else {
        None
    }
}

/// The symbol of a file that encloses a position most closely.
pub fn find_enclosing_symbol(
    nodes: &[SymbolNode],
    index: &TextMap<Vec<usize>>,
    path: &str,
    line: u64,
    col: u64,
) -> (r: Option<usize>)
    requires
        index.wf(),
        is_index(nodes@, nodes@.len() as int, index@),
    ensures
        match r {
            Some(i) => closest(nodes@, path@, line as int, col as int) == Some(i as int)
                && is_closest(nodes@, path@, line as int, col as int, i as int),
            None => closest(nodes@, path@, line as int, col as int) is None,
        },
{
    let list: &Vec<usize> = match index.get(path) {
        Some(v) => v,
        None => {
            return None;
        },
    };
    let ghost l = line as int;
    let ghost c = col as int;
    assert(lists_file(nodes@, nodes@.len() as int, path@, list@));
    let mut best: Option<usize> = None;
    let mut k: usize = 0;
    while k < list.len()
        invariant
            k <= list@.len(),
            match best {
                Some(b) => {
                    &&& encloses(nodes@, path@, l, c, b as int)
                    &&& exists|p: int| 0 <= p < k && #[trigger] list@[p] == b
                    &&& forall|q: int|
                        0 <= q < k && (#[trigger] list@[q]) != b && encloses(
                            nodes@,
                            path@,
                            l,
                            c,
                            list@[q] as int,
                        ) ==> closer(nodes@, b as int, list@[q] as int)
                },
                None => forall|q: int|
                    0 <= q < k ==> !encloses(nodes@, path@, l, c, #[trigger] list@[q] as int),
            },
        decreases list@.len() - k,
    {
        let i: usize = list[k];
        if contains(&nodes[i].full_range, line, col) {
            let better: bool = match best {
                Some(b) => is_less(
                    range_span_score(&nodes[i].full_range),
                    range_span_score(&nodes[b].full_range),
                ),
                None => true,
            };
            if better {
                best = Some(i);
                assert(list@[k as int] == i);
            }
        }
        k += 1;
    }
    match best {
        Some(b) => {
            proof {
                assert forall|j: int| #[trigger]
                    encloses(nodes@, path@, l, c, j) && j != b implies closer(nodes@, b as int, j) by {
                    let q = choose|q: int| 0 <= q < list@.len() && #[trigger] list@[q] == j;
                    assert(list@[q] == j);
                }
                assert(is_closest(nodes@, path@, l, c, b as int));
                let i = choose|i: int| is_closest(nodes@, path@, l, c, i);
                law_closest_is_unique(nodes@, path@, l, c, b as int, i);
            }
            Some(b)
        },
        None => {
            proof {
                assert forall|j: int| !#[trigger] encloses(nodes@, path@, l, c, j) by {
                    if encloses(nodes@, path@, l, c, j) {
                        let q = choose|q: int| 0 <= q < list@.len() && #[trigger] list@[q] == j;
                        assert(list@[q] == j);
                    }
                }
            }
            None
        },
    }
}

/// A place that the server names.
#[derive(Debug, PartialEq, Eq)]
pub struct LocationModel {
    pub uri: Option<String>,
    pub range: Option<RangeModel>,
}

/// The symbol in whose range a reference stands, given the path that its URI names, if any.
pub open spec fn referrer(
    nodes: Seq<SymbolNode>,
    root: Seq<char>,
    path: Option<Seq<char>>,
    range: Option<RangeModel>,
) -> Option<int> {
    match (path, range) {
        (Some(p), Some(m)) => match range_of(m) {
            Ok(r) => closest(
                nodes,
                relative(p, root),
                r.start.line as int,
                r.start.column as int,
            ),
            Err(_) => None,
        },
        _ => None,
    }
}

/// The symbol in whose range a reference stands, given the path that its URI names, if any.
pub fn find_referrer(
    nodes: &[SymbolNode],
    index: &TextMap<Vec<usize>>,
    root: &str,
    path: &Option<String>,
    range: &Option<RangeModel>,
) -> (r: Option<usize>)
    requires
        index.wf(),
        is_index(nodes@, nodes@.len() as int, index@),
    ensures
        match r {
            Some(i) => i < nodes@.len() && referrer(nodes@, root@, opt_text(*path), *range) == Some(
                i as int,
            ),
            None => referrer(nodes@, root@, opt_text(*path), *range) is None,
        },
{
    match (path, range) {
        (Some(p), Some(m)) => match make_range(m) {
            Ok(r) => {
                let rel: String = relative_to(p.as_str(), root);
                find_enclosing_symbol(nodes, index, rel.as_str(), r.start.line, r.start.column)
            },
            Err(_) => None,
        },
        _ => None,
    }
}

/// The path that a URI names, if there is a URI and it names one.
pub open spec fn located(uri: Option<String>) -> Option<Seq<char>> {
    match uri {
        Some(u) => path_of_uri(u@),
        None => None,
    }
}

fn locate(uri: &Option<String>) -> (r: Option<String>)
    ensures
        opt_text(r) == located(*uri),
{
    match uri {
        Some(u) => uri_to_path(u.as_str()),
        None => None,
    }
}

/// The edges to a symbol from those that refer to it, themselves aside.
pub open spec fn reference_edges(
    nodes: Seq<SymbolNode>,
    root: Seq<char>,
    key: Seq<char>,
    places: Seq<LocationModel>,
) -> Seq<EdgeText>
    decreases places.len(),
{
    if places.len() == 0 {
        Seq::empty()
    } else {
        let before = reference_edges(nodes, root, key, places.drop_last());
        match referrer(nodes, root, located(places.last().uri), places.last().range) {
            Some(i) if nodes[i].key@ != key => before.push(
                edge(nodes[i].key@, key, "references"@),
            ),
            _ => before,
        }
    }
}

/// The edges to a symbol from those that refer to it, themselves aside.
pub fn find_reference_edges(
    nodes: &[SymbolNode],
    index: &TextMap<Vec<usize>>,
    root: &str,
    key: &str,
    places: &[LocationModel],
) -> (r: Vec<GraphEdge>)
    requires
        index.wf(),
        is_index(nodes@, nodes@.len() as int, index@),
    ensures
        edge_texts(r@) == reference_edges(nodes@, root@, key@, places@),
{
    let mut out: Vec<GraphEdge> = Vec::new();
    let mut i: usize = 0;
    assert(edge_texts(out@) =~= Seq::empty());
    while i < places.len()
        invariant
            i <= places@.len(),
            edge_texts(out@) == reference_edges(nodes@, root@, key@, places@.take(i as int)),
        decreases places@.len() - i,
    {
        assert(places@.take(i + 1).drop_last() =~= places@.take(i as int));
        let path: Option<String> = locate(&places[i].uri);
        match find_referrer(nodes, index, root, &path, &places[i].range) {
            Some(k) => {
                if !same(nodes[k].key.as_str(), key) {
                    push_edge(&mut out, nodes[k].key.as_str(), key, "references");
                }
            },
            None => {},
        }
        i += 1;
    }
    assert(places@.take(i as int) =~= places@);
    out
}

/// Whether the server is asked for references to a symbol.
pub open spec fn wants_references(n: SymbolNode) -> bool {
    n.kind@ != "field"@ && n.kind@ != "impl"@
}

/// Whether the server is asked for references to a symbol.
pub fn asks_references(n: &SymbolNode) -> (r: bool)
    ensures
        r == wants_references(*n),
{
    !same(n.kind.as_str(), "field") && !same(n.kind.as_str(), "impl")
}

/// Whether a symbol can be called.
pub open spec fn callable(n: SymbolNode) -> bool {
    n.kind@ == "function"@ || n.kind@ == "method"@
}

/// Whether a symbol can be called.
pub fn is_callable(n: &SymbolNode) -> (r: bool)
    ensures
        r == callable(*n),
{
    same(n.kind.as_str(), "function") || same(n.kind.as_str(), "method")
}

/// Whether a symbol can be called and its name stands at a place of a file.
pub open spec fn called_at(n: SymbolNode, path: Seq<char>, line: int, col: int) -> bool {
    callable(n) && n.path@ == path && n.selection_range.start.line == line
        && n.selection_range.start.column == col
}

/// The key of the last symbol that can be called and whose name stands at a place of a file.
pub open spec fn callee(
    nodes: Seq<SymbolNode>,
    path: Seq<char>,
    line: int,
    col: int,
) -> Option<Seq<char>>
    decreases nodes.len(),
{
    if nodes.len() == 0 {
        None
    } else if called_at(nodes.last(), path, line, col) {
        Some(nodes.last().key@)
    } else {
        callee(nodes.drop_last(), path, line, col)
    }
}

/// The last symbol that can be called and whose name stands at a place of a file.
pub fn find_callee(nodes: &[SymbolNode], path: &str, line: u64, col: u64) -> (r: Option<usize>)
    ensures
        match r {
            Some(i) => i < nodes@.len() && callee(nodes@, path@, line as int, col as int) == Some(
                nodes@[i as int].key@,
            ),
            None => callee(nodes@, path@, line as int, col as int) is None,
        },
{
    let mut i: usize = nodes.len();
    assert(nodes@.take(i as int) =~= nodes@);
    while i > 0
        invariant
            i <= nodes@.len(),
            callee(nodes@.take(i as int), path@, line as int, col as int) == callee(
                nodes@,
                path@,
                line as int,
                col as int,
            ),
        decreases i,
    {
        assert(nodes@.take(i as int).drop_last() =~= nodes@.take(i - 1));
        i -= 1;
        let n: &SymbolNode = &nodes[i];
        if is_callable(n) && same(n.path.as_str(), path) && n.selection_range.start.line == line
            && n.selection_range.start.column == col {
            return Some(i);
        }
    }
    None
}

/// A call that the server names: what it leads to.
#[derive(Debug, PartialEq, Eq)]
pub struct CallTarget {
    pub uri: Option<String>,
    pub selection_range: Option<RangeModel>,
    pub range: Option<RangeModel>,
}

/// The range that a call's target is found by: that of its name, or its whole range.
pub open spec fn target_range(c: CallTarget) -> Option<RangeModel> {
    match c.selection_range {
        Some(r) => Some(r),
        None => c.range,
    }
}

/// The key of the symbol that a call leads to, given the path that its URI names, if any.
pub open spec fn call_key(
    nodes: Seq<SymbolNode>,
    root: Seq<char>,
    path: Option<Seq<char>>,
    range: Option<RangeModel>,
) -> Option<Seq<char>> {
    match (path, range) {
        (Some(p), Some(m)) => match range_of(m) {
            Ok(r) => callee(
                nodes,
                relative(p, root),
                r.start.line as int,
                r.start.column as int,
            ),
            Err(_) => None,
        },
        _ => None,
    }
}

/// The symbol that a call leads to, given the path that its URI names, if any.
pub fn find_call_key(
    nodes: &[SymbolNode],
    root: &str,
    path: &Option<String>,
    range: &Option<RangeModel>,
) -> (r: Option<usize>)
    ensures
        match r {
            Some(i) => i < nodes@.len() && call_key(nodes@, root@, opt_text(*path), *range) == Some(
                nodes@[i as int].key@,
            ),
            None => call_key(nodes@, root@, opt_text(*path), *range) is None,
        },
{
    match (path, range) {
        (Some(p), Some(m)) => match make_range(m) {
            Ok(r) => {
                let rel: String = relative_to(p.as_str(), root);
                find_callee(nodes, rel.as_str(), r.start.line, r.start.column)
            },
            Err(_) => None,
        },
        _ => None,
    }
}

/// The edges from a symbol to those that it calls.
pub open spec fn outgoing_edges(
    nodes: Seq<SymbolNode>,
    root: Seq<char>,
    key: Seq<char>,
    calls: Seq<CallTarget>,
) -> Seq<EdgeText>
    decreases calls.len(),
{
    if calls.len() == 0 {
        Seq::empty()
    } else {
        let before = outgoing_edges(nodes, root, key, calls.drop_last());
        match call_key(nodes, root, located(calls.last().uri), target_range(calls.last())) {
            Some(k) => before.push(edge(key, k, "calls"@)),
            None => before,
        }
    }
}

/// The edges from a symbol to those that it calls.
pub fn find_call_edges(
    nodes: &[SymbolNode],
    root: &str,
    key: &str,
    calls: &[CallTarget],
) -> (r: Vec<
    GraphEdge,
>)
    ensures
        edge_texts(r@) == outgoing_edges(nodes@, root@, key@, calls@),
{
    let mut out: Vec<GraphEdge> = Vec::new();
    let mut i: usize = 0;
    assert(edge_texts(out@) =~= Seq::empty());
    while i < calls.len()
        invariant
            i <= calls@.len(),
            edge_texts(out@) == outgoing_edges(nodes@, root@, key@, calls@.take(i as int)),
        decreases calls@.len() - i,
    {
        assert(calls@.take(i + 1).drop_last() =~= calls@.take(i as int));
        let path: Option<String> = locate(&calls[i].uri);
        let range: Option<RangeModel> = match calls[i].selection_range {
            Some(r) => Some(r),
            None => calls[i].range,
        };
        match find_call_key(nodes, root, &path, &range) {
            Some(k) => {
                push_edge(&mut out, key, nodes[k].key.as_str(), "calls");
            },
            None => {},
        }
        i += 1;
    }
    assert(calls@.take(i as int) =~= calls@);
    out
}

} // verus!
