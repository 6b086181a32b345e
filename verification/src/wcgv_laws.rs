//! What the edges between symbols are, said of the reports that they come from.

use vstd::prelude::*;
use crate::edges::{edge, EdgeText};
use crate::sieve::{is_sieved, lemma_sieve_more, lemma_sieve_nothing};
use crate::wcgv::SymbolNode;
use crate::wcgv_edges::{
    call_key, callable, callee, called_at, located, outgoing_edges, reference_edges, referrer, target_range,
    wants_references, CallTarget, LocationModel,
};
use crate::wcgv_impls::{is_method_in, method_edges, ImplNode};
use crate::wcgv_links::{
    field_edges, field_owner, is_field_in, is_type, named_edges, names_in, owns_field, type_key, use_edges,
};

verus! {

/// Every place at which a symbol is referred to from inside another one gives an edge from that one
/// to it, in the order of the places; no other place gives any.
pub proof fn law_every_reference_is_an_edge(
    nodes: Seq<SymbolNode>,
    root: Seq<char>,
    key: Seq<char>,
    places: Seq<LocationModel>,
)
    ensures
        is_sieved(
            places,
            reference_edges(nodes, root, key, places),
            |p: LocationModel|
                match referrer(nodes, root, located(p.uri), p.range) {
                    Some(i) => nodes[i].key@ != key,
                    None => false,
                },
            |p: LocationModel|
                edge(nodes[referrer(nodes, root, located(p.uri), p.range)->0].key@, key, "references"@),
        ),
    decreases places.len(),
{
    let keep = |p: LocationModel|
        match referrer(nodes, root, located(p.uri), p.range) {
            Some(i) => nodes[i].key@ != key,
            None => false,
        };
    let give = |p: LocationModel|
        edge(nodes[referrer(nodes, root, located(p.uri), p.range)->0].key@, key, "references"@);
    let all = reference_edges(nodes, root, key, places);
    if places.len() == 0 {
        lemma_sieve_nothing(places, all, keep, give);
    } else {
        let d = places.drop_last();
        law_every_reference_is_an_edge(nodes, root, key, d);
        lemma_sieve_more(places, reference_edges(nodes, root, key, d), all, keep, give);
    }
}

/// Every call that leads to a symbol gives an edge to it, in the order of the calls; no other call
/// gives any.
pub proof fn law_every_call_is_an_edge(
    nodes: Seq<SymbolNode>,
    root: Seq<char>,
    key: Seq<char>,
    calls: Seq<CallTarget>,
)
    ensures
        is_sieved(
            calls,
            outgoing_edges(nodes, root, key, calls),
            |c: CallTarget| call_key(nodes, root, located(c.uri), target_range(c)) is Some,
            |c: CallTarget| edge(key, call_key(nodes, root, located(c.uri), target_range(c))->0, "calls"@),
        ),
    decreases calls.len(),
{
    let keep = |c: CallTarget| call_key(nodes, root, located(c.uri), target_range(c)) is Some;
    let give = |c: CallTarget| edge(key, call_key(nodes, root, located(c.uri), target_range(c))->0, "calls"@);
    let all = outgoing_edges(nodes, root, key, calls);
    if calls.len() == 0 {
        lemma_sieve_nothing(calls, all, keep, give);
    } else {
        let d = calls.drop_last();
        law_every_call_is_an_edge(nodes, root, key, d);
        lemma_sieve_more(calls, outgoing_edges(nodes, root, key, d), all, keep, give);
    }
}

/// A call leads to a symbol wherever a function or method has its name at the place; of several it
/// is the last one.
pub proof fn law_callee(nodes: Seq<SymbolNode>, path: Seq<char>, line: int, col: int)
    ensures
        match callee(nodes, path, line, col) {
            Some(k) => exists|i: int|
                {
                    &&& 0 <= i < nodes.len()
                    &&& called_at(#[trigger] nodes[i], path, line, col)
                    &&& nodes[i].key@ == k
                    &&& forall|j: int| i < j < nodes.len() ==> !called_at(#[trigger] nodes[j], path, line, col)
                },
            None => forall|i: int| 0 <= i < nodes.len() ==> !called_at(#[trigger] nodes[i], path, line, col),
        },
    decreases nodes.len(),
{
    if nodes.len() > 0 {
        let d = nodes.drop_last();
        let n = nodes.len() - 1;
        law_callee(d, path, line, col);
        if called_at(nodes.last(), path, line, col) {
            assert(called_at(nodes[n], path, line, col));
        } else if callee(d, path, line, col) is Some {
            let i = choose|i: int|
                {
                    &&& 0 <= i < d.len()
                    &&& called_at(#[trigger] d[i], path, line, col)
                    &&& d[i].key@ == callee(d, path, line, col)->0
                    &&& forall|j: int| i < j < d.len() ==> !called_at(#[trigger] d[j], path, line, col)
                };
            assert(nodes[i] == d[i]);
            assert forall|j: int| i < j < nodes.len() implies !called_at(#[trigger] nodes[j], path, line, col) by {
                if j < n {
                    assert(d[j] == nodes[j]);
                }
            }
        } else {
            assert forall|j: int| 0 <= j < nodes.len() implies !called_at(#[trigger] nodes[j], path, line, col) by {
                if j < n {
                    assert(d[j] == nodes[j]);
                }
            }
        }
    }
}

/// Structs count as types always, classes and interfaces where all types count, and nothing else
/// does; functions and methods can be called, and nothing else can; references are asked for to all
/// symbols but fields and implementations.
pub proof fn law_kinds(n: SymbolNode)
    ensures
        n.kind@ == "struct"@ ==> is_type(n, true) && is_type(n, false) && !callable(n) && wants_references(n),
        n.kind@ == "class"@ || n.kind@ == "interface"@ ==> is_type(n, true) && !is_type(n, false) && !callable(n)
            && wants_references(n),
        n.kind@ == "function"@ || n.kind@ == "method"@ ==> callable(n) && !is_type(n, true) && !is_type(n, false)
            && wants_references(n),
        n.kind@ == "field"@ || n.kind@ == "impl"@ ==> !callable(n) && !is_type(n, true) && !wants_references(n),
        is_type(n, false) ==> is_type(n, true),
        !is_type(n, true) && !callable(n) && wants_references(n) ==> n.kind@ != "struct"@ && n.kind@ != "class"@
            && n.kind@ != "interface"@ && n.kind@ != "function"@ && n.kind@ != "method"@,
{
    reveal_strlit("struct");
    reveal_strlit("class");
    reveal_strlit("interface");
    reveal_strlit("function");
    reveal_strlit("method");
    reveal_strlit("field");
    reveal_strlit("impl");
    assert("struct"@.len() == 6 && "class"@.len() == 5 && "interface"@.len() == 9);
    assert("function"@.len() == 8 && "method"@.len() == 6 && "field"@.len() == 5 && "impl"@.len() == 4);
    assert("struct"@[0] == 's' && "method"@[0] == 'm' && "class"@[0] == 'c' && "field"@[0] == 'f');
}

/// A method lies in an implementation of its own file alone, and in one whose range covers its name.
pub proof fn law_methods_of_an_impl(n: SymbolNode, i: ImplNode)
    ensures
        is_method_in(n, i) ==> n.path@ == i.path@ && n.kind@ == "method"@ && i.full_range.start.line
            <= n.selection_range.start.line <= i.full_range.end.line,
        n.path@ == i.path@ && n.kind@ == "method"@ && i.full_range.start.line < n.selection_range.start.line
            < i.full_range.end.line ==> is_method_in(n, i),
{
}

/// A call leads to a symbol only at the line and column of its name, in its file.
pub proof fn law_called_at(n: SymbolNode, path: Seq<char>, line: int, col: int)
    ensures
        called_at(n, path, line, col) <==> called_at(
            n,
            n.path@,
            n.selection_range.start.line as int,
            n.selection_range.start.column as int,
        ) && path == n.path@ && line == n.selection_range.start.line && col == n.selection_range.start.column,
        callable(n) ==> called_at(
            n,
            n.path@,
            n.selection_range.start.line as int,
            n.selection_range.start.column as int,
        ),
{
}

/// Whether a symbol is a type of this name.
pub open spec fn is_type_named(n: SymbolNode, label: Seq<char>, all: bool) -> bool {
    is_type(n, all) && n.label@ == label
}

/// A name leads to a type wherever a type has it; of several it is the first one.
pub proof fn law_type_of_a_name(nodes: Seq<SymbolNode>, label: Seq<char>, all: bool)
    ensures
        match type_key(nodes, label, all) {
            Some(k) => exists|i: int|
                {
                    &&& 0 <= i < nodes.len()
                    &&& is_type_named(#[trigger] nodes[i], label, all)
                    &&& nodes[i].key@ == k
                    &&& forall|j: int| 0 <= j < i ==> !is_type_named(#[trigger] nodes[j], label, all)
                },
            None => forall|i: int| 0 <= i < nodes.len() ==> !is_type_named(#[trigger] nodes[i], label, all),
        },
    decreases nodes.len(),
{
    if nodes.len() > 0 {
        let d = nodes.drop_first();
        law_type_of_a_name(d, label, all);
        if is_type_named(nodes[0], label, all) {
        } else if type_key(d, label, all) is Some {
            let i = choose|i: int|
                {
                    &&& 0 <= i < d.len()
                    &&& is_type_named(#[trigger] d[i], label, all)
                    &&& d[i].key@ == type_key(d, label, all)->0
                    &&& forall|j: int| 0 <= j < i ==> !is_type_named(#[trigger] d[j], label, all)
                };
            assert(nodes[i + 1] == d[i]);
            assert forall|j: int| 0 <= j < i + 1 implies !is_type_named(#[trigger] nodes[j], label, all) by {
                if j > 0 {
                    assert(d[j - 1] == nodes[j]);
                }
            }
        } else {
            assert forall|j: int| 0 <= j < nodes.len() implies !is_type_named(#[trigger] nodes[j], label, all) by {
                if j > 0 {
                    assert(d[j - 1] == nodes[j]);
                }
            }
        }
    }
}

/// Every name in a list that another type has gives an edge to it, in the order of the names; no
/// other name gives any.
pub proof fn law_every_named_type_is_an_edge(
    nodes: Seq<SymbolNode>,
    key: Seq<char>,
    names: Seq<Seq<char>>,
    all: bool,
    edge_type: Seq<char>,
)
    ensures
        is_sieved(
            names,
            named_edges(nodes, key, names, all, edge_type),
            |t: Seq<char>| type_key(nodes, t, all) is Some && type_key(nodes, t, all)->0 != key,
            |t: Seq<char>| edge(key, type_key(nodes, t, all)->0, edge_type),
        ),
    decreases names.len(),
{
    let keep = |t: Seq<char>| type_key(nodes, t, all) is Some && type_key(nodes, t, all)->0 != key;
    let give = |t: Seq<char>| edge(key, type_key(nodes, t, all)->0, edge_type);
    let kept = named_edges(nodes, key, names, all, edge_type);
    if names.len() == 0 {
        lemma_sieve_nothing(names, kept, keep, give);
    } else {
        let d = names.drop_last();
        law_every_named_type_is_an_edge(nodes, key, d, all, edge_type);
        lemma_sieve_more(names, named_edges(nodes, key, d, all, edge_type), kept, keep, give);
    }
}

/// Every method whose name lies in an implementation gives an edge from the implementation to it,
/// in the order of the symbols; no other symbol gives any.
pub proof fn law_every_method_is_contained(nodes: Seq<SymbolNode>, n: int, i: ImplNode)
    requires
        0 <= n <= nodes.len(),
    ensures
        is_sieved(
            nodes.take(n),
            method_edges(nodes, n, i),
            |s: SymbolNode| is_method_in(s, i),
            |s: SymbolNode| edge(i.key@, s.key@, "contains"@),
        ),
    decreases n,
{
    let keep = |s: SymbolNode| is_method_in(s, i);
    let give = |s: SymbolNode| edge(i.key@, s.key@, "contains"@);
    let all = method_edges(nodes, n, i);
    let v = nodes.take(n);
    if n == 0 {
        lemma_sieve_nothing(v, all, keep, give);
    } else {
        law_every_method_is_contained(nodes, n - 1, i);
        assert(v.drop_last() =~= nodes.take(n - 1));
        lemma_sieve_more(v, method_edges(nodes, n - 1, i), all, keep, give);
    }
}

/// Whether `part` stands in `whole` without a break.
pub open spec fn stands_in<T>(part: Seq<T>, whole: Seq<T>) -> bool {
    exists|a: int, b: int| 0 <= a <= b <= whole.len() && part == #[trigger] whole.subrange(a, b)
}

/// What stands in a list stands in it with more behind.
pub proof fn lemma_stands_further<T>(part: Seq<T>, whole: Seq<T>, more: Seq<T>)
    requires
        stands_in(part, whole),
    ensures
        stands_in(part, whole + more),
{
    let (a, b) = choose|a: int, b: int| 0 <= a <= b <= whole.len() && part == #[trigger] whole.subrange(a, b);
    assert((whole + more).subrange(a, b) =~= part);
}

/// What stands behind a list stands in the whole.
pub proof fn lemma_stands_last<T>(whole: Seq<T>, more: Seq<T>)
    ensures
        stands_in(more, whole + more),
{
    let all = whole + more;
    assert(all.subrange(whole.len() as int, all.len() as int) =~= more);
}

/// The edges for the types that the signature of any symbol names are among the edges for types
/// that are used.
pub proof fn law_every_signature_is_read(nodes: Seq<SymbolNode>, n: int, i: int)
    requires
        0 <= i < n <= nodes.len(),
        nodes[i].signature is Some,
    ensures
        stands_in(
            named_edges(nodes, nodes[i].key@, names_in(nodes[i].signature->0@), true, "uses_type"@),
            use_edges(nodes, n),
        ),
    decreases n,
{
    let last = match nodes[n - 1].signature {
        Some(sig) => named_edges(nodes, nodes[n - 1].key@, names_in(sig@), true, "uses_type"@),
        None => Seq::empty(),
    };
    if i == n - 1 {
        lemma_stands_last(use_edges(nodes, n - 1), last);
    } else {
        law_every_signature_is_read(nodes, n - 1, i);
        lemma_stands_further(
            named_edges(nodes, nodes[i].key@, names_in(nodes[i].signature->0@), true, "uses_type"@),
            use_edges(nodes, n - 1),
            last,
        );
    }
}

/// Every edge for a type that is used comes from a symbol with a signature.
pub proof fn law_used_types_come_from_signatures(nodes: Seq<SymbolNode>, n: int, e: EdgeText)
    requires
        0 <= n <= nodes.len(),
        use_edges(nodes, n).contains(e),
    ensures
        exists|i: int|
            0 <= i < n && (#[trigger] nodes[i]).signature is Some && named_edges(
                nodes,
                nodes[i].key@,
                names_in(nodes[i].signature->0@),
                true,
                "uses_type"@,
            ).contains(e),
    decreases n,
{
    if n > 0 {
        let before = use_edges(nodes, n - 1);
        let k = choose|k: int| 0 <= k < use_edges(nodes, n).len() && use_edges(nodes, n)[k] == e;
        if k < before.len() {
            assert(before[k] == e);
            law_used_types_come_from_signatures(nodes, n - 1, e);
        } else {
            let own = nodes[n - 1];
            assert(own.signature is Some);
            let last = named_edges(nodes, own.key@, names_in(own.signature->0@), true, "uses_type"@);
            assert(last[k - before.len()] == e);
        }
    }
}

/// The edges for the structs that the signature of any field names are among the edges for fields,
/// and begin at the struct that the field belongs to.
pub proof fn law_every_field_is_read(nodes: Seq<SymbolNode>, n: int, i: int)
    requires
        0 <= i < n <= nodes.len(),
        nodes[i].kind@ == "field"@,
        nodes[i].signature is Some,
    ensures
        stands_in(
            named_edges(
                nodes,
                field_owner(nodes, nodes.len() as int, nodes[i].key@),
                names_in(nodes[i].signature->0@),
                false,
                "field_type"@,
            ),
            field_edges(nodes, n),
        ),
    decreases n,
{
    let last = match nodes[n - 1].signature {
        Some(sig) if nodes[n - 1].kind@ == "field"@ => named_edges(
            nodes,
            field_owner(nodes, nodes.len() as int, nodes[n - 1].key@),
            names_in(sig@),
            false,
            "field_type"@,
        ),
        _ => Seq::empty(),
    };
    if i == n - 1 {
        lemma_stands_last(field_edges(nodes, n - 1), last);
    } else {
        law_every_field_is_read(nodes, n - 1, i);
        lemma_stands_further(
            named_edges(
                nodes,
                field_owner(nodes, nodes.len() as int, nodes[i].key@),
                names_in(nodes[i].signature->0@),
                false,
                "field_type"@,
            ),
            field_edges(nodes, n - 1),
            last,
        );
    }
}

/// A struct owns a field only of its own file, and one whose name lies on its lines; it owns every
/// field of its file whose name lies between its first and its last line.
pub proof fn law_owned_fields(nodes: Seq<SymbolNode>, s: int, key: Seq<char>, f: int)
    requires
        0 <= s < nodes.len(),
        0 <= f < nodes.len(),
    ensures
        owns_field(nodes, s, key) ==> nodes[s].kind@ == "struct"@ && exists|i: int|
            {
                &&& 0 <= i < nodes.len()
                &&& (#[trigger] nodes[i]).kind@ == "field"@
                &&& nodes[i].key@ == key
                &&& nodes[i].path@ == nodes[s].path@
                &&& nodes[s].full_range.start.line <= nodes[i].selection_range.start.line
                    <= nodes[s].full_range.end.line
            },
        nodes[s].kind@ == "struct"@ && nodes[f].kind@ == "field"@ && nodes[f].path@ == nodes[s].path@
            && nodes[s].full_range.start.line < nodes[f].selection_range.start.line < nodes[s].full_range.end.line
            ==> owns_field(nodes, s, nodes[f].key@),
{
    if owns_field(nodes, s, key) {
        let i = choose|i: int| #[trigger] is_field_in(nodes, s, i, key);
        assert(nodes[i].kind@ == "field"@);
    }
    if nodes[s].kind@ == "struct"@ && nodes[f].kind@ == "field"@ && nodes[f].path@ == nodes[s].path@
        && nodes[s].full_range.start.line < nodes[f].selection_range.start.line < nodes[s].full_range.end.line {
        assert(is_field_in(nodes, s, f, nodes[f].key@));
    }
}

/// A field belongs to the last struct that covers it; to itself only where none does.
pub proof fn law_field_owner(nodes: Seq<SymbolNode>, n: int, key: Seq<char>, s: int)
    requires
        0 <= s < n <= nodes.len(),
        owns_field(nodes, s, key),
        forall|t: int| s < t < n ==> !(#[trigger] owns_field(nodes, t, key)),
    ensures
        field_owner(nodes, n, key) == nodes[s].key@,
    decreases n,
{
    if s < n - 1 {
        assert(!owns_field(nodes, n - 1, key));
        law_field_owner(nodes, n - 1, key, s);
    }
}

/// A field that no struct covers stands for itself.
pub proof fn law_field_without_owner(nodes: Seq<SymbolNode>, n: int, key: Seq<char>)
    requires
        0 <= n <= nodes.len(),
        forall|t: int| 0 <= t < n ==> !(#[trigger] owns_field(nodes, t, key)),
    ensures
        field_owner(nodes, n, key) == key,
    decreases n,
{
    if n > 0 {
        assert(!owns_field(nodes, n - 1, key));
        law_field_without_owner(nodes, n - 1, key);
    }
}

} // verus!
