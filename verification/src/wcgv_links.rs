//! Edges from symbols to the types that they name, and from implementations.

use vstd::prelude::*;
use crate::edges::{append_edges, edge, edge_texts, push_edge, EdgeText, GraphEdge};
use crate::ordered::{ascending, insert_text, law_order_is_unique};
use crate::ranges::{contains, covers};
use crate::text::{chars_of, same, string_of, texts};
use crate::wcgv::SymbolNode;

verus! {

/// Whether a character belongs to a name.
pub open spec fn is_name_char(c: char) -> bool {
    ||| 'a' <= c <= 'z'
    ||| 'A' <= c <= 'Z'
    ||| '0' <= c <= '9'
    ||| c == '_'
}

/// Whether `s` has a name from `i` to `j` that is part of no longer one.
pub open spec fn is_run(s: Seq<char>, i: int, j: int) -> bool {
    &&& 0 <= i < j <= s.len()
    &&& forall|k: int| i <= k < j ==> is_name_char(#[trigger] s[k])
    &&& i == 0 || !is_name_char(s[i - 1])
    &&& j == s.len() || !is_name_char(s[j])
}

/// Whether `t` is a name in `s` that ends before `k`.
pub open spec fn named_before(s: Seq<char>, t: Seq<char>, k: int) -> bool {
    exists|i: int, j: int| #[trigger] is_run(s, i, j) && j < k && t == s.subrange(i, j)
}

/// Whether `t` is a name in `s`.
pub open spec fn is_named(s: Seq<char>, t: Seq<char>) -> bool {
    exists|i: int, j: int| #[trigger] is_run(s, i, j) && t == s.subrange(i, j)
}

/// Whether `names` are the names in `s`, each once and in order.
pub open spec fn are_names(s: Seq<char>, names: Seq<Seq<char>>) -> bool {
    &&& ascending(names)
    &&& forall|t: Seq<char>| #[trigger] names.contains(t) <==> is_named(s, t)
}

/// The names in `s`, each once and in order.
pub open spec fn names_in(s: Seq<char>) -> Seq<Seq<char>> {
    choose|names: Seq<Seq<char>>| are_names(s, names)
}

/// A text has one list of names.
pub proof fn lemma_names_in(s: Seq<char>, names: Seq<Seq<char>>)
    requires
        are_names(s, names),
    ensures
        names == names_in(s),
{
    let other = names_in(s);
    assert(are_names(s, other));
    law_order_is_unique(names, other);
}

proof fn lemma_run_ends(s: Seq<char>, from: int, k: int, t: Seq<char>)
    requires
        0 <= from <= k < s.len() || (0 <= from <= k == s.len()),
        forall|q: int| from <= q < k ==> is_name_char(#[trigger] s[q]),
        from == 0 || !is_name_char(s[from - 1]),
        k == s.len() || !is_name_char(s[k]),
    ensures
        named_before(s, t, k + 1) <==> named_before(s, t, k) || (from < k && t == s.subrange(from, k)),
{
    if named_before(s, t, k + 1) && !named_before(s, t, k) {
        let (i, j) = choose|i: int, j: int| #[trigger]
            is_run(s, i, j) && j < k + 1 && t == s.subrange(i, j);
        assert(j == k);
        if i < from {
            assert(is_name_char(s[from - 1]));
        } else if i > from {
            assert(is_name_char(s[i - 1]));
        }
    }
    if from < k {
        assert(is_run(s, from, k));
    }
}

/// The names in a text, each once and in order.
pub fn extract_ident_tokens(text: &str) -> (r: Vec<String>)
    ensures
        texts(r@) == names_in(text@),
        are_names(text@, texts(r@)),
{
    let cs: Vec<char> = chars_of(text);
    let n: usize = cs.len();
    let mut out: Vec<String> = Vec::new();
    let mut from: usize = 0;
    let mut k: usize = 0;
    while k < n
        invariant
            from <= k <= n,
            n == cs@.len(),
            ascending(texts(out@)),
            forall|q: int| from <= q < k ==> is_name_char(#[trigger] cs@[q]),
            from == 0 || !is_name_char(cs@[from - 1]),
            forall|t: Seq<char>| #[trigger]
                texts(out@).contains(t) <==> named_before(cs@, t, k as int),
        decreases n - k,
    {
        let c: char = cs[k];
        let ghost had = texts(out@);
        if ('a' <= c && c <= 'z') || ('A' <= c && c <= 'Z') || ('0' <= c && c <= '9') || c == '_' {
            proof {
                assert forall|t: Seq<char>| #[trigger] had.contains(t) <==> named_before(
                    cs@,
                    t,
                    k + 1,
                ) by {
                    if named_before(cs@, t, k + 1) {
                        let (i, j) = choose|i: int, j: int| #[trigger]
                            is_run(cs@, i, j) && j < k + 1 && t == cs@.subrange(i, j);
                        assert(j != k);
                    }
                }
            }
        } else {
            if from < k {
                let token: String = string_of(&cs, from, k);
                insert_text(&mut out, token.as_str());
            }
            proof {
                assert forall|t: Seq<char>| #[trigger] texts(out@).contains(t) <==> named_before(
                    cs@,
                    t,
                    k + 1,
                ) by {
                    lemma_run_ends(cs@, from as int, k as int, t);
                    assert(had.contains(t) <==> named_before(cs@, t, k as int));
                }
            }
            from = k + 1;
        }
        k += 1;
    }
    let ghost had = texts(out@);
    if from < n {
        let token: String = string_of(&cs, from, n);
        insert_text(&mut out, token.as_str());
    }
    proof {
        assert forall|t: Seq<char>| #[trigger] texts(out@).contains(t) <==> is_named(text@, t) by {
            lemma_run_ends(cs@, from as int, n as int, t);
            assert(had.contains(t) <==> named_before(cs@, t, n as int));
            if is_named(cs@, t) {
                let (i, j) = choose|i: int, j: int| #[trigger]
                    is_run(cs@, i, j) && t == cs@.subrange(i, j);
                assert(is_run(cs@, i, j) && j < n + 1);
            }
        }
        lemma_names_in(text@, texts(out@));
    }
    out
}

/// Whether a symbol is a type: a struct, or, where all types count, a class or an interface.
pub open spec fn is_type(n: SymbolNode, all: bool) -> bool {
    n.kind@ == "struct"@ || (all && (n.kind@ == "class"@ || n.kind@ == "interface"@))
}

/// The key of the first type of this name.
pub open spec fn type_key(nodes: Seq<SymbolNode>, label: Seq<char>, all: bool) -> Option<Seq<char>>
    decreases nodes.len(),
{
    if nodes.len() == 0 {
        None
    } else if is_type(nodes[0], all) && nodes[0].label@ == label {
        Some(nodes[0].key@)
    } else {
        type_key(nodes.drop_first(), label, all)
    }
}

/// The first type of this name.
pub fn find_type(nodes: &[SymbolNode], label: &str, all: bool) -> (r: Option<usize>)
    ensures
        match r {
            Some(i) => i < nodes@.len() && type_key(nodes@, label@, all) == Some(
                nodes@[i as int].key@,
            ),
            None => type_key(nodes@, label@, all) is None,
        },
{
    let n: usize = nodes.len();
    let mut i: usize = 0;
    assert(nodes@.skip(0) =~= nodes@);
    while i < n
        invariant
            i <= n,
            n == nodes@.len(),
            type_key(nodes@.skip(i as int), label@, all) == type_key(nodes@, label@, all),
        decreases n - i,
    {
        assert(nodes@.skip(i as int).drop_first() =~= nodes@.skip(i + 1));
        assert(nodes@.skip(i as int)[0] == nodes@[i as int]);
        let k: &str = nodes[i].kind.as_str();
        if (same(k, "struct") || (all && (same(k, "class") || same(k, "interface")))) && same(
            nodes[i].label.as_str(),
            label,
        ) {
            return Some(i);
        }
        i += 1;
    }
    None
}

/// The edges from a symbol to the types that a list names, itself aside.
pub open spec fn named_edges(
    nodes: Seq<SymbolNode>,
    key: Seq<char>,
    names: Seq<Seq<char>>,
    all: bool,
    edge_type: Seq<char>,
) -> Seq<EdgeText>
    decreases names.len(),
{
    if names.len() == 0 {
        Seq::empty()
    } else {
        let before = named_edges(nodes, key, names.drop_last(), all, edge_type);
        match type_key(nodes, names.last(), all) {
            Some(t) if t != key => before.push(edge(key, t, edge_type)),
            _ => before,
        }
    }
}

fn make_named_edges(
    nodes: &[SymbolNode],
    key: &str,
    names: &[String],
    all: bool,
    edge_type: &str,
) -> (r: Vec<GraphEdge>)
    ensures
        edge_texts(r@) == named_edges(nodes@, key@, texts(names@), all, edge_type@),
{
    let ghost list = texts(names@);
    let mut out: Vec<GraphEdge> = Vec::new();
    let mut i: usize = 0;
    assert(edge_texts(out@) =~= Seq::empty());
    while i < names.len()
        invariant
            i <= names@.len(),
            edge_texts(out@) == named_edges(nodes@, key@, list.take(i as int), all, edge_type@),
        decreases names@.len() - i,
    {
        assert(list.take(i + 1).drop_last() =~= list.take(i as int));
        assert(list.take(i + 1).last() == names@[i as int]@);
        match find_type(nodes, names[i].as_str(), all) {
            Some(t) => {
                if !same(nodes[t].key.as_str(), key) {
                    push_edge(&mut out, key, nodes[t].key.as_str(), edge_type);
                }
            },
            None => {},
        }
        i += 1;
    }
    assert(list.take(i as int) =~= list);
    out
}

/// The edges from the first `n` symbols to the types that their signatures name.
pub open spec fn use_edges(nodes: Seq<SymbolNode>, n: int) -> Seq<EdgeText>
    decreases n,
{
    if n <= 0 {
        Seq::empty()
    } else {
        use_edges(nodes, n - 1) + match nodes[n - 1].signature {
            Some(sig) => named_edges(nodes, nodes[n - 1].key@, names_in(sig@), true, "uses_type"@),
            None => Seq::empty(),
        }
    }
}

/// The edges from symbols to the types that their signatures name.
pub fn find_use_edges(nodes: &[SymbolNode]) -> (r: Vec<GraphEdge>)
    ensures
        edge_texts(r@) == use_edges(nodes@, nodes@.len() as int),
{
    let mut out: Vec<GraphEdge> = Vec::new();
    let n: usize = nodes.len();
    let mut i: usize = 0;
    assert(edge_texts(out@) =~= Seq::empty());
    while i < n
        invariant
            i <= n,
            n == nodes@.len(),
            edge_texts(out@) == use_edges(nodes@, i as int),
        decreases n - i,
    {
        match &nodes[i].signature {
            Some(sig) => {
                let names: Vec<String> = extract_ident_tokens(sig.as_str());
                append_edges(
                    &mut out,
                    make_named_edges(nodes, nodes[i].key.as_str(), &names, true, "uses_type"),
                );
            },
            None => {
                assert(use_edges(nodes@, i + 1) =~= use_edges(nodes@, i as int));
            },
        }
        i += 1;
    }
    out
}

/// Whether symbol `s` is a struct whose range covers the name of a field with this key, of the
/// same file.
pub open spec fn owns_field(nodes: Seq<SymbolNode>, s: int, key: Seq<char>) -> bool {
    nodes[s].kind@ == "struct"@ && exists|f: int| #[trigger] is_field_in(nodes, s, f, key)
}

/// Whether symbol `f` is a field with this key that lies in symbol `s`.
pub open spec fn is_field_in(nodes: Seq<SymbolNode>, s: int, f: int, key: Seq<char>) -> bool {
    &&& 0 <= f < nodes.len()
    &&& nodes[f].kind@ == "field"@
    &&& nodes[f].key@ == key
    &&& nodes[f].path@ == nodes[s].path@
    &&& covers(
        nodes[s].full_range,
        nodes[f].selection_range.start.line as int,
        nodes[f].selection_range.start.column as int,
    )
}

/// The key of the last of the first `n` symbols that owns the field with this key; the field's own
/// where none does.
pub open spec fn field_owner(nodes: Seq<SymbolNode>, n: int, key: Seq<char>) -> Seq<char>
    decreases n,
{
    if n <= 0 {
        key
    } else if owns_field(nodes, n - 1, key) {
        nodes[n - 1].key@
    } else {
        field_owner(nodes, n - 1, key)
    }
}

fn has_field(nodes: &[SymbolNode], s: usize, key: &str) -> (r: bool)
    requires
        s < nodes@.len(),
    ensures
        r == owns_field(nodes@, s as int, key@),
{
    if !same(nodes[s].kind.as_str(), "struct") {
        return false;
    }
    let n: usize = nodes.len();
    let mut f: usize = 0;
    while f < n
        invariant
            f <= n,
            n == nodes@.len(),
            forall|j: int| 0 <= j < f ==> !#[trigger] is_field_in(nodes@, s as int, j, key@),
        decreases n - f,
    {
        let x: &SymbolNode = &nodes[f];
        if same(x.kind.as_str(), "field") && same(x.key.as_str(), key) && same(
            x.path.as_str(),
            nodes[s].path.as_str(),
        ) && contains(
            &nodes[s].full_range,
            x.selection_range.start.line,
            x.selection_range.start.column,
        ) {
            assert(is_field_in(nodes@, s as int, f as int, key@));
            return true;
        }
        assert(!is_field_in(nodes@, s as int, f as int, key@));
        f += 1;
    }
    false
}

fn find_owner(nodes: &[SymbolNode], key: &str) -> (r: String)
    ensures
        r@ == field_owner(nodes@, nodes@.len() as int, key@),
{
    let mut i: usize = nodes.len();
    while i > 0
        invariant
            i <= nodes@.len(),
            field_owner(nodes@, i as int, key@) == field_owner(nodes@, nodes@.len() as int, key@),
        decreases i,
    {
        i -= 1;
        if has_field(nodes, i, key) {
            return nodes[i].key.clone();
        }
    }
    key.to_owned()
}

/// The edges from the owners of the fields among the first `n` symbols to the structs that the
/// fields' signatures name.
pub open spec fn field_edges(nodes: Seq<SymbolNode>, n: int) -> Seq<EdgeText>
    decreases n,
{
    if n <= 0 {
        Seq::empty()
    } else {
        field_edges(nodes, n - 1) + match nodes[n - 1].signature {
            Some(sig) if nodes[n - 1].kind@ == "field"@ => named_edges(
                nodes,
                field_owner(nodes, nodes.len() as int, nodes[n - 1].key@),
                names_in(sig@),
                false,
                "field_type"@,
            ),
            _ => Seq::empty(),
        }
    }
}

/// The edges from the owners of fields to the structs that the fields' signatures name.
pub fn find_field_edges(nodes: &[SymbolNode]) -> (r: Vec<GraphEdge>)
    ensures
        edge_texts(r@) == field_edges(nodes@, nodes@.len() as int),
{
    let mut out: Vec<GraphEdge> = Vec::new();
    let n: usize = nodes.len();
    let mut i: usize = 0;
    assert(edge_texts(out@) =~= Seq::empty());
    while i < n
        invariant
            i <= n,
            n == nodes@.len(),
            edge_texts(out@) == field_edges(nodes@, i as int),
        decreases n - i,
    {
        let field: bool = same(nodes[i].kind.as_str(), "field");
        let mut more: Vec<GraphEdge> = Vec::new();
        assert(edge_texts(more@) =~= Seq::empty());
        match &nodes[i].signature {
            Some(sig) => {
                if field {
                    let names: Vec<String> = extract_ident_tokens(sig.as_str());
                    let owner: String = find_owner(nodes, nodes[i].key.as_str());
                    more = make_named_edges(nodes, owner.as_str(), &names, false, "field_type");
                }
            },
            None => {},
        }
        append_edges(&mut out, more);
        i += 1;
    }
    out
}

} // verus!
