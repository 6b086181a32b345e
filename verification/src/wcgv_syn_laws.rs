//! What a graph for the viewer holds, said of the items of the files.

use vstd::prelude::*;
use crate::edges::edge;
use crate::models::{CallText, MethodText, ModelText};
use crate::sieve::{is_sieved, lemma_sieve_more, lemma_sieve_nothing};
use crate::syntax::{impl_block, impl_span, ItemKind, ItemText};
use crate::text::texts;
use crate::wcg_scan::call_name;
use crate::wcgv_impls::{impl_node, impl_nodes};
use crate::wcgv_syn::{
    call_edges, call_target, function_edges, function_id, function_node, function_nodes, function_text, has_id,
    impl_edge_list, impl_edges, is_plain, kept_names, method_texts, names_output, output_from, struct_node, trait_node, with_methods,
    with_model, with_models, with_node, with_structs, with_traits, FunctionInfo, FunctionText, GraphText, ImplInfo,
    NodeText, StructInfo, TraitInfo,
};

verus! {

/// Every call that has a name and is not left out is noted, and no other.
pub proof fn law_calls_are_noted(v: Seq<CallText>)
    ensures
        is_sieved(
            v,
            kept_names(v),
            |c: CallText| call_name(c) is Some && !is_plain(call_name(c)->0),
            |c: CallText| call_name(c)->0,
        ),
    decreases v.len(),
{
    let keep = |c: CallText| call_name(c) is Some && !is_plain(call_name(c)->0);
    let give = |c: CallText| call_name(c)->0;
    let all = kept_names(v);
    if v.len() == 0 {
        lemma_sieve_nothing(v, all, keep, give);
    } else {
        law_calls_are_noted(v.drop_last());
        lemma_sieve_more(v, kept_names(v.drop_last()), all, keep, give);
    }
}

/// Every method of an implementation is noted, in order, as one of its type and file.
pub proof fn law_methods_are_noted(
    v: Seq<Option<MethodText>>,
    target: Seq<char>,
    path: Seq<char>,
    content: Seq<char>,
)
    ensures
        is_sieved(
            v,
            method_texts(v, target, path, content),
            |m: Option<MethodText>| m is Some,
            |m: Option<MethodText>| function_text(m->0.function, path, Some(target), content, m->0.span),
        ),
    decreases v.len(),
{
    let keep = |m: Option<MethodText>| m is Some;
    let give = |m: Option<MethodText>| function_text(m->0.function, path, Some(target), content, m->0.span);
    let all = method_texts(v, target, path, content);
    if v.len() == 0 {
        lemma_sieve_nothing(v, all, keep, give);
    } else {
        law_methods_are_noted(v.drop_last(), target, path, content);
        lemma_sieve_more(v, method_texts(v.drop_last(), target, path, content), all, keep, give);
    }
}

/// Whether one of the methods of `target` stands under the name `n`.
pub open spec fn names_method(target: Seq<char>, ms: Seq<FunctionText>, n: Seq<char>) -> bool {
    exists|k: int| 0 <= k < ms.len() && n == target + "::"@ + (#[trigger] ms[k]).name
}

/// Every method is taken up under its type's name and its own, and nothing else changes.
pub proof fn law_methods_are_functions(
    functions: Map<Seq<char>, FunctionText>,
    target: Seq<char>,
    ms: Seq<FunctionText>,
    n: Seq<char>,
)
    ensures
        with_methods(functions, target, ms).dom().contains(n) <==> functions.dom().contains(n) || names_method(
            target,
            ms,
            n,
        ),
        !names_method(target, ms, n) && functions.dom().contains(n) ==> with_methods(functions, target, ms)[n]
            == functions[n],
        names_method(target, ms, n) ==> ms.contains(with_methods(functions, target, ms)[n]) && n == target
            + "::"@ + with_methods(functions, target, ms)[n].name,
    decreases ms.len(),
{
    if ms.len() > 0 {
        let d = ms.drop_last();
        law_methods_are_functions(functions, target, d, n);
        let earlier = with_methods(functions, target, d);
        if names_method(target, d, n) {
            let k = choose|k: int| 0 <= k < d.len() && n == target + "::"@ + (#[trigger] d[k]).name;
            assert(n == target + "::"@ + ms[k].name);
        }
        if n == target + "::"@ + ms.last().name {
            assert(n == target + "::"@ + ms[ms.len() - 1].name);
            assert(ms.contains(ms[ms.len() - 1]));
        } else if names_method(target, ms, n) {
            let k = choose|k: int| 0 <= k < ms.len() && n == target + "::"@ + (#[trigger] ms[k]).name;
            assert(n == target + "::"@ + d[k].name);
            let f = earlier[n];
            let j = choose|j: int| 0 <= j < d.len() && d[j] == f;
            assert(ms[j] == f);
        }
    }
}

/// Whether an item declares the function `n`, itself or as the method `n` of a type.
pub open spec fn declares_function(m: ModelText, n: Seq<char>) -> bool {
    match m {
        ModelText::Function(f) => f.function.name == n,
        ModelText::Impl(i) => exists|k: int|
            0 <= k < i.members.len() && (#[trigger] i.members[k] matches Some(x) && n == i.target_type + "::"@
                + x.function.name),
        _ => false,
    }
}

/// Whether an item declares the struct `n`.
pub open spec fn declares_struct(m: ModelText, n: Seq<char>) -> bool {
    m matches ModelText::Struct { name, visibility: _, span: _ } && name == n
}

/// Whether an item declares the trait `n`.
pub open spec fn declares_trait(m: ModelText, n: Seq<char>) -> bool {
    m matches ModelText::Trait { name, span: _ } && name == n
}

/// Whether an item implements something for the type `n`.
pub open spec fn declares_impl(m: ModelText, n: Seq<char>) -> bool {
    m matches ModelText::Impl(i) && i.target_type == n
}

proof fn lemma_method_names(
    v: Seq<Option<MethodText>>,
    target: Seq<char>,
    path: Seq<char>,
    content: Seq<char>,
    n: Seq<char>,
)
    ensures
        names_method(target, method_texts(v, target, path, content), n) <==> exists|k: int|
            0 <= k < v.len() && (#[trigger] v[k] matches Some(x) && n == target + "::"@ + x.function.name),
    decreases v.len(),
{
    if v.len() > 0 {
        let d = v.drop_last();
        lemma_method_names(d, target, path, content, n);
        let all = method_texts(v, target, path, content);
        let earlier = method_texts(d, target, path, content);
        if names_method(target, earlier, n) {
            let k = choose|k: int| 0 <= k < earlier.len() && n == target + "::"@ + (#[trigger] earlier[k]).name;
            assert(n == target + "::"@ + all[k].name);
        }
        if names_method(target, all, n) {
            let k = choose|k: int| 0 <= k < all.len() && n == target + "::"@ + (#[trigger] all[k]).name;
            if k < earlier.len() {
                assert(n == target + "::"@ + earlier[k].name);
                let j = choose|j: int|
                    0 <= j < d.len() && (#[trigger] d[j] matches Some(x) && n == target + "::"@ + x.function.name);
                assert(v[j] == d[j]);
            } else {
                assert(v[v.len() - 1] is Some);
            }
        }
        if exists|k: int|
            0 <= k < v.len() && (#[trigger] v[k] matches Some(x) && n == target + "::"@ + x.function.name) {
            let k = choose|k: int|
                0 <= k < v.len() && (#[trigger] v[k] matches Some(x) && n == target + "::"@ + x.function.name);
            if k < d.len() {
                assert(d[k] == v[k]);
            } else {
                assert(n == target + "::"@ + all[earlier.len() as int].name);
            }
        }
    }
}

/// What one item adds to the names of a graph.
proof fn lemma_model_noted(g: GraphText, m: ModelText, path: Seq<char>, content: Seq<char>, n: Seq<char>)
    ensures
        ({
            let all = with_model(g, m, path, content);
            &&& all.functions.dom().contains(n) <==> g.functions.dom().contains(n) || declares_function(m, n)
            &&& all.structs.dom().contains(n) <==> g.structs.dom().contains(n) || declares_struct(m, n)
            &&& all.traits.dom().contains(n) <==> g.traits.dom().contains(n) || declares_trait(m, n)
            &&& all.impls.dom().contains(n) <==> g.impls.dom().contains(n) || declares_impl(m, n)
        }),
{
    match m {
        ModelText::Impl(i) => {
            lemma_method_names(i.members, i.target_type, path, content, n);
            law_methods_are_functions(
                g.functions,
                i.target_type,
                method_texts(i.members, i.target_type, path, content),
                n,
            );
        },
        _ => {},
    }
}

/// Whether `said` holds of one of the items.
pub open spec fn any_item(models: Seq<ModelText>, said: spec_fn(ModelText) -> bool) -> bool {
    exists|i: int| 0 <= i < models.len() && said(#[trigger] models[i])
}

proof fn lemma_any_item(models: Seq<ModelText>, said: spec_fn(ModelText) -> bool)
    requires
        models.len() > 0,
    ensures
        any_item(models, said) <==> any_item(models.drop_last(), said) || said(models.last()),
{
    let d = models.drop_last();
    assert(models[models.len() - 1] == models.last());
    if any_item(d, said) {
        let i = choose|i: int| 0 <= i < d.len() && said(#[trigger] d[i]);
        assert(models[i] == d[i]);
    }
    if any_item(models, said) {
        let i = choose|i: int| 0 <= i < models.len() && said(#[trigger] models[i]);
        if i < d.len() {
            assert(d[i] == models[i]);
        }
    }
}

/// The graph of a file holds a function, struct, trait or implementation under each name that one
/// of its items declares as such, besides what the graph held before; and no other.
pub proof fn law_every_item_is_noted(
    g: GraphText,
    models: Seq<ModelText>,
    path: Seq<char>,
    content: Seq<char>,
    n: Seq<char>,
)
    ensures
        ({
            let all = with_models(g, models, path, content);
            &&& all.functions.dom().contains(n) <==> g.functions.dom().contains(n) || any_item(
                models,
                |m: ModelText| declares_function(m, n),
            )
            &&& all.structs.dom().contains(n) <==> g.structs.dom().contains(n) || any_item(
                models,
                |m: ModelText| declares_struct(m, n),
            )
            &&& all.traits.dom().contains(n) <==> g.traits.dom().contains(n) || any_item(
                models,
                |m: ModelText| declares_trait(m, n),
            )
            &&& all.impls.dom().contains(n) <==> g.impls.dom().contains(n) || any_item(
                models,
                |m: ModelText| declares_impl(m, n),
            )
        }),
    decreases models.len(),
{
    if models.len() > 0 {
        let d = models.drop_last();
        law_every_item_is_noted(g, d, path, content, n);
        lemma_model_noted(with_models(g, d, path, content), models.last(), path, content, n);
        lemma_any_item(models, |m: ModelText| declares_function(m, n));
        lemma_any_item(models, |m: ModelText| declares_struct(m, n));
        lemma_any_item(models, |m: ModelText| declares_trait(m, n));
        lemma_any_item(models, |m: ModelText| declares_impl(m, n));
    }
}

proof fn lemma_id_stays(v: Seq<NodeText>, n: NodeText, id: Seq<char>)
    ensures
        has_id(with_node(v, n), id) <==> has_id(v, id) || n.id == id,
{
    let all = with_node(v, n);
    if has_id(v, id) {
        let i = choose|i: int| 0 <= i < v.len() && (#[trigger] v[i]).id == id;
        assert(all[i].id == id);
    }
    if n.id == id && !has_id(v, id) {
        assert(all[v.len() as int].id == id);
    }
    if has_id(all, id) {
        let i = choose|i: int| 0 <= i < all.len() && (#[trigger] all[i]).id == id;
        if i < v.len() {
            assert(v[i].id == id);
        }
    }
}

/// Every function has a node with its id, and each such node is that of a function.
pub proof fn law_every_function_is_a_node(names: Seq<Seq<char>>, v: Seq<FunctionInfo>, root: Seq<char>, i: int)
    requires
        names.len() == v.len(),
        0 <= i < v.len(),
    ensures
        has_id(function_nodes(names, v, root), function_id(names[i], v[i])),
    decreases v.len(),
{
    let earlier = function_nodes(names.drop_last(), v.drop_last(), root);
    lemma_id_stays(earlier, function_node(names.last(), v.last(), root), function_id(names[i], v[i]));
    if i < v.len() - 1 {
        law_every_function_is_a_node(names.drop_last(), v.drop_last(), root, i);
    }
}

/// Whether a node is that of one of the functions.
pub open spec fn is_function_node(names: Seq<Seq<char>>, v: Seq<FunctionInfo>, root: Seq<char>, n: NodeText) -> bool {
    exists|i: int| 0 <= i < v.len() && n == function_node(#[trigger] names[i], v[i], root)
}

/// Every node of functions is that of one of them.
pub proof fn law_function_nodes_are_functions(names: Seq<Seq<char>>, v: Seq<FunctionInfo>, root: Seq<char>, k: int)
    requires
        names.len() == v.len(),
        0 <= k < function_nodes(names, v, root).len(),
    ensures
        is_function_node(names, v, root, function_nodes(names, v, root)[k]),
    decreases v.len(),
{
    if v.len() > 0 {
        let earlier = function_nodes(names.drop_last(), v.drop_last(), root);
        let all = function_nodes(names, v, root);
        if k < earlier.len() {
            law_function_nodes_are_functions(names.drop_last(), v.drop_last(), root, k);
            let d = names.drop_last();
            let i = choose|i: int|
                0 <= i < v.drop_last().len() && all[k] == function_node(#[trigger] d[i], v.drop_last()[i], root);
            assert(names[i] == d[i]);
        } else {
            assert(names[v.len() - 1] == names.last());
        }
    }
}

/// Every struct has a node, and the nodes that were there before stay in front.
pub proof fn law_every_struct_is_a_node(
    nodes: Seq<NodeText>,
    names: Seq<Seq<char>>,
    v: Seq<StructInfo>,
    root: Seq<char>,
)
    requires
        names.len() == v.len(),
    ensures
        nodes.is_prefix_of(with_structs(nodes, names, v, root)),
        forall|i: int|
            0 <= i < v.len() ==> has_id(
                with_structs(nodes, names, v, root),
                "struct"@ + "::"@ + #[trigger] names[i],
            ),
    decreases v.len(),
{
    if v.len() > 0 {
        let d = names.drop_last();
        law_every_struct_is_a_node(nodes, d, v.drop_last(), root);
        let earlier = with_structs(nodes, d, v.drop_last(), root);
        let last = struct_node(names.last(), v.last(), root);
        assert forall|i: int| 0 <= i < v.len() implies has_id(
            with_structs(nodes, names, v, root),
            "struct"@ + "::"@ + #[trigger] names[i],
        ) by {
            lemma_id_stays(earlier, last, "struct"@ + "::"@ + names[i]);
            if i < d.len() {
                assert(d[i] == names[i]);
            }
        }
    }
}

/// Every trait has a node, and the nodes that were there before stay in front.
pub proof fn law_every_trait_is_a_node(
    nodes: Seq<NodeText>,
    names: Seq<Seq<char>>,
    v: Seq<TraitInfo>,
    root: Seq<char>,
)
    requires
        names.len() == v.len(),
    ensures
        nodes.is_prefix_of(with_traits(nodes, names, v, root)),
        forall|i: int|
            0 <= i < v.len() ==> has_id(with_traits(nodes, names, v, root), "trait"@ + "::"@ + #[trigger] names[i]),
    decreases v.len(),
{
    if v.len() > 0 {
        let d = names.drop_last();
        law_every_trait_is_a_node(nodes, d, v.drop_last(), root);
        let earlier = with_traits(nodes, d, v.drop_last(), root);
        let last = trait_node(names.last(), v.last(), root);
        assert forall|i: int| 0 <= i < v.len() implies has_id(
            with_traits(nodes, names, v, root),
            "trait"@ + "::"@ + #[trigger] names[i],
        ) by {
            lemma_id_stays(earlier, last, "trait"@ + "::"@ + names[i]);
            if i < d.len() {
                assert(d[i] == names[i]);
            }
        }
    }
}

/// Every call of every function has an edge: from the function to the one that it names where that
/// one is known, to an unresolved one where it is not.
pub proof fn law_every_call_is_an_edge(
    names: Seq<Seq<char>>,
    v: Seq<FunctionInfo>,
    known: Set<Seq<char>>,
    i: int,
    j: int,
)
    requires
        names.len() == v.len(),
        0 <= i < v.len(),
        0 <= j < v[i].calls@.len(),
    ensures
        known.contains(v[i].calls@[j]@) ==> function_edges(names, v, known).contains(
            edge(function_id(names[i], v[i]), "func::"@ + v[i].calls@[j]@, "calls"@),
        ),
        !known.contains(v[i].calls@[j]@) ==> function_edges(names, v, known).contains(
            edge(function_id(names[i], v[i]), "unresolved::"@ + v[i].calls@[j]@, "calls"@),
        ),
    decreases v.len(),
{
    let earlier = function_edges(names.drop_last(), v.drop_last(), known);
    let last = call_edges(function_id(names.last(), v.last()), texts(v.last().calls@), known);
    let all = function_edges(names, v, known);
    let call = v[i].calls@[j]@;
    let e = edge(function_id(names[i], v[i]), call_target(known, call), "calls"@);
    if i < v.len() - 1 {
        law_every_call_is_an_edge(names.drop_last(), v.drop_last(), known, i, j);
        let k = choose|k: int| 0 <= k < earlier.len() && earlier[k] == e;
        assert(all[k] == e);
    } else {
        assert(texts(v.last().calls@)[j] == call);
        assert(last[j] == e);
        assert(all[earlier.len() + j] == e);
    }
}

/// A function more adds as many edges for calls as it has calls, and no functions have none.
pub proof fn law_no_other_call_is_an_edge(names: Seq<Seq<char>>, v: Seq<FunctionInfo>, known: Set<Seq<char>>)
    requires
        v.len() > 0,
        names.len() == v.len(),
    ensures
        function_edges(names, v, known).len() == function_edges(names.drop_last(), v.drop_last(), known).len()
            + v.last().calls@.len(),
        function_edges(names.take(0), v.take(0), known).len() == 0,
{
}

/// Every implementation has an edge to its type, and one to each of its methods.
pub proof fn law_every_impl_has_its_edges(names: Seq<Seq<char>>, v: Seq<ImplInfo>, i: int)
    requires
        names.len() == v.len(),
        0 <= i < v.len(),
    ensures
        impl_edges(names, v).contains(edge("impl::"@ + names[i], "struct::"@ + names[i], "implements"@)),
        forall|j: int|
            0 <= j < v[i].methods@.len() ==> impl_edges(names, v).contains(
                edge("impl::"@ + names[i], "func::"@ + names[i] + "::"@ + (#[trigger] v[i].methods@[j]).name@, "contains"@),
            ),
    decreases v.len(),
{
    let earlier = impl_edges(names.drop_last(), v.drop_last());
    let last = impl_edge_list(names.last(), v.last());
    let all = impl_edges(names, v);
    let own = edge("impl::"@ + names[i], "struct::"@ + names[i], "implements"@);
    if i < v.len() - 1 {
        law_every_impl_has_its_edges(names.drop_last(), v.drop_last(), i);
        let k = choose|k: int| 0 <= k < earlier.len() && earlier[k] == own;
        assert(all[k] == own);
    } else {
        assert(last[0] == own);
        assert(all[earlier.len() as int] == own);
    }
    assert forall|j: int| 0 <= j < v[i].methods@.len() implies all.contains(
        edge("impl::"@ + names[i], "func::"@ + names[i] + "::"@ + (#[trigger] v[i].methods@[j]).name@, "contains"@),
    ) by {
        let e = edge("impl::"@ + names[i], "func::"@ + names[i] + "::"@ + v[i].methods@[j].name@, "contains"@);
        if i < v.len() - 1 {
            assert(v.drop_last()[i] == v[i]);
            assert(names.drop_last()[i] == names[i]);
            assert(earlier.contains(e));
            let k = choose|k: int| 0 <= k < earlier.len() && earlier[k] == e;
            assert(all[k] == e);
        } else {
            assert(last[1 + j] == e);
            assert(all[earlier.len() + 1 + j] == e);
        }
    }
}

/// Every implementation of a file that the parser tells of has a node.
pub proof fn law_every_impl_is_a_node(
    source: Seq<char>,
    rel_path: Seq<char>,
    include_sources: bool,
    items: Seq<ItemText>,
    n: int,
    i: int,
)
    requires
        0 <= i < n <= items.len(),
        items[i].kind == ItemKind::Impl,
        impl_block(source, i as nat) is Some,
        impl_span(source, i as nat) is Some,
    ensures
        impl_nodes(source, rel_path, include_sources, items, n).contains(
            impl_node(
                impl_block(source, i as nat)->0,
                impl_span(source, i as nat)->0,
                source,
                rel_path,
                include_sources,
            ),
        ),
    decreases n,
{
    let all = impl_nodes(source, rel_path, include_sources, items, n);
    let earlier = impl_nodes(source, rel_path, include_sources, items, n - 1);
    let node = impl_node(
        impl_block(source, i as nat)->0,
        impl_span(source, i as nat)->0,
        source,
        rel_path,
        include_sources,
    );
    if i < n - 1 {
        law_every_impl_is_a_node(source, rel_path, include_sources, items, n - 1, i);
        let k = choose|k: int| 0 <= k < earlier.len() && earlier[k] == node;
        assert(all[k] == node);
    } else {
        assert(all[earlier.len() as int] == node);
    }
}

/// What follows the output switch is the output, where the rest of the arguments has no such switch.
pub proof fn law_output_is_what_follows(args: Seq<Seq<char>>, i: int, now: Option<Seq<char>>)
    requires
        0 <= i,
        i + 1 < args.len(),
        names_output(args[i]),
        forall|j: int| i + 2 <= j < args.len() ==> !names_output(#[trigger] args[j]),
    ensures
        output_from(args, i, now) == Some(args[i + 1]),
{
    law_no_output_is_named(args, i + 2, Some(args[i + 1]));
}

/// Arguments without an output switch name no output.
pub proof fn law_no_output_is_named(args: Seq<Seq<char>>, i: int, now: Option<Seq<char>>)
    requires
        0 <= i,
        forall|j: int| i <= j < args.len() ==> !names_output(#[trigger] args[j]),
    ensures
        output_from(args, i, now) == now,
    decreases args.len() - i,
{
    if i < args.len() {
        law_no_output_is_named(args, i + 1, now);
    }
}

} // verus!
