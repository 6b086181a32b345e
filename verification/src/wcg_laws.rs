//! What a code graph and its report hold, said of the items of the files.

use vstd::prelude::*;
use crate::models::{AttrText, CallText, FnText, InputText, MethodText, ModelText, UseText};
use crate::sieve::{is_sieved, lemma_sieve_more, lemma_sieve_nothing};
use crate::text::{occurs, occurs_at};
use crate::wcg::{
    call_behind, group_imports, imported_call, switches, tree_imports, FunctionInfo, ImplInfo, ImportText, StructInfo,
    Switches, TraitInfo,
};
use crate::wcg_calls::{is_left_out, last_part, rfind_from};
use crate::wcg_report::{
    function_entries, function_entry, impl_entries, impl_entry, struct_entries, struct_entry, trait_entries,
    trait_entry,
};
use crate::wcg_scan::{
    attribute_texts, call_name, function_text, kept_names, method_texts, parameter, parameters, with_imports,
    with_methods, with_model, with_models, FunctionText, GraphText,
};

verus! {

/// The imports of a group are those of its trees, one after the other.
pub proof fn law_group_imports(prefix: Seq<char>, a: Seq<UseText>, b: Seq<UseText>)
    ensures
        group_imports(prefix, a + b) == group_imports(prefix, a) + group_imports(prefix, b),
        a.len() == 1 ==> group_imports(prefix, a) == tree_imports(prefix, a[0]),
        tree_imports(prefix, UseText::Group(a)) == group_imports(prefix, a),
    decreases a.len(),
{
    let none = Seq::<ImportText>::empty();
    if a.len() == 0 {
        assert(a + b =~= b);
        assert(group_imports(prefix, a) + group_imports(prefix, b) =~= group_imports(prefix, b));
    } else {
        let rest = a.subrange(1, a.len() as int);
        law_group_imports(prefix, rest, b);
        assert((a + b).subrange(1, (a + b).len() as int) =~= rest + b);
        assert((a + b)[0] == a[0]);
        assert(group_imports(prefix, a + b) =~= group_imports(prefix, a) + group_imports(prefix, b));
        if a.len() == 1 {
            assert(rest =~= Seq::<UseText>::empty());
            assert(group_imports(prefix, rest) =~= none);
            assert(group_imports(prefix, a) =~= tree_imports(prefix, a[0]));
        }
    }
}

/// A name behind a path is imported under the whole path, its parts with `::` between them; a name
/// that is given another one keeps both; a glob is imported as one.
pub proof fn law_use_tree_leaf(prefix: Seq<char>, ident: Seq<char>, rename: Seq<char>, tree: UseText)
    requires
        prefix.len() > 0,
    ensures
        tree_imports(prefix, UseText::Name(ident)) == seq![
            ImportText {
                full_path: prefix + "::"@ + ident,
                alias: None,
                last_segment: ident,
                is_glob: false,
            },
        ],
        tree_imports(prefix, UseText::Rename { ident, rename }) == seq![
            ImportText {
                full_path: prefix + "::"@ + ident,
                alias: Some(rename),
                last_segment: ident,
                is_glob: false,
            },
        ],
        tree_imports(prefix, UseText::Glob).len() == 1,
        tree_imports(prefix, UseText::Glob)[0].is_glob,
        tree_imports(prefix, UseText::Glob)[0].full_path == prefix + "::*"@,
        tree_imports(prefix, UseText::Path { ident, tree: Box::new(tree) }) == tree_imports(
            prefix + "::"@ + ident,
            tree,
        ),
        tree_imports(Seq::empty(), UseText::Path { ident, tree: Box::new(tree) }) == tree_imports(ident, tree),
{
}

/// Whether an import makes a call known: it may bring it in, and the full name or the call itself
/// is known.
pub open spec fn makes_known(i: ImportText, known: Set<Seq<char>>, call: Seq<char>) -> bool {
    (i.alias == Some(call) || i.last_segment == call || i.is_glob) && (known.contains(call_behind(i, call))
        || known.contains(call))
}

/// A call is resolved by the first import that makes it known, under its full name where that is
/// known, and by none only where no import does.
pub proof fn law_call_is_resolved_by_an_import(
    imports: Seq<ImportText>,
    known: Set<Seq<char>>,
    call: Seq<char>,
    i: int,
)
    requires
        0 <= i,
    ensures
        match imported_call(imports, known, call, i) {
            Some(t) => exists|k: int|
                i <= k < imports.len() && makes_known(#[trigger] imports[k], known, call) && t == (if known.contains(
                    call_behind(imports[k], call),
                ) {
                    call_behind(imports[k], call)
                } else {
                    call
                }) && forall|j: int| i <= j < k ==> !makes_known(#[trigger] imports[j], known, call),
            None => forall|j: int| i <= j < imports.len() ==> !makes_known(#[trigger] imports[j], known, call),
        },
    decreases imports.len() - i,
{
    if i < imports.len() && !makes_known(imports[i], known, call) {
        law_call_is_resolved_by_an_import(imports, known, call, i + 1);
    }
}

proof fn lemma_rfind(s: Seq<char>, p: Seq<char>, i: int)
    ensures
        rfind_from(s, p, i) >= -1,
        rfind_from(s, p, i) <= i || i < 0,
        rfind_from(s, p, i) >= 0 ==> occurs_at(s, p, rfind_from(s, p, i)),
        forall|j: int| rfind_from(s, p, i) < j <= i ==> !#[trigger] occurs_at(s, p, j),
    decreases i + 1,
{
    if i >= 0 && !occurs_at(s, p, i) {
        lemma_rfind(s, p, i - 1);
    }
}

/// The last part of a path is its end, holds no `::`, and stands behind one unless it is the whole
/// path.
pub proof fn law_last_part(s: Seq<char>)
    ensures
        last_part(s).is_suffix_of(s),
        !occurs(last_part(s), "::"@) || s == last_part(s),
        s != last_part(s) ==> ("::"@ + last_part(s)).is_suffix_of(s),
        s == last_part(s) ==> !occurs(s, "::"@),
{
    let sep = "::"@;
    reveal_strlit("::");
    let k = rfind_from(s, sep, s.len() as int);
    lemma_rfind(s, sep, s.len() as int);
    let t = last_part(s);
    if k >= 0 {
        assert(t =~= s.subrange(s.len() - t.len(), s.len() as int));
        assert(sep + t =~= s.subrange(s.len() - (sep + t).len(), s.len() as int)) by {
            assert(s.subrange(k, k + sep.len()) == sep);
        }
        if occurs(t, sep) {
            let i = choose|i: int| occurs_at(t, sep, i);
            let j = k + sep.len() + i;
            assert(s.subrange(j, j + sep.len()) =~= t.subrange(i, i + sep.len()));
            assert(occurs_at(s, sep, j));
        }
        assert(t.len() < s.len());
    } else {
        assert(t =~= s.subrange(0, s.len() as int));
        if occurs(s, sep) {
            let i = choose|i: int| occurs_at(s, sep, i);
            assert(occurs_at(s, sep, i));
        }
    }
}

/// Every attribute but `derive` is noted, in order.
pub proof fn law_attributes_are_noted(v: Seq<AttrText>)
    ensures
        is_sieved(
            v,
            attribute_texts(v),
            |a: AttrText| a.segments != seq!["derive"@],
            |a: AttrText| a.tokens,
        ),
    decreases v.len(),
{
    let keep = |a: AttrText| a.segments != seq!["derive"@];
    let give = |a: AttrText| a.tokens;
    let all = attribute_texts(v);
    if v.len() == 0 {
        lemma_sieve_nothing(v, all, keep, give);
    } else {
        law_attributes_are_noted(v.drop_last());
        lemma_sieve_more(v, attribute_texts(v.drop_last()), all, keep, give);
    }
}

/// Every parameter that is a receiver or has a name is noted, in order.
pub proof fn law_parameters_are_noted(v: Seq<InputText>)
    ensures
        is_sieved(
            v,
            parameters(v),
            |i: InputText|
                match i {
                    InputText::Receiver { reference: _, mutable: _ } => true,
                    InputText::Typed { tokens: _, ident, ty: _ } => ident is Some,
                },
            |i: InputText| parameter(i)->0,
        ),
    decreases v.len(),
{
    let keep = |i: InputText|
        match i {
            InputText::Receiver { reference: _, mutable: _ } => true,
            InputText::Typed { tokens: _, ident, ty: _ } => ident is Some,
        };
    let give = |i: InputText| parameter(i)->0;
    let all = parameters(v);
    if v.len() == 0 {
        lemma_sieve_nothing(v, all, keep, give);
    } else {
        law_parameters_are_noted(v.drop_last());
        lemma_sieve_more(v, parameters(v.drop_last()), all, keep, give);
    }
}

/// Every call that has a name and is not left out is noted, and no other.
pub proof fn law_calls_are_noted(v: Seq<CallText>)
    ensures
        is_sieved(
            v,
            kept_names(v),
            |c: CallText| call_name(c) is Some && !is_left_out(call_name(c)->0),
            |c: CallText| call_name(c)->0,
        ),
    decreases v.len(),
{
    let keep = |c: CallText| call_name(c) is Some && !is_left_out(call_name(c)->0);
    let give = |c: CallText| call_name(c)->0;
    let all = kept_names(v);
    if v.len() == 0 {
        lemma_sieve_nothing(v, all, keep, give);
    } else {
        law_calls_are_noted(v.drop_last());
        lemma_sieve_more(v, kept_names(v.drop_last()), all, keep, give);
    }
}

/// Every method of an implementation is noted, in order, as one of its type and file.
pub proof fn law_methods_are_noted(v: Seq<Option<MethodText>>, target: Seq<char>, path: Seq<char>)
    ensures
        is_sieved(
            v,
            method_texts(v, target, path),
            |m: Option<MethodText>| m is Some,
            |m: Option<MethodText>| function_text(m->0.function, path, Some(target)),
        ),
    decreases v.len(),
{
    let keep = |m: Option<MethodText>| m is Some;
    let give = |m: Option<MethodText>| function_text(m->0.function, path, Some(target));
    let all = method_texts(v, target, path);
    if v.len() == 0 {
        lemma_sieve_nothing(v, all, keep, give);
    } else {
        law_methods_are_noted(v.drop_last(), target, path);
        lemma_sieve_more(v, method_texts(v.drop_last(), target, path), all, keep, give);
    }
}

/// What is noted of a function is what its declaration holds.
pub proof fn law_function_is_noted_as_declared(m: FnText, path: Seq<char>, in_impl: Option<Seq<char>>)
    ensures
        ({
            let f = function_text(m, path, in_impl);
            &&& f.name == m.name
            &&& f.return_type == m.output
            &&& f.generics == m.generics
            &&& f.where_clause == m.where_clause
            &&& f.asyncness == m.asyncness
            &&& f.unsafeness == m.unsafeness
            &&& f.constness == m.constness
            &&& f.path == path
            &&& f.in_impl == in_impl
            &&& forall|k: Seq<char>| #[trigger] f.calls.contains(k) <==> kept_names(m.calls).contains(k)
        }),
{
    crate::ordered_laws::law_sorted(kept_names(m.calls));
}

proof fn lemma_with_methods(functions: Map<Seq<char>, FunctionText>, ms: Seq<FunctionText>, n: Seq<char>)
    ensures
        with_methods(functions, ms).dom().contains(n) <==> functions.dom().contains(n) || names_one(ms, n),
        !names_one(ms, n) && functions.dom().contains(n) ==> with_methods(functions, ms)[n] == functions[n],
        names_one(ms, n) ==> ms.contains(with_methods(functions, ms)[n]) && with_methods(functions, ms)[n].name
            == n,
    decreases ms.len(),
{
    if ms.len() > 0 {
        let d = ms.drop_last();
        lemma_with_methods(functions, d, n);
        let all = with_methods(functions, ms);
        let earlier = with_methods(functions, d);
        if names_one(d, n) {
            let k = choose|k: int| 0 <= k < d.len() && (#[trigger] d[k]).name == n;
            assert(ms[k].name == n);
        }
        if ms.last().name == n {
            assert(ms[ms.len() - 1].name == n);
            assert(ms.contains(ms[ms.len() - 1]));
        } else {
            if names_one(ms, n) {
                let k = choose|k: int| 0 <= k < ms.len() && (#[trigger] ms[k]).name == n;
                assert(d[k].name == n);
                let f = earlier[n];
                let j = choose|j: int| 0 <= j < d.len() && d[j] == f;
                assert(ms[j] == f);
            }
        }
    }
}

/// Whether one of the functions is called `n`.
pub open spec fn names_one(ms: Seq<FunctionText>, n: Seq<char>) -> bool {
    exists|k: int| 0 <= k < ms.len() && (#[trigger] ms[k]).name == n
}

/// Every method is taken up under its name, and nothing else changes.
pub proof fn law_methods_are_functions(functions: Map<Seq<char>, FunctionText>, ms: Seq<FunctionText>, n: Seq<char>)
    ensures
        with_methods(functions, ms).dom().contains(n) <==> functions.dom().contains(n) || names_one(ms, n),
        !names_one(ms, n) && functions.dom().contains(n) ==> with_methods(functions, ms)[n] == functions[n],
        names_one(ms, n) ==> ms.contains(with_methods(functions, ms)[n]) && with_methods(functions, ms)[n].name
            == n,
{
    lemma_with_methods(functions, ms, n);
}

/// Whether an item declares the function `n`, itself or as one of its methods.
pub open spec fn declares_function(m: ModelText, n: Seq<char>) -> bool {
    match m {
        ModelText::Function(f) => f.function.name == n,
        ModelText::Impl(i) => exists|k: int|
            0 <= k < i.members.len() && (#[trigger] i.members[k] matches Some(x) && x.function.name == n),
        _ => false,
    }
}

/// Whether an item implements something for the type `t`.
pub open spec fn declares_impl(m: ModelText, t: Seq<char>) -> bool {
    m matches ModelText::Impl(i) && i.target_type == t
}

proof fn lemma_method_names(v: Seq<Option<MethodText>>, target: Seq<char>, path: Seq<char>, n: Seq<char>)
    ensures
        names_one(method_texts(v, target, path), n) <==> exists|k: int|
            0 <= k < v.len() && (#[trigger] v[k] matches Some(x) && x.function.name == n),
    decreases v.len(),
{
    if v.len() > 0 {
        let d = v.drop_last();
        lemma_method_names(d, target, path, n);
        let all = method_texts(v, target, path);
        let earlier = method_texts(d, target, path);
        if names_one(earlier, n) {
            let k = choose|k: int| 0 <= k < earlier.len() && (#[trigger] earlier[k]).name == n;
            assert(all[k].name == n);
        }
        if names_one(all, n) {
            let k = choose|k: int| 0 <= k < all.len() && (#[trigger] all[k]).name == n;
            if k < earlier.len() {
                assert(earlier[k].name == n);
                let j = choose|j: int| 0 <= j < d.len() && (#[trigger] d[j] matches Some(x) && x.function.name == n);
                assert(v[j] == d[j]);
            } else {
                assert(v[v.len() - 1] is Some);
            }
        }
        if exists|k: int| 0 <= k < v.len() && (#[trigger] v[k] matches Some(x) && x.function.name == n) {
            let k = choose|k: int| 0 <= k < v.len() && (#[trigger] v[k] matches Some(x) && x.function.name == n);
            if k < d.len() {
                assert(d[k] == v[k]);
            } else {
                assert(all[earlier.len() as int].name == n);
            }
        }
    }
}

/// The graph of a file holds a function for each name that one of its items declares, and an
/// implementation for each type that one of them implements something for, besides what the graph
/// held before; and no other.
pub proof fn law_every_item_is_noted(
    g: GraphText,
    models: Seq<ModelText>,
    path: Seq<char>,
    n: Seq<char>,
)
    ensures
        with_models(g, models, path).functions.dom().contains(n) <==> g.functions.dom().contains(n) || exists|
            i: int,
        | 0 <= i < models.len() && declares_function(#[trigger] models[i], n),
        with_models(g, models, path).impls.dom().contains(n) <==> g.impls.dom().contains(n) || exists|i: int|
            0 <= i < models.len() && declares_impl(#[trigger] models[i], n),
    decreases models.len(),
{
    if models.len() > 0 {
        let d = models.drop_last();
        law_every_item_is_noted(g, d, path, n);
        let earlier = with_models(g, d, path);
        let last = models.last();
        let all = with_model(earlier, last, path);
        match last {
            ModelText::Impl(i) => {
                lemma_method_names(i.members, i.target_type, path, n);
                lemma_with_methods(earlier.functions, method_texts(i.members, i.target_type, path), n);
            },
            _ => {},
        }
        assert(all.functions.dom().contains(n) <==> earlier.functions.dom().contains(n) || declares_function(
            last,
            n,
        ));
        assert(all.impls.dom().contains(n) <==> earlier.impls.dom().contains(n) || declares_impl(last, n));
        assert(models[models.len() - 1] == last);
        if exists|i: int| 0 <= i < d.len() && declares_function(#[trigger] d[i], n) {
            let i = choose|i: int| 0 <= i < d.len() && declares_function(#[trigger] d[i], n);
            assert(models[i] == d[i]);
        }
        if exists|i: int| 0 <= i < d.len() && declares_impl(#[trigger] d[i], n) {
            let i = choose|i: int| 0 <= i < d.len() && declares_impl(#[trigger] d[i], n);
            assert(models[i] == d[i]);
        }
        if exists|i: int| 0 <= i < models.len() && declares_function(#[trigger] models[i], n) {
            let i = choose|i: int| 0 <= i < models.len() && declares_function(#[trigger] models[i], n);
            if i < d.len() {
                assert(d[i] == models[i]);
            }
        }
        if exists|i: int| 0 <= i < models.len() && declares_impl(#[trigger] models[i], n) {
            let i = choose|i: int| 0 <= i < models.len() && declares_impl(#[trigger] models[i], n);
            if i < d.len() {
                assert(d[i] == models[i]);
            }
        }
    }
}

/// Imports of a file are noted behind those that it has; those of other files stay.
pub proof fn law_imports_are_noted(
    imports: Map<Seq<char>, Seq<ImportText>>,
    path: Seq<char>,
    more: Seq<ImportText>,
    other: Seq<char>,
)
    requires
        more.len() > 0,
        other != path,
    ensures
        ({
            let all = with_imports(imports, path, more);
            &&& all.dom().contains(path)
            &&& more.is_suffix_of(all[path])
            &&& imports.dom().contains(path) ==> imports[path].is_prefix_of(all[path]) && all[path].len()
                == imports[path].len() + more.len()
            &&& !imports.dom().contains(path) ==> all[path] == more
            &&& all.dom().contains(other) <==> imports.dom().contains(other)
            &&& imports.dom().contains(other) ==> all[other] == imports[other]
        }),
{
    let all = with_imports(imports, path, more);
    let t = all[path];
    assert(more =~= t.subrange(t.len() - more.len(), t.len() as int));
    if imports.dom().contains(path) {
        assert(imports[path] =~= t.subrange(0, imports[path].len() as int));
    }
}

/// The structs of a report are told one after the other, each by its entry.
pub proof fn law_structs_are_told(a: Seq<StructInfo>, b: Seq<StructInfo>, root: Seq<char>, fields: bool)
    ensures
        struct_entries(a + b, root, fields) == struct_entries(a, root, fields) + struct_entries(b, root, fields),
        b.len() == 1 ==> struct_entries(b, root, fields) == struct_entry(b[0], root, fields),
    decreases b.len(),
{
    if b.len() == 0 {
        assert(a + b =~= a);
        assert(struct_entries(a, root, fields) + struct_entries(b, root, fields) =~= struct_entries(
            a,
            root,
            fields,
        ));
    } else {
        let d = b.drop_last();
        law_structs_are_told(a, d, root, fields);
        assert((a + b).drop_last() =~= a + d);
        assert((a + b).last() == b.last());
        assert(struct_entries(a + b, root, fields) =~= struct_entries(a, root, fields) + struct_entries(
            b,
            root,
            fields,
        ));
        if b.len() == 1 {
            assert(struct_entries(d, root, fields) =~= Seq::<char>::empty());
            assert(struct_entries(b, root, fields) =~= struct_entry(b[0], root, fields));
        }
    }
}

/// The traits of a report are told one after the other, each by its entry.
pub proof fn law_traits_are_told(a: Seq<TraitInfo>, b: Seq<TraitInfo>, root: Seq<char>)
    ensures
        trait_entries(a + b, root) == trait_entries(a, root) + trait_entries(b, root),
        b.len() == 1 ==> trait_entries(b, root) == trait_entry(b[0], root),
    decreases b.len(),
{
    if b.len() == 0 {
        assert(a + b =~= a);
        assert(trait_entries(a, root) + trait_entries(b, root) =~= trait_entries(a, root));
    } else {
        let d = b.drop_last();
        law_traits_are_told(a, d, root);
        assert((a + b).drop_last() =~= a + d);
        assert((a + b).last() == b.last());
        assert(trait_entries(a + b, root) =~= trait_entries(a, root) + trait_entries(b, root));
        if b.len() == 1 {
            assert(trait_entries(d, root) =~= Seq::<char>::empty());
            assert(trait_entries(b, root) =~= trait_entry(b[0], root));
        }
    }
}

/// The functions of a report are told one after the other, each by its entry; those that belong to
/// an implementation have none here.
pub proof fn law_functions_are_told(a: Seq<FunctionInfo>, b: Seq<FunctionInfo>, root: Seq<char>, calls: bool)
    ensures
        function_entries(a + b, root, calls) == function_entries(a, root, calls) + function_entries(
            b,
            root,
            calls,
        ),
        b.len() == 1 ==> function_entries(b, root, calls) == function_entry(b[0], root, calls),
        b.len() == 1 && b[0].in_impl is None ==> function_entries(b, root, calls).len() > 0 && occurs(
            function_entries(b, root, calls),
            b[0].signature@,
        ),
        b.len() == 1 && b[0].in_impl is Some ==> function_entries(b, root, calls).len() == 0,
    decreases b.len(),
{
    if b.len() == 0 {
        assert(a + b =~= a);
        assert(function_entries(a, root, calls) + function_entries(b, root, calls) =~= function_entries(
            a,
            root,
            calls,
        ));
    } else {
        let d = b.drop_last();
        law_functions_are_told(a, d, root, calls);
        assert((a + b).drop_last() =~= a + d);
        assert((a + b).last() == b.last());
        assert(function_entries(a + b, root, calls) =~= function_entries(a, root, calls) + function_entries(
            b,
            root,
            calls,
        ));
        if b.len() == 1 {
            assert(function_entries(d, root, calls) =~= Seq::<char>::empty());
            assert(function_entries(b, root, calls) =~= function_entry(b[0], root, calls));
            lemma_entry_tells(b[0], root, calls);
        }
    }
}

proof fn lemma_entry_tells(x: FunctionInfo, root: Seq<char>, calls: bool)
    ensures
        x.in_impl is None ==> function_entry(x, root, calls).len() > 0 && occurs(
            function_entry(x, root, calls),
            x.signature@,
        ),
        x.in_impl is Some ==> function_entry(x, root, calls).len() == 0,
{
    if x.in_impl is None {
        let e = function_entry(x, root, calls);
        reveal_strlit("\n  \x1b[32m");
        let h = "\n  \x1b[32m"@ + crate::wcg_report::pub_word(x.visibility@);
        assert(h.is_prefix_of(e) && e.len() >= h.len() + x.signature@.len() && e.subrange(
            h.len() as int,
            (h.len() + x.signature@.len()) as int,
        ) =~= x.signature@);
        assert(occurs_at(e, x.signature@, h.len() as int));
    }
}

/// The implementations of a report are told one after the other, each by its entry.
pub proof fn law_impls_are_told(a: Seq<ImplInfo>, b: Seq<ImplInfo>, root: Seq<char>, calls: bool)
    ensures
        impl_entries(a + b, root, calls) == impl_entries(a, root, calls) + impl_entries(b, root, calls),
        b.len() == 1 ==> impl_entries(b, root, calls) == impl_entry(b[0], root, calls),
    decreases b.len(),
{
    if b.len() == 0 {
        assert(a + b =~= a);
        assert(impl_entries(a, root, calls) + impl_entries(b, root, calls) =~= impl_entries(a, root, calls));
    } else {
        let d = b.drop_last();
        law_impls_are_told(a, d, root, calls);
        assert((a + b).drop_last() =~= a + d);
        assert((a + b).last() == b.last());
        assert(impl_entries(a + b, root, calls) =~= impl_entries(a, root, calls) + impl_entries(b, root, calls));
        if b.len() == 1 {
            assert(impl_entries(d, root, calls) =~= Seq::<char>::empty());
            assert(impl_entries(b, root, calls) =~= impl_entry(b[0], root, calls));
        }
    }
}

/// The last argument that speaks of calls decides whether they are shown, and so with fields; an
/// argument that speaks of neither changes nothing.
pub proof fn law_last_switch_decides(c: Switches, args: Seq<Seq<char>>, arg: Seq<char>)
    ensures
        switches(c, args.push("--show-calls"@)).calls,
        !switches(c, args.push("--hide-calls"@)).calls,
        switches(c, args.push("--show-fields"@)).fields,
        !switches(c, args.push("--hide-fields"@)).fields,
        switches(c, args.push("-c"@)).calls == !c.calls,
        switches(c, args.push("-f"@)).fields == !c.fields,
        switches(c, args.push("-n"@)).line_numbers == !c.line_numbers,
        arg.len() == 0 || arg[0] != '-' ==> switches(c, args.push(arg)) == switches(c, args),
        switches(c, Seq::empty()) == c,
{
    reveal_strlit("--show-calls");
    reveal_strlit("--hide-calls");
    reveal_strlit("--show-fields");
    reveal_strlit("--hide-fields");
    reveal_strlit("-c");
    reveal_strlit("-f");
    reveal_strlit("-n");
    assert(args.push("--show-calls"@).drop_last() =~= args);
    assert(args.push("--hide-calls"@).drop_last() =~= args);
    assert(args.push("--show-fields"@).drop_last() =~= args);
    assert(args.push("--hide-fields"@).drop_last() =~= args);
    assert(args.push("-c"@).drop_last() =~= args);
    assert(args.push("-f"@).drop_last() =~= args);
    assert(args.push("-n"@).drop_last() =~= args);
    assert(args.push(arg).drop_last() =~= args);
    assert("--show-calls"@[2] == 's' && "--hide-calls"@[2] == 'h');
    assert("--show-fields"@[7] == 'f' && "--show-calls"@[7] == 'c');
    assert("--hide-fields"@[7] == 'f' && "--hide-calls"@[7] == 'c');
    assert("-c"@[1] == 'c' && "-f"@[1] == 'f' && "-n"@[1] == 'n');
    assert("--show-fields"@[2] == 's' && "--hide-fields"@[2] == 'h');
    assert("-c"@.len() == 2 && "-f"@.len() == 2 && "-n"@.len() == 2);
}

} // verus!
