//! Code graphs read from syntax, for a graph viewer.

use vstd::prelude::*;
use crate::edges::{
    append_edges, edge, edge_texts, edges_json, push_edge, show_edges, EdgeText, GraphEdge,
};
use crate::json::{
    items, json_texts, list, optional_text, put_item, text, text_list, texts_list, Json, JsonText,
};
use crate::models::{
    call_views, method_views, model_texts, parse_models, source_models, CallModel, CallText, FnModel,
    FnText, ImplModel, ImplText, ItemModel, MethodText, ModelText, VisModel, VisText,
};
use crate::ordered::{in_order, sort_distinct, TextMap};
use crate::path::{relative, relative_to};
use crate::ranges::{
    range_from_span, snippet_from_range, snippet_text, span_range, Position, SourceRange, Span,
};
use crate::text::{clone_texts, joined, opt_text, same, texts};
use crate::wcg_calls::{last_part, simple_name};
use crate::wcg_scan::{call_name, name_call, signature_parts, write_signature};

verus! {

/// A function or a method, with its calls in order.
#[derive(Debug, PartialEq, Eq)]
pub struct FunctionInfo {
    pub name: String,
    pub signature: String,
    pub calls: Vec<String>,
    pub generics: Vec<String>,
    pub visibility: String,
    pub path: String,
    pub in_impl: Option<String>,
    pub range: SourceRange,
    pub source_snippet: String,
}

/// A struct.
#[derive(Debug, PartialEq, Eq)]
pub struct StructInfo {
    pub name: String,
    pub visibility: String,
    pub path: String,
    pub range: SourceRange,
    pub source_snippet: String,
}

/// A trait.
#[derive(Debug, PartialEq, Eq)]
pub struct TraitInfo {
    pub name: String,
    pub visibility: String,
    pub path: String,
    pub range: SourceRange,
    pub source_snippet: String,
}

/// An implementation.
#[derive(Debug, PartialEq, Eq)]
pub struct ImplInfo {
    pub target_type: String,
    pub methods: Vec<FunctionInfo>,
    pub path: String,
}

/// What a `FunctionInfo` holds.
pub struct FunctionText {
    pub name: Seq<char>,
    pub signature: Seq<char>,
    pub calls: Seq<Seq<char>>,
    pub generics: Seq<Seq<char>>,
    pub visibility: Seq<char>,
    pub path: Seq<char>,
    pub in_impl: Option<Seq<char>>,
    pub range: SourceRange,
    pub source_snippet: Seq<char>,
}

impl View for FunctionInfo {
    type V = FunctionText;

    open spec fn view(&self) -> FunctionText {
        FunctionText {
            name: self.name@,
            signature: self.signature@,
            calls: texts(self.calls@),
            generics: texts(self.generics@),
            visibility: self.visibility@,
            path: self.path@,
            in_impl: opt_text(self.in_impl),
            range: self.range,
            source_snippet: self.source_snippet@,
        }
    }
}

pub open spec fn function_texts(v: Seq<FunctionInfo>) -> Seq<FunctionText> {
    v.map_values(|f: FunctionInfo| f@)
}

/// What a `StructInfo` or a `TraitInfo` holds.
pub struct TypeText {
    pub name: Seq<char>,
    pub visibility: Seq<char>,
    pub path: Seq<char>,
    pub range: SourceRange,
    pub source_snippet: Seq<char>,
}

impl View for StructInfo {
    type V = TypeText;

    open spec fn view(&self) -> TypeText {
        TypeText {
            name: self.name@,
            visibility: self.visibility@,
            path: self.path@,
            range: self.range,
            source_snippet: self.source_snippet@,
        }
    }
}

impl View for TraitInfo {
    type V = TypeText;

    open spec fn view(&self) -> TypeText {
        TypeText {
            name: self.name@,
            visibility: self.visibility@,
            path: self.path@,
            range: self.range,
            source_snippet: self.source_snippet@,
        }
    }
}

/// A graph.
#[derive(Debug, PartialEq, Eq)]
pub struct CodeGraph {
    pub structs: TextMap<StructInfo>,
    pub functions: TextMap<FunctionInfo>,
    pub impls: TextMap<ImplInfo>,
    pub traits: TextMap<TraitInfo>,
}

impl CodeGraph {
    pub open spec fn wf(&self) -> bool {
        &&& self.structs.wf()
        &&& self.functions.wf()
        &&& self.impls.wf()
        &&& self.traits.wf()
    }

    pub fn new() -> (r: CodeGraph)
        ensures
            r.wf(),
            r.structs@ == Map::<Seq<char>, StructInfo>::empty(),
            r.functions@ == Map::<Seq<char>, FunctionInfo>::empty(),
            r.impls@ == Map::<Seq<char>, ImplInfo>::empty(),
            r.traits@ == Map::<Seq<char>, TraitInfo>::empty(),
    {
        CodeGraph {
            structs: TextMap::new(),
            functions: TextMap::new(),
            impls: TextMap::new(),
            traits: TextMap::new(),
        }
    }
}

/// Takes up in `target` what `source` holds; where both have a name, as `source` has it.
pub fn merge_graphs(target: &mut CodeGraph, source: CodeGraph)
    requires
        old(target).wf(),
        source.wf(),
    ensures
        final(target).wf(),
        final(target).structs@ == old(target).structs@.union_prefer_right(source.structs@),
        final(target).functions@ == old(target).functions@.union_prefer_right(source.functions@),
        final(target).impls@ == old(target).impls@.union_prefer_right(source.impls@),
        final(target).traits@ == old(target).traits@.union_prefer_right(source.traits@),
{
    target.structs.absorb(source.structs);
    target.functions.absorb(source.functions);
    target.impls.absorb(source.impls);
    target.traits.absorb(source.traits);
}

/// `pub` or `private`.
pub open spec fn visibility_word(v: VisText) -> Seq<char> {
    match v {
        VisText::Public => "pub"@,
        _ => "private"@,
    }
}

/// `pub` or `private`.
pub fn get_visibility(v: &VisModel) -> (r: String)
    ensures
        r@ == visibility_word(v@),
{
    match v {
        VisModel::Public => "pub".to_owned(),
        _ => "private".to_owned(),
    }
}

/// Whether a call is left out, by the last part of its name.
pub open spec fn is_plain(name: Seq<char>) -> bool {
    let s = last_part(name);
    ||| s == "Ok"@
    ||| s == "Err"@
    ||| s == "Some"@
    ||| s == "None"@
    ||| s == "Self"@
    ||| s == "default"@
    ||| s == "new"@
    ||| s == "into"@
    ||| s == "from"@
    ||| s == "clone"@
    ||| s == "iter"@
    ||| s == "collect"@
    ||| s == "len"@
    ||| s == "is_empty"@
    ||| s == "unwrap"@
    ||| s == "expect"@
    ||| s == "map"@
    ||| s == "and_then"@
}

/// Whether a call is left out, by the last part of its name.
pub fn is_ignored_call(name: &str) -> (r: bool)
    ensures
        r == is_plain(name@),
{
    let simple: String = simple_name(name);
    let s: &str = simple.as_str();
    same(s, "Ok") || same(s, "Err") || same(s, "Some") || same(s, "None") || same(s, "Self") || same(
        s,
        "default",
    ) || same(s, "new") || same(s, "into") || same(s, "from") || same(s, "clone") || same(s, "iter")
        || same(s, "collect") || same(s, "len") || same(s, "is_empty") || same(s, "unwrap") || same(
        s,
        "expect",
    ) || same(s, "map") || same(s, "and_then")
}

/// The names of the calls, those left out aside.
pub open spec fn kept_names(calls: Seq<CallText>) -> Seq<Seq<char>>
    decreases calls.len(),
{
    if calls.len() == 0 {
        Seq::empty()
    } else {
        match call_name(calls.last()) {
            Some(name) if !is_plain(name) => kept_names(calls.drop_last()).push(name),
            _ => kept_names(calls.drop_last()),
        }
    }
}

/// The names of the calls, those left out aside, each once and in order.
pub fn extract_function_calls(calls: &[CallModel]) -> (r: Vec<String>)
    ensures
        texts(r@) == in_order(kept_names(call_views(calls@))),
{
    let ghost all = call_views(calls@);
    let mut out: Vec<String> = Vec::new();
    let mut i: usize = 0;
    while i < calls.len()
        invariant
            i <= calls@.len(),
            texts(out@) == kept_names(all.take(i as int)),
        decreases calls@.len() - i,
    {
        let ghost now = texts(out@);
        assert(all.take(i + 1).drop_last() =~= all.take(i as int));
        assert(all.take(i + 1).last() == calls@[i as int]@);
        match name_call(&calls[i]) {
            Some(name) => {
                if !is_ignored_call(name.as_str()) {
                    let ghost held = name@;
                    out.push(name);
                    assert(texts(out@) =~= now.push(held));
                }
            },
            None => {},
        }
        i += 1;
    }
    assert(all.take(i as int) =~= all);
    sort_distinct(&out)
}

/// A signature: the qualifiers, the name, the generics, the parameters and what is returned, with
/// blanks between them.
pub open spec fn signature_text(m: FnText) -> Seq<char> {
    joined(signature_parts(m, m.generics_tokens), " "@)
}

/// A signature in one line.
pub fn format_signature(m: &FnModel) -> (r: String)
    ensures
        r@ == signature_text(m@),
{
    write_signature(m, m.generics_tokens.as_str())
}

/// What is noted of a function.
pub open spec fn function_text(
    m: FnText,
    path: Seq<char>,
    in_impl: Option<Seq<char>>,
    content: Seq<char>,
    span: Span,
) -> FunctionText {
    FunctionText {
        name: m.name,
        signature: signature_text(m),
        calls: in_order(kept_names(m.calls)),
        generics: m.generics,
        visibility: visibility_word(m.visibility),
        path,
        in_impl,
        range: span_range(content, span),
        source_snippet: snippet_text(content, span_range(content, span)),
    }
}

/// What is noted of a function at `span` of a file.
pub fn function_info(
    m: &FnModel,
    path: &str,
    in_impl: &Option<String>,
    content: &str,
    span: Span,
) -> (r: FunctionInfo)
    ensures
        r@ == function_text(m@, path@, opt_text(*in_impl), content@, span),
{
    let range: SourceRange = range_from_span(content, span);
    FunctionInfo {
        name: m.name.clone(),
        signature: format_signature(m),
        calls: extract_function_calls(&m.calls),
        generics: clone_texts(&m.generics),
        visibility: get_visibility(&m.visibility),
        path: path.to_owned(),
        in_impl: match in_impl {
            Some(t) => Some(t.clone()),
            None => None,
        },
        range,
        source_snippet: snippet_from_range(content, &range),
    }
}

/// The functions of a graph by what they hold.
pub open spec fn functions_of(g: CodeGraph) -> Map<Seq<char>, FunctionText> {
    g.functions@.map_values(|f: FunctionInfo| f@)
}

/// The structs of a graph by what they hold.
pub open spec fn structs_of(g: CodeGraph) -> Map<Seq<char>, TypeText> {
    g.structs@.map_values(|s: StructInfo| s@)
}

/// The traits of a graph by what they hold.
pub open spec fn traits_of(g: CodeGraph) -> Map<Seq<char>, TypeText> {
    g.traits@.map_values(|t: TraitInfo| t@)
}

/// Notes a function at `span` of a file under its name.
pub fn record_function(graph: &mut CodeGraph, m: &FnModel, path: &str, content: &str, span: Span)
    requires
        old(graph).wf(),
    ensures
        final(graph).wf(),
        functions_of(*final(graph)) == functions_of(*old(graph)).insert(
            m.name@,
            function_text(m@, path@, None, content@, span),
        ),
        final(graph).structs == old(graph).structs,
        final(graph).impls == old(graph).impls,
        final(graph).traits == old(graph).traits,
{
    let f: FunctionInfo = function_info(m, path, &None, content, span);
    graph.functions.insert(m.name.as_str(), f);
    assert(functions_of(*graph) =~= functions_of(*old(graph)).insert(
        m.name@,
        function_text(m@, path@, None, content@, span),
    ));
}

/// What is noted of a struct or a trait.
pub open spec fn type_text(
    name: Seq<char>,
    visibility: Seq<char>,
    path: Seq<char>,
    content: Seq<char>,
    span: Span,
) -> TypeText {
    TypeText {
        name,
        visibility,
        path,
        range: span_range(content, span),
        source_snippet: snippet_text(content, span_range(content, span)),
    }
}

/// Notes a struct at `span` of a file under its name.
pub fn record_struct(
    graph: &mut CodeGraph,
    name: &str,
    vis: &VisModel,
    path: &str,
    content: &str,
    span: Span,
)
    requires
        old(graph).wf(),
    ensures
        final(graph).wf(),
        structs_of(*final(graph)) == structs_of(*old(graph)).insert(
            name@,
            type_text(name@, visibility_word(vis@), path@, content@, span),
        ),
        final(graph).functions == old(graph).functions,
        final(graph).impls == old(graph).impls,
        final(graph).traits == old(graph).traits,
{
    let range: SourceRange = range_from_span(content, span);
    let info: StructInfo = StructInfo {
        name: name.to_owned(),
        visibility: get_visibility(vis),
        path: path.to_owned(),
        range,
        source_snippet: snippet_from_range(content, &range),
    };
    graph.structs.insert(name, info);
    assert(structs_of(*graph) =~= structs_of(*old(graph)).insert(
        name@,
        type_text(name@, visibility_word(vis@), path@, content@, span),
    ));
}

/// Notes a trait at `span` of a file under its name; every trait counts as public.
pub fn record_trait(graph: &mut CodeGraph, name: &str, path: &str, content: &str, span: Span)
    requires
        old(graph).wf(),
    ensures
        final(graph).wf(),
        traits_of(*final(graph)) == traits_of(*old(graph)).insert(
            name@,
            type_text(name@, "pub"@, path@, content@, span),
        ),
        final(graph).functions == old(graph).functions,
        final(graph).impls == old(graph).impls,
        final(graph).structs == old(graph).structs,
{
    let range: SourceRange = range_from_span(content, span);
    let info: TraitInfo = TraitInfo {
        name: name.to_owned(),
        visibility: "pub".to_owned(),
        path: path.to_owned(),
        range,
        source_snippet: snippet_from_range(content, &range),
    };
    graph.traits.insert(name, info);
    assert(traits_of(*graph) =~= traits_of(*old(graph)).insert(
        name@,
        type_text(name@, "pub"@, path@, content@, span),
    ));
}

/// What an `ImplInfo` holds.
pub struct ImplInfoText {
    pub target_type: Seq<char>,
    pub methods: Seq<FunctionText>,
    pub path: Seq<char>,
}

impl View for ImplInfo {
    type V = ImplInfoText;

    open spec fn view(&self) -> ImplInfoText {
        ImplInfoText {
            target_type: self.target_type@,
            methods: function_texts(self.methods@),
            path: self.path@,
        }
    }
}

/// The implementations of a graph by what they hold.
pub open spec fn impls_of(g: CodeGraph) -> Map<Seq<char>, ImplInfoText> {
    g.impls@.map_values(|i: ImplInfo| i@)
}

/// What is noted of the methods of an implementation for `target`, given its members.
pub open spec fn method_texts(
    members: Seq<Option<MethodText>>,
    target: Seq<char>,
    path: Seq<char>,
    content: Seq<char>,
) -> Seq<FunctionText>
    decreases members.len(),
{
    if members.len() == 0 {
        Seq::empty()
    } else {
        let earlier = method_texts(members.drop_last(), target, path, content);
        match members.last() {
            Some(m) => earlier.push(
                function_text(m.function, path, Some(target), content, m.span),
            ),
            None => earlier,
        }
    }
}

/// Functions with these methods of a type taken up in turn, under the type's name and theirs.
pub open spec fn with_methods(
    functions: Map<Seq<char>, FunctionText>,
    target: Seq<char>,
    methods: Seq<FunctionText>,
) -> Map<Seq<char>, FunctionText>
    decreases methods.len(),
{
    if methods.len() == 0 {
        functions
    } else {
        with_methods(functions, target, methods.drop_last()).insert(
            target + "::"@ + methods.last().name,
            methods.last(),
        )
    }
}

/// What is noted of an implementation.
pub open spec fn impl_text(m: ImplText, path: Seq<char>, content: Seq<char>) -> ImplInfoText {
    ImplInfoText {
        target_type: m.target_type,
        methods: method_texts(m.members, m.target_type, path, content),
        path,
    }
}

/// Notes an implementation of a file, and each of its methods as a function.
pub fn record_impl(graph: &mut CodeGraph, m: &ImplModel, path: &str, content: &str)
    requires
        old(graph).wf(),
    ensures
        final(graph).wf(),
        functions_of(*final(graph)) == with_methods(
            functions_of(*old(graph)),
            m.target_type@,
            method_texts(m@.members, m.target_type@, path@, content@),
        ),
        impls_of(*final(graph)) == impls_of(*old(graph)).insert(
            m.target_type@,
            impl_text(m@, path@, content@),
        ),
        final(graph).structs == old(graph).structs,
        final(graph).traits == old(graph).traits,
{
    let in_impl: Option<String> = Some(m.target_type.clone());
    let ghost target = m.target_type@;
    let ghost all = method_views(m.members@);
    let ghost start = functions_of(*graph);
    let ghost had_impls = impls_of(*graph);
    let mut out: Vec<FunctionInfo> = Vec::new();
    let mut i: usize = 0;
    while i < m.members.len()
        invariant
            i <= m.members@.len(),
            graph.wf(),
            function_texts(out@) == method_texts(all.take(i as int), target, path@, content@),
            functions_of(*graph) == with_methods(start, target, function_texts(out@)),
            graph.structs == old(graph).structs,
            graph.impls == old(graph).impls,
            graph.traits == old(graph).traits,
        decreases m.members@.len() - i,
    {
        let ghost now = function_texts(out@);
        let ghost had = functions_of(*graph);
        assert(all.take(i + 1).drop_last() =~= all.take(i as int));
        assert(all.take(i + 1).last() == all[i as int]);
        match &m.members[i] {
            Some(method) => {
                let f: FunctionInfo = function_info(
                    &method.function,
                    path,
                    &in_impl,
                    content,
                    method.span,
                );
                let g: FunctionInfo = function_info(
                    &method.function,
                    path,
                    &in_impl,
                    content,
                    method.span,
                );
                let ghost held = f@;
                assert(all[i as int] == Some(method@));
                out.push(f);
                assert(function_texts(out@) =~= now.push(held));
                assert(now.push(held).drop_last() =~= now);
                let mut key: String = m.target_type.clone();
                key.append("::");
                key.append(method.function.name.as_str());
                graph.functions.insert(key.as_str(), g);
                assert(functions_of(*graph) =~= had.insert(key@, held));
            },
            None => {
                assert(all[i as int] is None);
            },
        }
        i += 1;
    }
    assert(all.take(i as int) =~= all);
    let info: ImplInfo = ImplInfo {
        target_type: m.target_type.clone(),
        methods: out,
        path: path.to_owned(),
    };
    assert(info@ == impl_text(m@, path@, content@));
    graph.impls.insert(m.target_type.as_str(), info);
    assert(impls_of(*graph) =~= had_impls.insert(target, impl_text(m@, path@, content@)));
}

/// What a graph holds.
pub struct GraphText {
    pub structs: Map<Seq<char>, TypeText>,
    pub functions: Map<Seq<char>, FunctionText>,
    pub impls: Map<Seq<char>, ImplInfoText>,
    pub traits: Map<Seq<char>, TypeText>,
}

/// What a graph holds.
pub open spec fn graph_text(g: CodeGraph) -> GraphText {
    GraphText {
        structs: structs_of(g),
        functions: functions_of(g),
        impls: impls_of(g),
        traits: traits_of(g),
    }
}

/// A graph that holds nothing.
pub open spec fn no_graph() -> GraphText {
    GraphText {
        structs: Map::empty(),
        functions: Map::empty(),
        impls: Map::empty(),
        traits: Map::empty(),
    }
}

/// A graph with an item of the file `content` noted.
pub open spec fn with_model(
    g: GraphText,
    m: ModelText,
    path: Seq<char>,
    content: Seq<char>,
) -> GraphText {
    match m {
        ModelText::Function(f) => GraphText {
            functions: g.functions.insert(
                f.function.name,
                function_text(f.function, path, None, content, f.span),
            ),
            ..g
        },
        ModelText::Impl(i) => GraphText {
            functions: with_methods(
                g.functions,
                i.target_type,
                method_texts(i.members, i.target_type, path, content),
            ),
            impls: g.impls.insert(i.target_type, impl_text(i, path, content)),
            ..g
        },
        ModelText::Use(_) => g,
        ModelText::Struct { name, visibility, span } => GraphText {
            structs: g.structs.insert(
                name,
                type_text(name, visibility_word(visibility), path, content, span),
            ),
            ..g
        },
        ModelText::Trait { name, span } => GraphText {
            traits: g.traits.insert(name, type_text(name, "pub"@, path, content, span)),
            ..g
        },
    }
}

/// A graph with the items of the file `content` noted in turn.
pub open spec fn with_models(
    g: GraphText,
    models: Seq<ModelText>,
    path: Seq<char>,
    content: Seq<char>,
) -> GraphText
    decreases models.len(),
{
    if models.len() == 0 {
        g
    } else {
        with_model(
            with_models(g, models.drop_last(), path, content),
            models.last(),
            path,
            content,
        )
    }
}

/// Notes the items of the file `content` in turn.
pub fn record_models(graph: &mut CodeGraph, models: &[ItemModel], path: &str, content: &str)
    requires
        old(graph).wf(),
    ensures
        final(graph).wf(),
        graph_text(*final(graph)) == with_models(
            graph_text(*old(graph)),
            model_texts(models@),
            path@,
            content@,
        ),
{
    let ghost all = model_texts(models@);
    let ghost start = graph_text(*graph);
    let mut i: usize = 0;
    while i < models.len()
        invariant
            i <= models@.len(),
            graph.wf(),
            graph_text(*graph) == with_models(start, all.take(i as int), path@, content@),
        decreases models@.len() - i,
    {
        assert(all.take(i + 1).drop_last() =~= all.take(i as int));
        assert(all.take(i + 1).last() == models@[i as int]@);
        match &models[i] {
            ItemModel::Function(f) => {
                record_function(graph, &f.function, path, content, f.span);
            },
            ItemModel::Impl(m) => {
                record_impl(graph, m, path, content);
            },
            ItemModel::Use(_) => {},
            ItemModel::Struct { name, visibility, span } => {
                record_struct(graph, name.as_str(), visibility, path, content, *span);
            },
            ItemModel::Trait { name, span } => {
                record_trait(graph, name.as_str(), path, content, *span);
            },
        }
        i += 1;
    }
    assert(all.take(i as int) =~= all);
}

/// The graph of a source file; none where it does not parse.
pub fn analyze_source(content: &str, path: &str) -> (r: Option<CodeGraph>)
    ensures
        match source_models(content@) {
            Some(models) => r matches Some(g) && g.wf() && graph_text(g) == with_models(
                no_graph(),
                models,
                path@,
                content@,
            ),
            None => r is None,
        },
{
    match parse_models(content) {
        Some(models) => {
            let mut graph: CodeGraph = CodeGraph::new();
            assert(structs_of(graph) =~= Map::empty());
            assert(functions_of(graph) =~= Map::empty());
            assert(impls_of(graph) =~= Map::empty());
            assert(traits_of(graph) =~= Map::empty());
            record_models(&mut graph, &models, path, content);
            Some(graph)
        },
        None => None,
    }
}

/// A node for the viewer. `size_tenths` is its size in tenths.
#[derive(Debug, PartialEq, Eq)]
pub struct GraphNode {
    pub id: String,
    pub label: String,
    pub node_type: String,
    pub path: String,
    pub visibility: String,
    pub size_tenths: u64,
    pub color: String,
    pub level: u64,
    pub calls: Vec<String>,
    pub signature: Option<String>,
    pub range: SourceRange,
    pub source_snippet: String,
}

/// What a `GraphNode` holds.
pub struct NodeText {
    pub id: Seq<char>,
    pub label: Seq<char>,
    pub node_type: Seq<char>,
    pub path: Seq<char>,
    pub visibility: Seq<char>,
    pub size_tenths: u64,
    pub color: Seq<char>,
    pub level: u64,
    pub calls: Seq<Seq<char>>,
    pub signature: Option<Seq<char>>,
    pub range: SourceRange,
    pub source_snippet: Seq<char>,
}

impl View for GraphNode {
    type V = NodeText;

    open spec fn view(&self) -> NodeText {
        NodeText {
            id: self.id@,
            label: self.label@,
            node_type: self.node_type@,
            path: self.path@,
            visibility: self.visibility@,
            size_tenths: self.size_tenths,
            color: self.color@,
            level: self.level,
            calls: texts(self.calls@),
            signature: opt_text(self.signature),
            range: self.range,
            source_snippet: self.source_snippet@,
        }
    }
}

pub open spec fn node_texts(v: Seq<GraphNode>) -> Seq<NodeText> {
    v.map_values(|n: GraphNode| n@)
}

/// Whether a node of this id is there.
pub open spec fn has_id(v: Seq<NodeText>, id: Seq<char>) -> bool {
    exists|i: int| 0 <= i < v.len() && (#[trigger] v[i]).id == id
}

/// Nodes with one more, unless one of its id is there.
pub open spec fn with_node(v: Seq<NodeText>, n: NodeText) -> Seq<NodeText> {
    if has_id(v, n.id) {
        v
    } else {
        v.push(n)
    }
}

fn add_node(v: &mut Vec<GraphNode>, n: GraphNode)
    ensures
        node_texts(final(v)@) == with_node(node_texts(old(v)@), n@),
{
    let ghost was = node_texts(v@);
    let mut i: usize = 0;
    while i < v.len()
        invariant
            i <= v@.len(),
            v@ == old(v)@,
            forall|j: int| 0 <= j < i ==> (#[trigger] was[j]).id != n.id@,
        decreases v@.len() - i,
    {
        if same(v[i].id.as_str(), n.id.as_str()) {
            assert(was[i as int].id == n.id@);
            return;
        }
        i += 1;
    }
    let ghost held = n@;
    v.push(n);
    assert(node_texts(v@) =~= was.push(held));
}

/// The name of a function behind that of the type whose method it is.
pub open spec fn function_label(name: Seq<char>, f: FunctionInfo) -> Seq<char> {
    match f.in_impl {
        Some(t) => t@ + "::"@ + name,
        None => name,
    }
}

fn show_label(name: &str, f: &FunctionInfo) -> (r: String)
    ensures
        r@ == function_label(name@, *f),
{
    match &f.in_impl {
        Some(t) => {
            let mut out: String = t.clone();
            out.append("::");
            out.append(name);
            out
        },
        None => name.to_owned(),
    }
}

/// The id of a function's node.
pub open spec fn function_id(name: Seq<char>, f: FunctionInfo) -> Seq<char> {
    "func::"@ + function_label(name, f)
}

fn prefixed(prefix: &str, name: &str) -> (r: String)
    ensures
        r@ == prefix@ + name@,
{
    let mut out: String = prefix.to_owned();
    out.append(name);
    out
}

/// A function's colour: one for methods, one for public functions and one for the others.
pub open spec fn function_color(f: FunctionInfo) -> Seq<char> {
    if f.in_impl is Some {
        "#9C27B0"@
    } else if f.visibility@ == "pub"@ {
        "#4CAF50"@
    } else {
        "#9E9E9E"@
    }
}

/// The node of a function.
pub open spec fn function_node(name: Seq<char>, f: FunctionInfo, root: Seq<char>) -> NodeText {
    NodeText {
        id: function_id(name, f),
        label: function_label(name, f),
        node_type: if f.in_impl is Some {
            "method"@
        } else {
            "function"@
        },
        path: relative(f.path@, root),
        visibility: f.visibility@,
        size_tenths: if f.in_impl is Some {
            9
        } else {
            10
        },
        color: function_color(f),
        level: if f.in_impl is Some {
            1
        } else {
            0
        },
        calls: texts(f.calls@),
        signature: Some(f.signature@),
        range: f.range,
        source_snippet: f.source_snippet@,
    }
}

fn make_function_node(name: &str, f: &FunctionInfo, root: &str) -> (r: GraphNode)
    ensures
        r@ == function_node(name@, *f, root@),
{
    let method: bool = f.in_impl.is_some();
    let label: String = show_label(name, f);
    let color: &str = if method {
        "#9C27B0"
    } else if same(f.visibility.as_str(), "pub") {
        "#4CAF50"
    } else {
        "#9E9E9E"
    };
    let node_type: &str = if method {
        "method"
    } else {
        "function"
    };
    GraphNode {
        id: prefixed("func::", label.as_str()),
        label,
        node_type: node_type.to_owned(),
        path: relative_to(f.path.as_str(), root),
        visibility: f.visibility.clone(),
        size_tenths: if method {
            9
        } else {
            10
        },
        color: color.to_owned(),
        level: if method {
            1
        } else {
            0
        },
        calls: clone_texts(&f.calls),
        signature: Some(f.signature.clone()),
        range: f.range,
        source_snippet: f.source_snippet.clone(),
    }
}

/// The nodes of functions.
pub open spec fn function_nodes(
    names: Seq<Seq<char>>,
    v: Seq<FunctionInfo>,
    root: Seq<char>,
) -> Seq<NodeText>
    decreases v.len(),
{
    if v.len() == 0 {
        Seq::empty()
    } else {
        with_node(
            function_nodes(names.drop_last(), v.drop_last(), root),
            function_node(names.last(), v.last(), root),
        )
    }
}

/// The node of a struct or a trait.
pub open spec fn type_node(
    name: Seq<char>,
    t: TypeText,
    root: Seq<char>,
    node_type: Seq<char>,
    size_tenths: u64,
    color: Seq<char>,
) -> NodeText {
    NodeText {
        id: node_type + "::"@ + name,
        label: name,
        node_type,
        path: relative(t.path, root),
        visibility: t.visibility,
        size_tenths,
        color,
        level: 0,
        calls: Seq::empty(),
        signature: None,
        range: t.range,
        source_snippet: t.source_snippet,
    }
}

pub open spec fn struct_node(name: Seq<char>, s: StructInfo, root: Seq<char>) -> NodeText {
    type_node(name, s@, root, "struct"@, 12, "#2196F3"@)
}

pub open spec fn trait_node(name: Seq<char>, t: TraitInfo, root: Seq<char>) -> NodeText {
    type_node(name, t@, root, "trait"@, 11, "#FF9800"@)
}

fn make_struct_node(name: &str, s: &StructInfo, root: &str) -> (r: GraphNode)
    ensures
        r@ == struct_node(name@, *s, root@),
{
    let mut id: String = "struct".to_owned();
    id.append("::");
    id.append(name);
    let calls: Vec<String> = Vec::new();
    assert(texts(calls@) =~= Seq::empty());
    GraphNode {
        id,
        label: name.to_owned(),
        node_type: "struct".to_owned(),
        path: relative_to(s.path.as_str(), root),
        visibility: s.visibility.clone(),
        size_tenths: 12,
        color: "#2196F3".to_owned(),
        level: 0,
        calls,
        signature: None,
        range: s.range,
        source_snippet: s.source_snippet.clone(),
    }
}

fn make_trait_node(name: &str, t: &TraitInfo, root: &str) -> (r: GraphNode)
    ensures
        r@ == trait_node(name@, *t, root@),
{
    let mut id: String = "trait".to_owned();
    id.append("::");
    id.append(name);
    let calls: Vec<String> = Vec::new();
    assert(texts(calls@) =~= Seq::empty());
    GraphNode {
        id,
        label: name.to_owned(),
        node_type: "trait".to_owned(),
        path: relative_to(t.path.as_str(), root),
        visibility: t.visibility.clone(),
        size_tenths: 11,
        color: "#FF9800".to_owned(),
        level: 0,
        calls,
        signature: None,
        range: t.range,
        source_snippet: t.source_snippet.clone(),
    }
}

/// Nodes with those of structs behind them.
pub open spec fn with_structs(
    nodes: Seq<NodeText>,
    names: Seq<Seq<char>>,
    v: Seq<StructInfo>,
    root: Seq<char>,
) -> Seq<NodeText>
    decreases v.len(),
{
    if v.len() == 0 {
        nodes
    } else {
        with_node(
            with_structs(nodes, names.drop_last(), v.drop_last(), root),
            struct_node(names.last(), v.last(), root),
        )
    }
}

/// Nodes with those of traits behind them.
pub open spec fn with_traits(
    nodes: Seq<NodeText>,
    names: Seq<Seq<char>>,
    v: Seq<TraitInfo>,
    root: Seq<char>,
) -> Seq<NodeText>
    decreases v.len(),
{
    if v.len() == 0 {
        nodes
    } else {
        with_node(
            with_traits(nodes, names.drop_last(), v.drop_last(), root),
            trait_node(names.last(), v.last(), root),
        )
    }
}

/// The nodes of a graph: its functions, structs and traits, each in order.
pub open spec fn graph_nodes(g: CodeGraph, root: Seq<char>) -> Seq<NodeText> {
    with_traits(
        with_structs(
            function_nodes(g.functions.keys(), g.functions.values(), root),
            g.structs.keys(),
            g.structs.values(),
            root,
        ),
        g.traits.keys(),
        g.traits.values(),
        root,
    )
}

fn make_nodes(g: &CodeGraph, root: &str) -> (r: Vec<GraphNode>)
    requires
        g.wf(),
    ensures
        node_texts(r@) == graph_nodes(*g, root@),
{
    let mut out: Vec<GraphNode> = Vec::new();
    let ghost names = g.functions.keys();
    let ghost v = g.functions.values();
    let n: usize = g.functions.len();
    let mut i: usize = 0;
    assert(node_texts(out@) =~= Seq::empty());
    while i < n
        invariant
            i <= n,
            n == v.len(),
            n == names.len(),
            node_texts(out@) == function_nodes(names.take(i as int), v.take(i as int), root@),
        decreases n - i,
    {
        assert(names.take(i + 1).drop_last() =~= names.take(i as int));
        assert(v.take(i + 1).drop_last() =~= v.take(i as int));
        add_node(
            &mut out,
            make_function_node(g.functions.key_at(i).as_str(), g.functions.value_at(i), root),
        );
        i += 1;
    }
    assert(names.take(i as int) =~= names);
    assert(v.take(i as int) =~= v);
    add_struct_nodes(g, root, &mut out);
    add_trait_nodes(g, root, &mut out);
    out
}

fn add_struct_nodes(g: &CodeGraph, root: &str, out: &mut Vec<GraphNode>)
    requires
        g.wf(),
    ensures
        node_texts(final(out)@) == with_structs(
            node_texts(old(out)@),
            g.structs.keys(),
            g.structs.values(),
            root@,
        ),
{
    let ghost start = node_texts(out@);
    let ghost names = g.structs.keys();
    let ghost v = g.structs.values();
    let n: usize = g.structs.len();
    let mut i: usize = 0;
    while i < n
        invariant
            i <= n,
            n == v.len(),
            n == names.len(),
            node_texts(out@) == with_structs(start, names.take(i as int), v.take(i as int), root@),
        decreases n - i,
    {
        assert(names.take(i + 1).drop_last() =~= names.take(i as int));
        assert(v.take(i + 1).drop_last() =~= v.take(i as int));
        add_node(out, make_struct_node(g.structs.key_at(i).as_str(), g.structs.value_at(i), root));
        i += 1;
    }
    assert(names.take(i as int) =~= names);
    assert(v.take(i as int) =~= v);
}

fn add_trait_nodes(g: &CodeGraph, root: &str, out: &mut Vec<GraphNode>)
    requires
        g.wf(),
    ensures
        node_texts(final(out)@) == with_traits(
            node_texts(old(out)@),
            g.traits.keys(),
            g.traits.values(),
            root@,
        ),
{
    let ghost start = node_texts(out@);
    let ghost names = g.traits.keys();
    let ghost v = g.traits.values();
    let n: usize = g.traits.len();
    let mut i: usize = 0;
    while i < n
        invariant
            i <= n,
            n == v.len(),
            n == names.len(),
            node_texts(out@) == with_traits(start, names.take(i as int), v.take(i as int), root@),
        decreases n - i,
    {
        assert(names.take(i + 1).drop_last() =~= names.take(i as int));
        assert(v.take(i + 1).drop_last() =~= v.take(i as int));
        add_node(out, make_trait_node(g.traits.key_at(i).as_str(), g.traits.value_at(i), root));
        i += 1;
    }
    assert(names.take(i as int) =~= names);
    assert(v.take(i as int) =~= v);
}

/// The node that a call leads to.
pub open spec fn call_target(known: Set<Seq<char>>, call: Seq<char>) -> Seq<char> {
    if known.contains(call) {
        "func::"@ + call
    } else {
        "unresolved::"@ + call
    }
}

/// The edges for the calls of a node.
pub open spec fn call_edges(
    id: Seq<char>,
    calls: Seq<Seq<char>>,
    known: Set<Seq<char>>,
) -> Seq<EdgeText> {
    calls.map_values(|c: Seq<char>| edge(id, call_target(known, c), "calls"@))
}

fn make_call_edges(g: &CodeGraph, id: &str, calls: &[String]) -> (r: Vec<GraphEdge>)
    requires
        g.wf(),
    ensures
        edge_texts(r@) == call_edges(id@, texts(calls@), g.functions@.dom()),
{
    let ghost all = call_edges(id@, texts(calls@), g.functions@.dom());
    let mut out: Vec<GraphEdge> = Vec::new();
    let mut i: usize = 0;
    while i < calls.len()
        invariant
            i <= calls@.len(),
            edge_texts(out@) == all.take(i as int),
        decreases calls@.len() - i,
    {
        assert(all.take(i + 1) =~= all.take(i as int).push(all[i as int]));
        let target: String = if g.functions.contains_key(calls[i].as_str()) {
            prefixed("func::", calls[i].as_str())
        } else {
            prefixed("unresolved::", calls[i].as_str())
        };
        push_edge(&mut out, id, target.as_str(), "calls");
        i += 1;
    }
    assert(all.take(i as int) =~= all);
    out
}

/// The edges for the calls of functions.
pub open spec fn function_edges(
    names: Seq<Seq<char>>,
    v: Seq<FunctionInfo>,
    known: Set<Seq<char>>,
) -> Seq<EdgeText>
    decreases v.len(),
{
    if v.len() == 0 {
        Seq::empty()
    } else {
        function_edges(names.drop_last(), v.drop_last(), known) + call_edges(
            function_id(names.last(), v.last()),
            texts(v.last().calls@),
            known,
        )
    }
}

/// The edges of an implementation: to its type, and to each of its methods.
pub open spec fn impl_edge_list(target: Seq<char>, i: ImplInfo) -> Seq<EdgeText> {
    seq![edge("impl::"@ + target, "struct::"@ + target, "implements"@)] + i.methods@.map_values(
        |m: FunctionInfo|
            edge("impl::"@ + target, "func::"@ + target + "::"@ + m.name@, "contains"@),
    )
}

fn make_impl_edges(target: &str, info: &ImplInfo) -> (r: Vec<GraphEdge>)
    ensures
        edge_texts(r@) == impl_edge_list(target@, *info),
{
    let ghost first = edge("impl::"@ + target@, "struct::"@ + target@, "implements"@);
    let ghost all = info.methods@.map_values(
        |m: FunctionInfo|
            edge("impl::"@ + target@, "func::"@ + target@ + "::"@ + m.name@, "contains"@),
    );
    let id: String = prefixed("impl::", target);
    let mut out: Vec<GraphEdge> = Vec::new();
    push_edge(&mut out, id.as_str(), prefixed("struct::", target).as_str(), "implements");
    assert(edge_texts(out@) =~= seq![first] + all.take(0));
    let mut i: usize = 0;
    while i < info.methods.len()
        invariant
            i <= info.methods@.len(),
            edge_texts(out@) == seq![first] + all.take(i as int),
        decreases info.methods@.len() - i,
    {
        let mut method: String = prefixed("func::", target);
        method.append("::");
        method.append(info.methods[i].name.as_str());
        push_edge(&mut out, id.as_str(), method.as_str(), "contains");
        assert(edge_texts(out@) =~= seq![first] + all.take(i + 1));
        i += 1;
    }
    assert(all.take(i as int) =~= all);
    out
}

/// The edges of implementations.
pub open spec fn impl_edges(names: Seq<Seq<char>>, v: Seq<ImplInfo>) -> Seq<EdgeText>
    decreases v.len(),
{
    if v.len() == 0 {
        Seq::empty()
    } else {
        impl_edges(names.drop_last(), v.drop_last()) + impl_edge_list(names.last(), v.last())
    }
}

/// The edges of a graph: its calls, and then what its implementations are for and contain.
pub open spec fn graph_edges(g: CodeGraph) -> Seq<EdgeText> {
    function_edges(g.functions.keys(), g.functions.values(), g.functions@.dom()) + impl_edges(
        g.impls.keys(),
        g.impls.values(),
    )
}

fn make_edges(g: &CodeGraph) -> (r: Vec<GraphEdge>)
    requires
        g.wf(),
    ensures
        edge_texts(r@) == graph_edges(*g),
{
    let mut out: Vec<GraphEdge> = Vec::new();
    let ghost names = g.functions.keys();
    let ghost v = g.functions.values();
    let n: usize = g.functions.len();
    let mut i: usize = 0;
    assert(edge_texts(out@) =~= Seq::empty());
    while i < n
        invariant
            i <= n,
            n == v.len(),
            n == names.len(),
            edge_texts(out@) == function_edges(
                names.take(i as int),
                v.take(i as int),
                g.functions@.dom(),
            ),
        decreases n - i,
    {
        assert(names.take(i + 1).drop_last() =~= names.take(i as int));
        assert(v.take(i + 1).drop_last() =~= v.take(i as int));
        let f: &FunctionInfo = g.functions.value_at(i);
        let label: String = show_label(g.functions.key_at(i).as_str(), f);
        let id: String = prefixed("func::", label.as_str());
        append_edges(&mut out, make_call_edges(g, id.as_str(), &f.calls));
        i += 1;
    }
    assert(names.take(i as int) =~= names);
    assert(v.take(i as int) =~= v);
    let more: Vec<GraphEdge> = make_all_impl_edges(g);
    append_edges(&mut out, more);
    out
}

fn make_all_impl_edges(g: &CodeGraph) -> (r: Vec<GraphEdge>)
    requires
        g.wf(),
    ensures
        edge_texts(r@) == impl_edges(g.impls.keys(), g.impls.values()),
{
    let mut out: Vec<GraphEdge> = Vec::new();
    let ghost names = g.impls.keys();
    let ghost v = g.impls.values();
    let n: usize = g.impls.len();
    let mut i: usize = 0;
    assert(edge_texts(out@) =~= Seq::empty());
    while i < n
        invariant
            i <= n,
            n == v.len(),
            n == names.len(),
            edge_texts(out@) == impl_edges(names.take(i as int), v.take(i as int)),
        decreases n - i,
    {
        assert(names.take(i + 1).drop_last() =~= names.take(i as int));
        assert(v.take(i + 1).drop_last() =~= v.take(i as int));
        append_edges(&mut out, make_impl_edges(g.impls.key_at(i).as_str(), g.impls.value_at(i)));
        i += 1;
    }
    assert(names.take(i as int) =~= names);
    assert(v.take(i as int) =~= v);
    out
}

/// The nodes and edges of a graph for the viewer.
pub fn to_visualization_graph(g: &CodeGraph, root: &str) -> (r: (Vec<GraphNode>, Vec<GraphEdge>))
    requires
        g.wf(),
    ensures
        node_texts(r.0@) == graph_nodes(*g, root@),
        edge_texts(r.1@) == graph_edges(*g),
{
    (make_nodes(g, root), make_edges(g))
}

proof fn lemma_with_node(v: Seq<NodeText>, n: NodeText)
    requires
        distinct_ids(v),
    ensures
        distinct_ids(with_node(v, n)),
{
}

/// No two nodes have the same id.
pub open spec fn distinct_ids(v: Seq<NodeText>) -> bool {
    forall|i: int, j: int|
        0 <= i < j < v.len() ==> (#[trigger] v[i]).id != (#[trigger] v[j]).id
}

proof fn lemma_function_nodes(names: Seq<Seq<char>>, v: Seq<FunctionInfo>, root: Seq<char>)
    ensures
        distinct_ids(function_nodes(names, v, root)),
    decreases v.len(),
{
    if v.len() > 0 {
        lemma_function_nodes(names.drop_last(), v.drop_last(), root);
        lemma_with_node(
            function_nodes(names.drop_last(), v.drop_last(), root),
            function_node(names.last(), v.last(), root),
        );
    }
}

proof fn lemma_with_structs(
    nodes: Seq<NodeText>,
    names: Seq<Seq<char>>,
    v: Seq<StructInfo>,
    root: Seq<char>,
)
    requires
        distinct_ids(nodes),
    ensures
        distinct_ids(with_structs(nodes, names, v, root)),
    decreases v.len(),
{
    if v.len() > 0 {
        lemma_with_structs(nodes, names.drop_last(), v.drop_last(), root);
        lemma_with_node(
            with_structs(nodes, names.drop_last(), v.drop_last(), root),
            struct_node(names.last(), v.last(), root),
        );
    }
}

proof fn lemma_with_traits(
    nodes: Seq<NodeText>,
    names: Seq<Seq<char>>,
    v: Seq<TraitInfo>,
    root: Seq<char>,
)
    requires
        distinct_ids(nodes),
    ensures
        distinct_ids(with_traits(nodes, names, v, root)),
    decreases v.len(),
{
    if v.len() > 0 {
        lemma_with_traits(nodes, names.drop_last(), v.drop_last(), root);
        lemma_with_node(
            with_traits(nodes, names.drop_last(), v.drop_last(), root),
            trait_node(names.last(), v.last(), root),
        );
    }
}

/// The nodes of a graph have ids of their own.
pub proof fn law_node_ids_are_distinct(g: CodeGraph, root: Seq<char>)
    ensures
        distinct_ids(graph_nodes(g, root)),
{
    let functions = function_nodes(g.functions.keys(), g.functions.values(), root);
    let structs = with_structs(functions, g.structs.keys(), g.structs.values(), root);
    lemma_function_nodes(g.functions.keys(), g.functions.values(), root);
    lemma_with_structs(functions, g.structs.keys(), g.structs.values(), root);
    lemma_with_traits(structs, g.traits.keys(), g.traits.values(), root);
}

/// A position as JSON.
pub open spec fn position_json(p: Position) -> JsonText {
    JsonText::object().with("line"@, JsonText::Number(p.line as nat)).with(
        "column"@,
        JsonText::Number(p.column as nat),
    )
}

fn show_position(p: &Position) -> (r: Json)
    ensures
        r@ == position_json(*p),
{
    Json::object().with("line", Json::Number(p.line)).with("column", Json::Number(p.column))
}

/// A range as JSON.
pub open spec fn range_json(r: SourceRange) -> JsonText {
    JsonText::object().with("start"@, position_json(r.start)).with("end"@, position_json(r.end)).with(
        "bytes"@,
        match r.bytes {
            Some(b) => JsonText::object().with("start"@, JsonText::Number(b.start as nat)).with(
                "end"@,
                JsonText::Number(b.end as nat),
            ),
            None => JsonText::Null,
        },
    )
}

/// A range as JSON.
pub fn show_range(range: &SourceRange) -> (r: Json)
    ensures
        r@ == range_json(*range),
{
    let bytes: Json = match range.bytes {
        Some(b) => Json::object().with("start", Json::Number(b.start as u64)).with(
            "end",
            Json::Number(b.end as u64),
        ),
        None => Json::Null,
    };
    Json::object().with("start", show_position(&range.start)).with(
        "end",
        show_position(&range.end),
    ).with("bytes", bytes)
}

/// What a node's attributes are called and hold.
pub open spec fn attributes_json(n: NodeText) -> JsonText {
    JsonText::object().with("label"@, JsonText::Text(n.label)).with(
        "type"@,
        JsonText::Text(n.node_type),
    ).with("path"@, JsonText::Text(n.path)).with("visibility"@, JsonText::Text(n.visibility)).with(
        "size"@,
        JsonText::Tenths(n.size_tenths as nat),
    ).with("color"@, JsonText::Text(n.color)).with("level"@, JsonText::Number(n.level as nat)).with(
        "calls"@,
        texts_list(n.calls),
    ).with(
        "signature"@,
        match n.signature {
            Some(s) => JsonText::Text(s),
            None => JsonText::Null,
        },
    ).with("sourceSnippet"@, JsonText::Text(n.source_snippet)).with("range"@, range_json(n.range))
}

fn show_attributes(n: &GraphNode) -> (r: Json)
    ensures
        r@ == attributes_json(n@),
{
    Json::object().with("label", text(n.label.as_str())).with(
        "type",
        text(n.node_type.as_str()),
    ).with("path", text(n.path.as_str())).with("visibility", text(n.visibility.as_str())).with(
        "size",
        Json::Tenths(n.size_tenths),
    ).with("color", text(n.color.as_str())).with("level", Json::Number(n.level)).with(
        "calls",
        text_list(&n.calls),
    ).with("signature", optional_text(&n.signature)).with(
        "sourceSnippet",
        text(n.source_snippet.as_str()),
    ).with("range", show_range(&n.range))
}

/// A node as JSON.
pub open spec fn node_json(n: NodeText) -> JsonText {
    JsonText::object().with("key"@, JsonText::Text(n.id)).with("attributes"@, attributes_json(n))
}

/// Nodes as JSON.
pub open spec fn nodes_json(v: Seq<NodeText>) -> JsonText {
    JsonText::List(v.map_values(|n: NodeText| node_json(n)))
}

fn show_nodes(v: &[GraphNode]) -> (r: Json)
    ensures
        r@ == nodes_json(node_texts(v@)),
{
    let ghost all = node_texts(v@).map_values(|n: NodeText| node_json(n));
    let mut out: Vec<Json> = items();
    let mut i: usize = 0;
    while i < v.len()
        invariant
            i <= v@.len(),
            json_texts(out@) == all.take(i as int),
        decreases v@.len() - i,
    {
        assert(all.take(i + 1) =~= all.take(i as int).push(all[i as int]));
        put_item(
            &mut out,
            Json::object().with("key", text(v[i].id.as_str())).with(
                "attributes",
                show_attributes(&v[i]),
            ),
        );
        i += 1;
    }
    assert(all.take(i as int) =~= all);
    list(out)
}

/// The document that the viewer reads: the nodes and edges of a graph, and what it is about.
pub open spec fn document(g: CodeGraph, root: Seq<char>, timestamp: Seq<char>) -> JsonText {
    JsonText::object().with(
        "graph"@,
        JsonText::object().with("nodes"@, nodes_json(graph_nodes(g, root))).with(
            "edges"@,
            edges_json(graph_edges(g)),
        ),
    ).with(
        "metadata"@,
        JsonText::object().with("timestamp"@, JsonText::Text(timestamp)).with(
            "root"@,
            JsonText::Text(root),
        ).with(
            "stats"@,
            JsonText::object().with("functions"@, JsonText::Number(g.functions.keys().len())).with(
                "structs"@,
                JsonText::Number(g.structs.keys().len()),
            ).with("traits"@, JsonText::Number(g.traits.keys().len())).with(
                "impls"@,
                JsonText::Number(g.impls.keys().len()),
            ),
        ),
    )
}

/// The document that the viewer reads; `timestamp` says when it was made.
pub fn export_to_json(g: &CodeGraph, root: &str, timestamp: &str) -> (r: Json)
    requires
        g.wf(),
    ensures
        r@ == document(*g, root@, timestamp@),
{
    let (nodes, edges) = to_visualization_graph(g, root);
    let stats: Json = Json::object().with("functions", Json::Number(g.functions.len() as u64)).with(
        "structs",
        Json::Number(g.structs.len() as u64),
    ).with("traits", Json::Number(g.traits.len() as u64)).with(
        "impls",
        Json::Number(g.impls.len() as u64),
    );
    let metadata: Json = Json::object().with("timestamp", text(timestamp)).with(
        "root",
        text(root),
    ).with("stats", stats);
    let graph: Json = Json::object().with("nodes", show_nodes(&nodes)).with(
        "edges",
        show_edges(&edges),
    );
    Json::object().with("graph", graph).with("metadata", metadata)
}

/// Whether the walk leaves a directory of this name out.
pub open spec fn is_skipped_dir(name: Seq<char>) -> bool {
    ||| name == "target"@
    ||| name == "node_modules"@
    ||| name == ".git"@
    ||| name == ".cargo"@
}

/// Whether the walk leaves a directory of this name out.
pub fn skips_dir(name: &str) -> (r: bool)
    ensures
        r == is_skipped_dir(name@),
{
    same(name, "target") || same(name, "node_modules") || same(name, ".git") || same(name, ".cargo")
}

/// Whether an argument says that the next one is the output.
pub open spec fn names_output(arg: Seq<char>) -> bool {
    arg == "--output"@ || arg == "-o"@
}

/// The file that the arguments from `i` on name as output: what follows the last such argument;
/// `now` where there is none.
pub open spec fn output_from(
    args: Seq<Seq<char>>,
    i: int,
    now: Option<Seq<char>>,
) -> Option<Seq<char>>
    decreases args.len() - i,
{
    if i >= args.len() {
        now
    } else if names_output(args[i]) && i + 1 < args.len() {
        output_from(args, i + 2, Some(args[i + 1]))
    } else {
        output_from(args, i + 1, now)
    }
}

/// The file that the arguments, those behind the program's name, name as output, or
/// `code_graph.json`.
pub fn output_path(args: &[String]) -> (r: String)
    ensures
        r@ == match output_from(texts(args@), 0, None) {
            Some(p) => p,
            None => "code_graph.json"@,
        },
{
    let ghost all = texts(args@);
    let n: usize = args.len();
    let mut out: Option<String> = None;
    let mut i: usize = 0;
    while i < n
        invariant
            i <= n,
            output_from(all, i as int, opt_text(out)) == output_from(all, 0, None),
        decreases n - i,
    {
        let a: &str = args[i].as_str();
        assert(all[i as int] == a@);
        if (same(a, "--output") || same(a, "-o")) && n - i > 1 {
            assert(all[i + 1] == args@[i + 1]@);
            out = Some(args[i + 1].clone());
            i += 2;
        } else {
            i += 1;
        }
    }
    match out {
        Some(p) => p,
        None => "code_graph.json".to_owned(),
    }
}

} // verus!
