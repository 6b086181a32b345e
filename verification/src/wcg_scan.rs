//! What the syntax of a file adds to a code graph.

use vstd::prelude::*;
use crate::ordered::{in_order, sort_distinct};
use crate::models::{
    attr_views, call_views, input_views, method_views, model_texts, parse_models, source_models,
    AttrModel, AttrText, CallModel, CallText, FnModel, FnText, ImplModel, ImplText, InputModel,
    InputText, ItemModel, MethodText, ModelText, UseModel, VisModel,
    VisText,
};
use crate::path::{has_extension, path_extension};
use crate::text::{clone_texts, join, joined, opt_text, push_text, same, texts};
use crate::wcg::{
    collect_use_tree, import_texts, tree_imports, CodeGraph, FunctionInfo, ImplInfo, ImportInfo,
    ImportText, ParamInfo,
};
use crate::wcg_calls::{is_left_out, leaves_out};

verus! {

/// What a `ParamInfo` holds.
pub struct ParamText {
    pub name: Seq<char>,
    pub type_str: Seq<char>,
    pub is_self: bool,
}

impl View for ParamInfo {
    type V = ParamText;

    open spec fn view(&self) -> ParamText {
        ParamText { name: self.name@, type_str: self.type_str@, is_self: self.is_self }
    }
}

pub open spec fn param_texts(v: Seq<ParamInfo>) -> Seq<ParamText> {
    v.map_values(|p: ParamInfo| p@)
}

/// What a `FunctionInfo` holds.
pub struct FunctionText {
    pub name: Seq<char>,
    pub signature: Seq<char>,
    pub return_type: Option<Seq<char>>,
    pub parameters: Seq<ParamText>,
    pub calls: Seq<Seq<char>>,
    pub generics: Seq<Seq<char>>,
    pub where_clause: Option<Seq<char>>,
    pub attributes: Seq<Seq<char>>,
    pub visibility: Seq<char>,
    pub asyncness: bool,
    pub unsafeness: bool,
    pub constness: bool,
    pub path: Seq<char>,
    pub in_impl: Option<Seq<char>>,
}

impl View for FunctionInfo {
    type V = FunctionText;

    open spec fn view(&self) -> FunctionText {
        FunctionText {
            name: self.name@,
            signature: self.signature@,
            return_type: opt_text(self.return_type),
            parameters: param_texts(self.parameters@),
            calls: texts(self.calls@),
            generics: texts(self.generics@),
            where_clause: opt_text(self.where_clause),
            attributes: texts(self.attributes@),
            visibility: self.visibility@,
            asyncness: self.asyncness,
            unsafeness: self.unsafeness,
            constness: self.constness,
            path: self.path@,
            in_impl: opt_text(self.in_impl),
        }
    }
}

pub open spec fn function_texts(v: Seq<FunctionInfo>) -> Seq<FunctionText> {
    v.map_values(|f: FunctionInfo| f@)
}

/// A visibility in words.
pub open spec fn visibility_text(v: VisText) -> Seq<char> {
    match v {
        VisText::Public => "pub"@,
        VisText::Restricted(t) => "pub("@ + t + ")"@,
        VisText::Inherited => "private"@,
    }
}

/// A visibility in words.
pub fn get_visibility(v: &VisModel) -> (r: String)
    ensures
        r@ == visibility_text(v@),
{
    match v {
        VisModel::Public => "pub".to_owned(),
        VisModel::Restricted(t) => {
            let mut out: String = "pub(".to_owned();
            out.append(t.as_str());
            out.append(")");
            out
        },
        VisModel::Inherited => "private".to_owned(),
    }
}

pub open spec fn is_derive(a: AttrText) -> bool {
    a.segments == seq!["derive"@]
}

/// The paths of the attributes, `derive` aside.
pub open spec fn attribute_texts(attrs: Seq<AttrText>) -> Seq<Seq<char>>
    decreases attrs.len(),
{
    if attrs.len() == 0 {
        Seq::empty()
    } else if is_derive(attrs.last()) {
        attribute_texts(attrs.drop_last())
    } else {
        attribute_texts(attrs.drop_last()).push(attrs.last().tokens)
    }
}

/// The paths of the attributes, `derive` aside.
pub fn get_attributes(attrs: &[AttrModel]) -> (r: Vec<String>)
    ensures
        texts(r@) == attribute_texts(attr_views(attrs@)),
{
    let ghost all = attr_views(attrs@);
    let mut out: Vec<String> = Vec::new();
    let mut i: usize = 0;
    while i < attrs.len()
        invariant
            i <= attrs@.len(),
            texts(out@) == attribute_texts(all.take(i as int)),
        decreases attrs@.len() - i,
    {
        let ghost now = texts(out@);
        assert(all.take(i + 1).drop_last() =~= all.take(i as int));
        let a: &AttrModel = &attrs[i];
        let derive: bool = a.segments.len() == 1 && same(a.segments[0].as_str(), "derive");
        assert(all.take(i + 1).last() == a@);
        assert(derive == is_derive(a@)) by {
            if derive {
                assert(texts(a.segments@) =~= seq!["derive"@]);
            } else if is_derive(a@) {
                assert(texts(a.segments@).len() == 1);
                assert(texts(a.segments@)[0] == a.segments@[0]@);
            }
        }
        if !derive {
            let t: String = a.tokens.clone();
            out.push(t);
            assert(texts(out@) =~= now.push(a.tokens@));
        }
        i += 1;
    }
    assert(all.take(i as int) =~= all);
    out
}

/// A receiver, with `name` for the type or value.
pub open spec fn receiver_text(reference: bool, mutable: bool, name: Seq<char>) -> Seq<char> {
    if reference && mutable {
        "&mut "@ + name
    } else if reference {
        "&"@ + name
    } else {
        name
    }
}

fn show_receiver(reference: bool, mutable: bool, name: &str) -> (r: String)
    ensures
        r@ == receiver_text(reference, mutable, name@),
{
    let mut out: String = String::new();
    if reference && mutable {
        out = "&mut ".to_owned();
    } else if reference {
        out = "&".to_owned();
    }
    out.append(name);
    assert(!reference ==> out@ =~= name@);
    out
}

/// A parameter as a signature shows it.
pub open spec fn input_text(i: InputText) -> Seq<char> {
    match i {
        InputText::Receiver { reference, mutable } => receiver_text(reference, mutable, "self"@),
        InputText::Typed { tokens, ident: _, ty: _ } => tokens,
    }
}

pub open spec fn input_texts(v: Seq<InputText>) -> Seq<Seq<char>> {
    v.map_values(|i: InputText| input_text(i))
}

fn show_inputs(inputs: &[InputModel]) -> (r: Vec<String>)
    ensures
        texts(r@) == input_texts(input_views(inputs@)),
{
    let ghost all = input_texts(input_views(inputs@));
    let mut out: Vec<String> = Vec::new();
    let mut i: usize = 0;
    while i < inputs.len()
        invariant
            i <= inputs@.len(),
            texts(out@) == all.take(i as int),
        decreases inputs@.len() - i,
    {
        let ghost now = texts(out@);
        assert(all[i as int] == input_text(inputs@[i as int]@));
        let t: String = match &inputs[i] {
            InputModel::Receiver { reference, mutable } => show_receiver(*reference, *mutable, "self"),
            InputModel::Typed { tokens, ident: _, ty: _ } => tokens.clone(),
        };
        let ghost held = t@;
        out.push(t);
        assert(texts(out@) =~= now.push(held));
        assert(all.take(i + 1) =~= all.take(i as int).push(all[i as int]));
        i += 1;
    }
    assert(all.take(i as int) =~= all);
    out
}

pub open spec fn opt_part(on: bool, word: Seq<char>) -> Seq<Seq<char>> {
    if on {
        seq![word]
    } else {
        Seq::empty()
    }
}

/// The parts of a signature, with `generics` where it has any.
pub open spec fn signature_parts(m: FnText, generics: Seq<char>) -> Seq<Seq<char>> {
    let head = opt_part(m.constness, "const"@) + opt_part(m.asyncness, "async"@) + opt_part(
        m.unsafeness,
        "unsafe"@,
    ) + seq!["fn"@, m.name];
    let inputs = seq!["("@ + joined(input_texts(m.inputs), ", "@) + ")"@];
    let output = match m.output {
        Some(o) => seq!["->"@, o],
        None => Seq::empty(),
    };
    head + opt_part(m.generics.len() > 0, generics) + inputs + output
}

/// A signature with `generics` where it has any.
pub(crate) fn write_signature(m: &FnModel, generics: &str) -> (r: String)
    ensures
        r@ == joined(signature_parts(m@, generics@), " "@),
{
    let mut parts: Vec<String> = Vec::new();
    if m.constness {
        push_text(&mut parts, "const");
    }
    if m.asyncness {
        push_text(&mut parts, "async");
    }
    if m.unsafeness {
        push_text(&mut parts, "unsafe");
    }
    push_text(&mut parts, "fn");
    push_text(&mut parts, m.name.as_str());
    assert(m@.generics.len() == m.generics@.len());
    if m.generics.len() > 0 {
        push_text(&mut parts, generics);
    }
    let inputs: Vec<String> = show_inputs(&m.inputs);
    let mut list: String = "(".to_owned();
    list.append(join(&inputs, ", ").as_str());
    list.append(")");
    push_text(&mut parts, list.as_str());
    match &m.output {
        Some(o) => {
            push_text(&mut parts, "->");
            push_text(&mut parts, o.as_str());
        },
        None => {},
    }
    assert(texts(parts@) =~= signature_parts(m@, generics@));
    join(&parts, " ")
}

/// A signature: the qualifiers, the name, the generics, the parameters and what is returned, with
/// blanks between them. Generics are shown as the tokens of the whole signature and the word
/// `generics` behind a dot.
pub open spec fn signature_text(m: FnText) -> Seq<char> {
    joined(signature_parts(m, m.tokens + " . generics"@), " "@)
}

/// A signature in one line.
pub fn format_signature(m: &FnModel) -> (r: String)
    ensures
        r@ == signature_text(m@),
{
    let mut generics: String = m.tokens.clone();
    generics.append(" . generics");
    write_signature(m, generics.as_str())
}

/// A parameter: receivers, and typed ones whose pattern is a name.
pub open spec fn parameter(i: InputText) -> Option<ParamText> {
    match i {
        InputText::Receiver { reference, mutable } => Some(
            ParamText {
                name: "self"@,
                type_str: receiver_text(reference, mutable, "Self"@),
                is_self: true,
            },
        ),
        InputText::Typed { tokens: _, ident, ty } => match ident {
            Some(n) => Some(ParamText { name: n, type_str: ty, is_self: false }),
            None => None,
        },
    }
}

pub open spec fn parameters(inputs: Seq<InputText>) -> Seq<ParamText>
    decreases inputs.len(),
{
    if inputs.len() == 0 {
        Seq::empty()
    } else {
        match parameter(inputs.last()) {
            Some(p) => parameters(inputs.drop_last()).push(p),
            None => parameters(inputs.drop_last()),
        }
    }
}

/// The parameters that have a name.
pub fn read_parameters(inputs: &[InputModel]) -> (r: Vec<ParamInfo>)
    ensures
        param_texts(r@) == parameters(input_views(inputs@)),
{
    let ghost all = input_views(inputs@);
    let mut out: Vec<ParamInfo> = Vec::new();
    let mut i: usize = 0;
    while i < inputs.len()
        invariant
            i <= inputs@.len(),
            param_texts(out@) == parameters(all.take(i as int)),
        decreases inputs@.len() - i,
    {
        let ghost now = param_texts(out@);
        assert(all.take(i + 1).drop_last() =~= all.take(i as int));
        assert(all.take(i + 1).last() == inputs@[i as int]@);
        let p: Option<ParamInfo> = match &inputs[i] {
            InputModel::Receiver { reference, mutable } => Some(
                ParamInfo {
                    name: "self".to_owned(),
                    type_str: show_receiver(*reference, *mutable, "Self"),
                    is_self: true,
                },
            ),
            InputModel::Typed { tokens: _, ident, ty } => match ident {
                Some(n) => Some(
                    ParamInfo { name: n.clone(), type_str: ty.clone(), is_self: false },
                ),
                None => None,
            },
        };
        match p {
            Some(p) => {
                let ghost held = p@;
                out.push(p);
                assert(param_texts(out@) =~= now.push(held));
            },
            None => {},
        }
        i += 1;
    }
    assert(all.take(i as int) =~= all);
    out
}

/// The name under which a call is noted, where it has one.
pub open spec fn call_name(c: CallText) -> Option<Seq<char>> {
    match c {
        CallText::Path(segments) => Some(joined(segments, "::"@)),
        CallText::Method(name) => Some(name),
        CallText::Other => None,
    }
}

/// The name under which a call is noted, where it has one.
pub(crate) fn name_call(c: &CallModel) -> (r: Option<String>)
    ensures
        opt_text(r) == call_name(c@),
{
    match c {
        CallModel::Path(segments) => Some(join(segments, "::")),
        CallModel::Method(name) => Some(name.clone()),
        CallModel::Other => None,
    }
}

/// The names of the calls, those left out aside.
pub open spec fn kept_names(calls: Seq<CallText>) -> Seq<Seq<char>>
    decreases calls.len(),
{
    if calls.len() == 0 {
        Seq::empty()
    } else {
        match call_name(calls.last()) {
            Some(name) if !is_left_out(name) => kept_names(calls.drop_last()).push(name),
            _ => kept_names(calls.drop_last()),
        }
    }
}

/// The names of the calls, those left out aside, each once and in order.
pub fn extract_function_calls(calls: &[CallModel]) -> (r: Vec<String>)
    ensures
        texts(r@) == in_order(kept_names(call_views(calls@))),
{
    let ghost all = call_views(calls@);
    let mut out: Vec<String> = Vec::new();
    let mut i: usize = 0;
    while i < calls.len()
        invariant
            i <= calls@.len(),
            texts(out@) == kept_names(all.take(i as int)),
        decreases calls@.len() - i,
    {
        assert(all.take(i + 1).drop_last() =~= all.take(i as int));
        assert(all.take(i + 1).last() == calls@[i as int]@);
        match name_call(&calls[i]) {
            Some(name) => {
                if !leaves_out(name.as_str()) {
                    push_text(&mut out, name.as_str());
                }
            },
            None => {},
        }
        i += 1;
    }
    assert(all.take(i as int) =~= all);
    sort_distinct(&out)
}

fn copy_option(t: &Option<String>) -> (r: Option<String>)
    ensures
        opt_text(r) == opt_text(*t),
{
    match t {
        Some(s) => Some(s.clone()),
        None => None,
    }
}

/// What is noted of a function.
pub open spec fn function_text(
    m: FnText,
    path: Seq<char>,
    in_impl: Option<Seq<char>>,
) -> FunctionText {
    FunctionText {
        name: m.name,
        signature: signature_text(m),
        return_type: m.output,
        parameters: parameters(m.inputs),
        calls: in_order(kept_names(m.calls)),
        generics: m.generics,
        where_clause: m.where_clause,
        attributes: attribute_texts(m.attributes),
        visibility: visibility_text(m.visibility),
        asyncness: m.asyncness,
        unsafeness: m.unsafeness,
        constness: m.constness,
        path,
        in_impl,
    }
}

/// What is noted of a function.
pub fn function_info(m: &FnModel, path: &str, in_impl: &Option<String>) -> (r: FunctionInfo)
    ensures
        r@ == function_text(m@, path@, opt_text(*in_impl)),
{
    FunctionInfo {
        name: m.name.clone(),
        signature: format_signature(m),
        return_type: copy_option(&m.output),
        parameters: read_parameters(&m.inputs),
        calls: extract_function_calls(&m.calls),
        generics: clone_texts(&m.generics),
        where_clause: copy_option(&m.where_clause),
        attributes: get_attributes(&m.attributes),
        visibility: get_visibility(&m.visibility),
        asyncness: m.asyncness,
        unsafeness: m.unsafeness,
        constness: m.constness,
        path: path.to_owned(),
        in_impl: copy_option(in_impl),
    }
}

/// What an `ImplInfo` holds.
pub struct ImplInfoText {
    pub target_type: Seq<char>,
    pub generics: Seq<Seq<char>>,
    pub where_clause: Option<Seq<char>>,
    pub methods: Seq<FunctionText>,
    pub traits: Seq<Seq<char>>,
    pub path: Seq<char>,
}

impl View for ImplInfo {
    type V = ImplInfoText;

    open spec fn view(&self) -> ImplInfoText {
        ImplInfoText {
            target_type: self.target_type@,
            generics: texts(self.generics@),
            where_clause: opt_text(self.where_clause),
            methods: function_texts(self.methods@),
            traits: texts(self.traits@),
            path: self.path@,
        }
    }
}

/// The functions of a graph by what they hold.
pub open spec fn functions_of(g: CodeGraph) -> Map<Seq<char>, FunctionText> {
    g.functions@.map_values(|f: FunctionInfo| f@)
}

/// The implementations of a graph by what they hold.
pub open spec fn impls_of(g: CodeGraph) -> Map<Seq<char>, ImplInfoText> {
    g.impls@.map_values(|i: ImplInfo| i@)
}

/// The imports of the files of a graph.
pub open spec fn imports_of(g: CodeGraph) -> Map<Seq<char>, Seq<ImportText>> {
    g.file_imports@.map_values(|v: Vec<ImportInfo>| import_texts(v@))
}

/// Notes a function of a file.
pub fn record_function(graph: &mut CodeGraph, m: &FnModel, path: &str)
    requires
        old(graph).wf(),
    ensures
        final(graph).wf(),
        functions_of(*final(graph)) == functions_of(*old(graph)).insert(
            m.name@,
            function_text(m@, path@, None),
        ),
        final(graph).structs == old(graph).structs,
        final(graph).impls == old(graph).impls,
        final(graph).traits == old(graph).traits,
        final(graph).unresolved_calls == old(graph).unresolved_calls,
        final(graph).file_imports == old(graph).file_imports,
{
    let f: FunctionInfo = function_info(m, path, &None);
    let ghost held = f;
    graph.add_function(f);
    assert(held.name@ == held@.name);
    assert(functions_of(*graph) =~= functions_of(*old(graph)).insert(
        m.name@,
        function_text(m@, path@, None),
    ));
}

/// What is noted of the methods of an implementation for `target`, given its members.
pub open spec fn method_texts(
    members: Seq<Option<MethodText>>,
    target: Seq<char>,
    path: Seq<char>,
) -> Seq<FunctionText>
    decreases members.len(),
{
    if members.len() == 0 {
        Seq::empty()
    } else {
        let earlier = method_texts(members.drop_last(), target, path);
        match members.last() {
            Some(m) => earlier.push(function_text(m.function, path, Some(target))),
            None => earlier,
        }
    }
}

/// Functions with these methods taken up in turn under their names.
pub open spec fn with_methods(
    functions: Map<Seq<char>, FunctionText>,
    methods: Seq<FunctionText>,
) -> Map<Seq<char>, FunctionText>
    decreases methods.len(),
{
    if methods.len() == 0 {
        functions
    } else {
        with_methods(functions, methods.drop_last()).insert(methods.last().name, methods.last())
    }
}

/// What is noted of an implementation.
pub open spec fn impl_text(m: ImplText, path: Seq<char>) -> ImplInfoText {
    ImplInfoText {
        target_type: m.target_type,
        generics: m.generics,
        where_clause: m.where_clause,
        methods: method_texts(m.members, m.target_type, path),
        traits: match m.trait_path {
            Some(t) => seq![t],
            None => Seq::empty(),
        },
        path,
    }
}

/// Notes an implementation of a file, and each of its methods as a function.
pub fn record_impl(graph: &mut CodeGraph, m: &ImplModel, path: &str)
    requires
        old(graph).wf(),
    ensures
        final(graph).wf(),
        functions_of(*final(graph)) == with_methods(
            functions_of(*old(graph)),
            method_texts(m@.members, m.target_type@, path@),
        ),
        impls_of(*final(graph)) == impls_of(*old(graph)).insert(
            m.target_type@,
            impl_text(m@, path@),
        ),
        final(graph).structs == old(graph).structs,
        final(graph).traits == old(graph).traits,
        final(graph).unresolved_calls == old(graph).unresolved_calls,
        final(graph).file_imports == old(graph).file_imports,
{
    let target: Option<String> = Some(m.target_type.clone());
    let ghost all = method_views(m.members@);
    let ghost start = functions_of(*graph);
    let ghost had_impls = impls_of(*graph);
    let mut methods: Vec<FunctionInfo> = Vec::new();
    let mut i: usize = 0;
    while i < m.members.len()
        invariant
            i <= m.members@.len(),
            graph.wf(),
            function_texts(methods@) == method_texts(all.take(i as int), m.target_type@, path@),
            functions_of(*graph) == with_methods(start, function_texts(methods@)),
            graph.structs == old(graph).structs,
            graph.impls == old(graph).impls,
            graph.traits == old(graph).traits,
            graph.unresolved_calls == old(graph).unresolved_calls,
            graph.file_imports == old(graph).file_imports,
        decreases m.members@.len() - i,
    {
        let ghost now = function_texts(methods@);
        let ghost had = functions_of(*graph);
        assert(all.take(i + 1).drop_last() =~= all.take(i as int));
        assert(all.take(i + 1).last() == all[i as int]);
        match &m.members[i] {
            Some(method) => {
                let f: FunctionInfo = function_info(&method.function, path, &target);
                let g: FunctionInfo = function_info(&method.function, path, &target);
                let ghost held = f@;
                assert(all[i as int] == Some(method@));
                methods.push(f);
                assert(function_texts(methods@) =~= now.push(held));
                assert(now.push(held).drop_last() =~= now);
                assert(g.name@ == g@.name);
                graph.add_function(g);
                assert(functions_of(*graph) =~= had.insert(held.name, held));
            },
            None => {
                assert(all[i as int] is None);
            },
        }
        i += 1;
    }
    assert(all.take(i as int) =~= all);
    let mut traits: Vec<String> = Vec::new();
    match &m.trait_path {
        Some(t) => {
            push_text(&mut traits, t.as_str());
        },
        None => {},
    }
    assert(texts(traits@) =~= impl_text(m@, path@).traits);
    let info: ImplInfo = ImplInfo {
        target_type: m.target_type.clone(),
        generics: clone_texts(&m.generics),
        where_clause: copy_option(&m.where_clause),
        methods,
        traits,
        path: path.to_owned(),
    };
    assert(info@ == impl_text(m@, path@));
    graph.add_impl(info);
    assert(impls_of(*graph) =~= had_impls.insert(m.target_type@, impl_text(m@, path@)));
}

/// Imports by file, with more of a file behind those that it has.
pub open spec fn with_imports(
    imports: Map<Seq<char>, Seq<ImportText>>,
    path: Seq<char>,
    more: Seq<ImportText>,
) -> Map<Seq<char>, Seq<ImportText>> {
    if more.len() == 0 {
        imports
    } else if imports.dom().contains(path) {
        imports.insert(path, imports[path] + more)
    } else {
        imports.insert(path, more)
    }
}

/// Notes the imports of a `use` item of a file.
pub fn record_use(graph: &mut CodeGraph, tree: &UseModel, path: &str)
    requires
        old(graph).wf(),
    ensures
        final(graph).wf(),
        imports_of(*final(graph)) == with_imports(
            imports_of(*old(graph)),
            path@,
            tree_imports(Seq::empty(), tree@),
        ),
        final(graph).structs == old(graph).structs,
        final(graph).functions == old(graph).functions,
        final(graph).impls == old(graph).impls,
        final(graph).traits == old(graph).traits,
        final(graph).unresolved_calls == old(graph).unresolved_calls,
{
    let ghost was = *graph;
    let mut imports: Vec<ImportInfo> = Vec::new();
    proof {
        reveal_strlit("");
        assert(""@ =~= Seq::<char>::empty());
        assert(import_texts(imports@) =~= Seq::<ImportText>::empty());
    }
    collect_use_tree("", tree, &mut imports);
    let ghost more = tree_imports(Seq::empty(), tree@);
    assert(import_texts(imports@) =~= more);
    assert(import_texts(imports@).len() == imports@.len());
    if imports.len() > 0 {
        graph.add_imports(path, imports);
        let ghost had = imports_of(was);
        assert forall|p: Seq<char>| #[trigger] imports_of(*graph).dom().contains(p) implies
            imports_of(*graph)[p] == with_imports(had, path@, more)[p] by {
            assert(imports_of(*graph)[p] == graph.imports_of(p));
            if was.file_imports@.dom().contains(p) {
                assert(had[p] == was.imports_of(p));
            }
        }
        assert(imports_of(*graph) =~= with_imports(had, path@, more));
    }
}

/// What a graph holds that the items of a file are noted in: functions, implementations and the
/// imports of files.
pub struct GraphText {
    pub functions: Map<Seq<char>, FunctionText>,
    pub impls: Map<Seq<char>, ImplInfoText>,
    pub imports: Map<Seq<char>, Seq<ImportText>>,
}

/// What a graph holds.
pub open spec fn graph_text(g: CodeGraph) -> GraphText {
    GraphText { functions: functions_of(g), impls: impls_of(g), imports: imports_of(g) }
}

/// A graph that holds nothing.
pub open spec fn no_graph() -> GraphText {
    GraphText { functions: Map::empty(), impls: Map::empty(), imports: Map::empty() }
}

/// A graph with an item of a file noted.
pub open spec fn with_model(g: GraphText, m: ModelText, path: Seq<char>) -> GraphText {
    match m {
        ModelText::Function(f) => GraphText {
            functions: g.functions.insert(
                f.function.name,
                function_text(f.function, path, None),
            ),
            ..g
        },
        ModelText::Impl(i) => GraphText {
            functions: with_methods(
                g.functions,
                method_texts(i.members, i.target_type, path),
            ),
            impls: g.impls.insert(i.target_type, impl_text(i, path)),
            ..g
        },
        ModelText::Use(t) => GraphText {
            imports: with_imports(g.imports, path, tree_imports(Seq::empty(), t)),
            ..g
        },
        ModelText::Struct { name: _, visibility: _, span: _ } => g,
        ModelText::Trait { name: _, span: _ } => g,
    }
}

/// A graph with the items of a file noted in turn.
pub open spec fn with_models(g: GraphText, models: Seq<ModelText>, path: Seq<char>) -> GraphText
    decreases models.len(),
{
    if models.len() == 0 {
        g
    } else {
        with_model(with_models(g, models.drop_last(), path), models.last(), path)
    }
}

/// Notes the items of a file in turn.
pub fn record_models(graph: &mut CodeGraph, models: &[ItemModel], path: &str)
    requires
        old(graph).wf(),
    ensures
        final(graph).wf(),
        graph_text(*final(graph)) == with_models(
            graph_text(*old(graph)),
            model_texts(models@),
            path@,
        ),
        final(graph).structs == old(graph).structs,
        final(graph).traits == old(graph).traits,
        final(graph).unresolved_calls == old(graph).unresolved_calls,
{
    let ghost all = model_texts(models@);
    let ghost start = graph_text(*graph);
    let mut i: usize = 0;
    while i < models.len()
        invariant
            i <= models@.len(),
            graph.wf(),
            graph_text(*graph) == with_models(start, all.take(i as int), path@),
            graph.structs == old(graph).structs,
            graph.traits == old(graph).traits,
            graph.unresolved_calls == old(graph).unresolved_calls,
        decreases models@.len() - i,
    {
        assert(all.take(i + 1).drop_last() =~= all.take(i as int));
        assert(all.take(i + 1).last() == models@[i as int]@);
        match &models[i] {
            ItemModel::Function(f) => {
                record_function(graph, &f.function, path);
            },
            ItemModel::Impl(m) => {
                record_impl(graph, m, path);
            },
            ItemModel::Use(tree) => {
                record_use(graph, tree, path);
            },
            ItemModel::Struct { name: _, visibility: _, span: _ } => {},
            ItemModel::Trait { name: _, span: _ } => {},
        }
        i += 1;
    }
    assert(all.take(i as int) =~= all);
}

/// The graph of a source file; none where it does not parse.
pub fn analyze_source(content: &str, path: &str) -> (r: Option<CodeGraph>)
    ensures
        match source_models(content@) {
            Some(models) => r matches Some(g) && g.wf() && graph_text(g) == with_models(
                no_graph(),
                models,
                path@,
            ) && g.structs@.dom().is_empty() && g.traits@.dom().is_empty()
                && g.unresolved_calls@.dom().is_empty(),
            None => r is None,
        },
{
    match parse_models(content) {
        Some(models) => {
            let mut graph: CodeGraph = CodeGraph::new();
            assert(functions_of(graph) =~= Map::empty());
            assert(impls_of(graph) =~= Map::empty());
            assert(imports_of(graph) =~= Map::empty());
            record_models(&mut graph, &models, path);
            Some(graph)
        },
        None => None,
    }
}

/// Whether the walk leaves a directory of this name out.
pub open spec fn is_skipped_dir(name: Seq<char>) -> bool {
    ||| name == "target"@
    ||| name == "node_modules"@
    ||| name == ".git"@
    ||| name == ".cargo"@
    ||| name == ".idea"@
    ||| name == ".vscode"@
}

/// Whether the walk leaves a directory of this name out.
pub fn skips_dir(name: &str) -> (r: bool)
    ensures
        r == is_skipped_dir(name@),
{
    same(name, "target") || same(name, "node_modules") || same(name, ".git") || same(name, ".cargo")
        || same(name, ".idea") || same(name, ".vscode")
}

/// Whether a path is that of a Rust file.
pub fn is_rust_file(path: &str) -> (r: bool)
    ensures
        r == (path_extension(path@) == Some("rs"@)),
{
    has_extension(path, "rs")
}

} // verus!
