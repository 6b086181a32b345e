//! Graphs of the structs, functions, implementations and traits of a project.

use vstd::prelude::*;
use vstd::utf8::encode_utf8;
use crate::common::{calc_stats, word_count, TextStats};
use crate::ordered::{ascending, in_order, insert_text, lemma_push_contains, sort_distinct, TextMap};
use crate::models::{use_texts, UseModel, UseText};
use crate::path::{relative, relative_to};
use crate::text::{
    chars_of, ends_with, lines, lines_of, opt_text, same, starts_with, string_of, texts,
};
use crate::wcg_calls::{is_ignored, is_ignored_call};

verus! {

/// A struct.
#[derive(Debug, PartialEq, Eq)]
pub struct StructInfo {
    pub name: String,
    pub fields: Vec<FieldInfo>,
    pub generics: Vec<String>,
    pub where_clause: Option<String>,
    pub attributes: Vec<String>,
    pub visibility: String,
    pub path: String,
}

/// A field of a struct.
#[derive(Debug, PartialEq, Eq)]
pub struct FieldInfo {
    pub name: String,
    pub type_str: String,
    pub visibility: String,
    pub attributes: Vec<String>,
}

/// A function or a method, with its calls in order.
#[derive(Debug, PartialEq, Eq)]
pub struct FunctionInfo {
    pub name: String,
    pub signature: String,
    pub return_type: Option<String>,
    pub parameters: Vec<ParamInfo>,
    pub calls: Vec<String>,
    pub generics: Vec<String>,
    pub where_clause: Option<String>,
    pub attributes: Vec<String>,
    pub visibility: String,
    pub asyncness: bool,
    pub unsafeness: bool,
    pub constness: bool,
    pub path: String,
    pub in_impl: Option<String>,
}

/// A parameter of a function.
#[derive(Debug, PartialEq, Eq)]
pub struct ParamInfo {
    pub name: String,
    pub type_str: String,
    pub is_self: bool,
}

/// An implementation.
#[derive(Debug, PartialEq, Eq)]
pub struct ImplInfo {
    pub target_type: String,
    pub generics: Vec<String>,
    pub where_clause: Option<String>,
    pub methods: Vec<FunctionInfo>,
    pub traits: Vec<String>,
    pub path: String,
}

/// A trait.
#[derive(Debug, PartialEq, Eq)]
pub struct TraitInfo {
    pub name: String,
    pub methods: Vec<FunctionInfo>,
    pub generics: Vec<String>,
    pub where_clause: Option<String>,
    pub super_traits: Vec<String>,
    pub path: String,
}

/// An import of a file.
#[derive(Debug, PartialEq, Eq)]
pub struct ImportInfo {
    pub full_path: String,
    pub alias: Option<String>,
    pub last_segment: String,
    pub is_glob: bool,
}

/// What an `ImportInfo` holds.
pub struct ImportText {
    pub full_path: Seq<char>,
    pub alias: Option<Seq<char>>,
    pub last_segment: Seq<char>,
    pub is_glob: bool,
}

impl View for ImportInfo {
    type V = ImportText;

    open spec fn view(&self) -> ImportText {
        ImportText {
            full_path: self.full_path@,
            alias: opt_text(self.alias),
            last_segment: self.last_segment@,
            is_glob: self.is_glob,
        }
    }
}

pub open spec fn import_texts(v: Seq<ImportInfo>) -> Seq<ImportText> {
    v.map_values(|i: ImportInfo| i@)
}

/// A name behind a path.
pub open spec fn qualified(prefix: Seq<char>, ident: Seq<char>) -> Seq<char> {
    if prefix.len() == 0 {
        ident
    } else {
        prefix + "::"@ + ident
    }
}

fn qualify(prefix: &str, ident: &str) -> (r: String)
    ensures
        r@ == qualified(prefix@, ident@),
{
    if prefix.is_empty() {
        return ident.to_owned();
    }
    let mut out: String = prefix.to_owned();
    out.append("::");
    out.append(ident);
    out
}

/// The imports that a `use` tree behind `prefix` makes, in order.
pub open spec fn tree_imports(prefix: Seq<char>, tree: UseText) -> Seq<ImportText>
    decreases tree,
{
    match tree {
        UseText::Path { ident, tree } => tree_imports(qualified(prefix, ident), *tree),
        UseText::Name(ident) => seq![
            ImportText {
                full_path: qualified(prefix, ident),
                alias: None,
                last_segment: ident,
                is_glob: false,
            },
        ],
        UseText::Rename { ident, rename } => seq![
            ImportText {
                full_path: qualified(prefix, ident),
                alias: Some(rename),
                last_segment: ident,
                is_glob: false,
            },
        ],
        UseText::Glob => seq![
            ImportText {
                full_path: prefix + "::*"@,
                alias: None,
                last_segment: "*"@,
                is_glob: true,
            },
        ],
        UseText::Group(items) => group_imports(prefix, items),
    }
}

/// The imports of the trees of a group, in order.
pub open spec fn group_imports(prefix: Seq<char>, items: Seq<UseText>) -> Seq<ImportText>
    decreases items,
{
    if items.len() == 0 {
        Seq::empty()
    } else {
        tree_imports(prefix, items[0]) + group_imports(prefix, items.subrange(1, items.len() as int))
    }
}

/// Adds the imports that a `use` tree behind `prefix` makes.
pub fn collect_use_tree(prefix: &str, tree: &UseModel, out: &mut Vec<ImportInfo>)
    ensures
        import_texts(final(out)@) == import_texts(old(out)@) + tree_imports(prefix@, tree@),
    decreases tree,
{
    let ghost was = import_texts(out@);
    match tree {
        UseModel::Path { ident, tree } => {
            let next: String = qualify(prefix, ident.as_str());
            collect_use_tree(next.as_str(), tree, out);
        },
        UseModel::Name(ident) => {
            out.push(
                ImportInfo {
                    full_path: qualify(prefix, ident.as_str()),
                    alias: None,
                    last_segment: ident.clone(),
                    is_glob: false,
                },
            );
            assert(import_texts(out@) =~= was + tree_imports(prefix@, tree@));
        },
        UseModel::Rename { ident, rename } => {
            out.push(
                ImportInfo {
                    full_path: qualify(prefix, ident.as_str()),
                    alias: Some(rename.clone()),
                    last_segment: ident.clone(),
                    is_glob: false,
                },
            );
            assert(import_texts(out@) =~= was + tree_imports(prefix@, tree@));
        },
        UseModel::Glob => {
            let mut full_path: String = prefix.to_owned();
            full_path.append("::*");
            out.push(
                ImportInfo { full_path, alias: None, last_segment: "*".to_owned(), is_glob: true },
            );
            assert(import_texts(out@) =~= was + tree_imports(prefix@, tree@));
        },
        UseModel::Group(items) => {
            let mut i: usize = 0;
            assert(items@.subrange(0, items@.len() as int) =~= items@);
            assert(tree@ == UseText::Group(use_texts(items@)));
            while i < items.len()
                invariant
                    i <= items@.len(),
                    import_texts(out@) + group_imports(
                        prefix@,
                        use_texts(items@.subrange(i as int, items@.len() as int)),
                    ) == was + tree_imports(prefix@, tree@),
                decreases items@.len() - i,
            {
                let ghost now = import_texts(out@);
                let ghost rest = items@.subrange(i as int, items@.len() as int);
                assert(rest[0] == items@[i as int]);
                assert(rest.subrange(1, rest.len() as int) =~= items@.subrange(
                    i + 1,
                    items@.len() as int,
                ));
                let ghost views = use_texts(rest);
                assert(views[0] == items@[i as int]@);
                assert(views.subrange(1, views.len() as int) =~= use_texts(
                    items@.subrange(i + 1, items@.len() as int),
                ));
                collect_use_tree(prefix, &items[i], out);
                assert(import_texts(out@) + group_imports(
                    prefix@,
                    use_texts(items@.subrange(i + 1, items@.len() as int)),
                ) =~= now + group_imports(prefix@, views));
                i += 1;
            }
            assert(import_texts(out@) + group_imports(
                prefix@,
                use_texts(items@.subrange(i as int, items@.len() as int)),
            ) =~= import_texts(out@));
        },
    }
}

/// Whether a call may be what an import brings in: by its alias, by its last part, or because the
/// import brings everything in.
pub open spec fn import_matches(i: ImportText, call: Seq<char>) -> bool {
    i.alias == Some(call) || i.last_segment == call || i.is_glob
}

/// Whether a call may be what an import brings in.
pub fn import_matches_call(import: &ImportInfo, call: &str) -> (r: bool)
    ensures
        r == import_matches(import@, call@),
{
    let by_alias: bool = match &import.alias {
        Some(a) => same(a.as_str(), call),
        None => false,
    };
    by_alias || same(import.last_segment.as_str(), call) || import.is_glob
}

/// `s` without the `end`s that end it.
pub open spec fn without_suffix(s: Seq<char>, end: Seq<char>) -> Seq<char>
    decreases s.len(),
{
    if end.len() > 0 && end.is_suffix_of(s) {
        without_suffix(s.take(s.len() - end.len()), end)
    } else {
        s
    }
}

fn trim_suffix(s: &str, end: &str) -> (r: String)
    ensures
        r@ == without_suffix(s@, end@),
    decreases s@.len(),
{
    let cs: Vec<char> = chars_of(s);
    let es: Vec<char> = chars_of(end);
    if es.len() > 0 && ends_with(s, end) {
        let n: usize = cs.len() - es.len();
        let rest: String = string_of(&cs, 0, n);
        assert(rest@ =~= s@.take(s@.len() - end@.len()));
        trim_suffix(rest.as_str(), end)
    } else {
        s.to_owned()
    }
}

/// The full name of a call that an import brings in.
pub open spec fn call_behind(i: ImportText, call: Seq<char>) -> Seq<char> {
    if i.is_glob {
        without_suffix(i.full_path, "::*"@) + "::"@ + call
    } else {
        i.full_path
    }
}

/// The full name of a call that an import brings in.
pub fn qualify_call_from_import(import: &ImportInfo, call: &str) -> (r: String)
    ensures
        r@ == call_behind(import@, call@),
{
    if import.is_glob {
        let mut out: String = trim_suffix(import.full_path.as_str(), "::*");
        out.append("::");
        out.append(call);
        out
    } else {
        import.full_path.clone()
    }
}

/// The imports that a map of them has for a file.
pub open spec fn imports_in(
    m: Map<Seq<char>,
    Vec<ImportInfo>>,
    path: Seq<char>,
) -> Seq<ImportText> {
    if m.dom().contains(path) {
        import_texts(m[path]@)
    } else {
        Seq::empty()
    }
}

/// A graph.
#[derive(Debug, PartialEq, Eq)]
pub struct CodeGraph {
    pub structs: TextMap<StructInfo>,
    pub functions: TextMap<FunctionInfo>,
    pub impls: TextMap<ImplInfo>,
    pub traits: TextMap<TraitInfo>,
    pub unresolved_calls: TextMap<Vec<String>>,
    pub file_imports: TextMap<Vec<ImportInfo>>,
}

/// The call that an import of a file makes known, from import `i` on: under its full name, or
/// under its own.
pub open spec fn imported_call(
    imports: Seq<ImportText>,
    known: Set<Seq<char>>,
    call: Seq<char>,
    i: int,
) -> Option<Seq<char>>
    decreases imports.len() - i,
{
    if i >= imports.len() {
        None
    } else if !import_matches(imports[i], call) {
        imported_call(imports, known, call, i + 1)
    } else if known.contains(call_behind(imports[i], call)) {
        Some(call_behind(imports[i], call))
    } else if known.contains(call) {
        Some(call)
    } else {
        imported_call(imports, known, call, i + 1)
    }
}

impl CodeGraph {
    pub open spec fn wf(&self) -> bool {
        &&& self.structs.wf()
        &&& self.functions.wf()
        &&& self.impls.wf()
        &&& self.traits.wf()
        &&& self.unresolved_calls.wf()
        &&& self.file_imports.wf()
    }

    /// The names of the functions and traits.
    pub open spec fn known(&self) -> Set<Seq<char>> {
        self.functions@.dom().union(self.traits@.dom())
    }

    pub fn new() -> (r: CodeGraph)
        ensures
            r.wf(),
            r.structs@ == Map::<Seq<char>, StructInfo>::empty(),
            r.functions@ == Map::<Seq<char>, FunctionInfo>::empty(),
            r.impls@ == Map::<Seq<char>, ImplInfo>::empty(),
            r.traits@ == Map::<Seq<char>, TraitInfo>::empty(),
            r.unresolved_calls@ == Map::<Seq<char>, Vec<String>>::empty(),
            r.file_imports@ == Map::<Seq<char>, Vec<ImportInfo>>::empty(),
    {
        CodeGraph {
            structs: TextMap::new(),
            functions: TextMap::new(),
            impls: TextMap::new(),
            traits: TextMap::new(),
            unresolved_calls: TextMap::new(),
            file_imports: TextMap::new(),
        }
    }

    /// Takes a struct up under its name.
    pub fn add_struct(&mut self, struct_info: StructInfo)
        requires
            old(self).wf(),
        ensures
            final(self).wf(),
            final(self).structs@ == old(self).structs@.insert(struct_info.name@, struct_info),
            final(self).functions == old(self).functions,
            final(self).impls == old(self).impls,
            final(self).traits == old(self).traits,
            final(self).unresolved_calls == old(self).unresolved_calls,
            final(self).file_imports == old(self).file_imports,
    {
        let name: String = struct_info.name.clone();
        self.structs.insert(name.as_str(), struct_info);
    }

    /// Takes a function up under its name.
    pub fn add_function(&mut self, func_info: FunctionInfo)
        requires
            old(self).wf(),
        ensures
            final(self).wf(),
            final(self).functions@ == old(self).functions@.insert(func_info.name@, func_info),
            final(self).structs == old(self).structs,
            final(self).impls == old(self).impls,
            final(self).traits == old(self).traits,
            final(self).unresolved_calls == old(self).unresolved_calls,
            final(self).file_imports == old(self).file_imports,
    {
        let name: String = func_info.name.clone();
        self.functions.insert(name.as_str(), func_info);
    }

    /// Takes an implementation up under the type that it is for.
    pub fn add_impl(&mut self, impl_info: ImplInfo)
        requires
            old(self).wf(),
        ensures
            final(self).wf(),
            final(self).impls@ == old(self).impls@.insert(impl_info.target_type@, impl_info),
            final(self).structs == old(self).structs,
            final(self).functions == old(self).functions,
            final(self).traits == old(self).traits,
            final(self).unresolved_calls == old(self).unresolved_calls,
            final(self).file_imports == old(self).file_imports,
    {
        let name: String = impl_info.target_type.clone();
        self.impls.insert(name.as_str(), impl_info);
    }

    /// Takes a trait up under its name.
    pub fn add_trait(&mut self, trait_info: TraitInfo)
        requires
            old(self).wf(),
        ensures
            final(self).wf(),
            final(self).traits@ == old(self).traits@.insert(trait_info.name@, trait_info),
            final(self).structs == old(self).structs,
            final(self).functions == old(self).functions,
            final(self).impls == old(self).impls,
            final(self).unresolved_calls == old(self).unresolved_calls,
            final(self).file_imports == old(self).file_imports,
    {
        let name: String = trait_info.name.clone();
        self.traits.insert(name.as_str(), trait_info);
    }

    /// The imports of a file.
    pub open spec fn imports_of(&self, path: Seq<char>) -> Seq<ImportText> {
        imports_in(self.file_imports@, path)
    }

    /// The call that an import of the caller's file makes known.
    pub fn resolve_imported_call(&self, path: &str, call: &str) -> (r: Option<String>)
        requires
            self.wf(),
        ensures
            opt_text(r) == imported_call(self.imports_of(path@), self.known(), call@, 0),
    {
        match self.file_imports.get(path) {
            Some(imports) => {
                let ghost all = import_texts(imports@);
                let mut i: usize = 0;
                while i < imports.len()
                    invariant
                        i <= imports@.len(),
                        imported_call(all, self.known(), call@, i as int) == imported_call(
                            all,
                            self.known(),
                            call@,
                            0,
                        ),
                    decreases imports@.len() - i,
                {
                    assert(all[i as int] == imports@[i as int]@);
                    if import_matches_call(&imports[i], call) {
                        let full: String = qualify_call_from_import(&imports[i], call);
                        if self.knows(full.as_str()) {
                            return Some(full);
                        }
                        if self.knows(call) {
                            return Some(call.to_owned());
                        }
                    }
                    i += 1;
                }
                None
            },
            None => None,
        }
    }

    fn knows(&self, name: &str) -> (r: bool)
        requires
            self.wf(),
        ensures
            r == self.known().contains(name@),
    {
        self.functions.contains_key(name) || self.traits.contains_key(name)
    }

    /// What a call in a file is resolved to: a function, a trait, or what an import brings in.
    pub open spec fn resolution(&self, path: Seq<char>, call: Seq<char>) -> Option<Seq<char>> {
        if self.functions@.dom().contains(call) {
            Some(call)
        } else if self.traits@.dom().contains(call) {
            Some("trait::"@ + call)
        } else {
            imported_call(self.imports_of(path), self.known(), call, 0)
        }
    }

    fn resolve(&self, path: &str, call: &str) -> (r: Option<String>)
        requires
            self.wf(),
        ensures
            opt_text(r) == self.resolution(path@, call@),
    {
        if self.functions.contains_key(call) {
            Some(call.to_owned())
        } else if self.traits.contains_key(call) {
            let mut out: String = "trait::".to_owned();
            out.append(call);
            Some(out)
        } else {
            self.resolve_imported_call(path, call)
        }
    }

    /// Whether `target` is what one of the calls, those left out aside, is resolved to.
    pub open spec fn is_target(
        &self,
        path: Seq<char>,
        calls: Seq<Seq<char>>,
        target: Seq<char>,
    ) -> bool {
        exists|i: int|
            0 <= i < calls.len() && !is_ignored(calls[i]) && self.resolution(
                path,
                #[trigger] calls[i],
            ) == Some(target)
    }

    /// Whether `call` is one of the calls, those left out aside, and cannot be resolved.
    pub open spec fn is_lost(
        &self,
        path: Seq<char>,
        calls: Seq<Seq<char>>,
        call: Seq<char>,
    ) -> bool {
        calls.contains(call) && !is_ignored(call) && self.resolution(path, call) is None
    }

    /// What the calls of a function are resolved to, in order, and those that cannot be resolved.
    pub fn sort_out_calls(&self, path: &str, calls: &[String]) -> (r: (Vec<String>, Vec<String>))
        requires
            self.wf(),
        ensures
            ascending(texts(r.0@)),
            ascending(texts(r.1@)),
            forall|t: Seq<char>| #[trigger]
                texts(r.0@).contains(t) <==> self.is_target(path@, texts(calls@), t),
            forall|t: Seq<char>| #[trigger]
                texts(r.1@).contains(t) <==> self.is_lost(path@, texts(calls@), t),
    {
        let ghost all = texts(calls@);
        let mut found: Vec<String> = Vec::new();
        let mut lost: Vec<String> = Vec::new();
        let mut i: usize = 0;
        while i < calls.len()
            invariant
                i <= calls@.len(),
                ascending(texts(found@)),
                ascending(texts(lost@)),
                forall|t: Seq<char>| #[trigger]
                    texts(found@).contains(t) <==> self.is_target(path@, all.take(i as int), t),
                forall|t: Seq<char>| #[trigger]
                    texts(lost@).contains(t) <==> self.is_lost(path@, all.take(i as int), t),
            decreases calls@.len() - i,
        {
            let ghost had = texts(found@);
            let ghost missed = texts(lost@);
            let ghost c = calls@[i as int]@;
            let ghost now = all.take(i + 1);
            assert(now =~= all.take(i as int).push(c));
            if !is_ignored_call(calls[i].as_str()) {
                match self.resolve(path, calls[i].as_str()) {
                    Some(t) => {
                        insert_text(&mut found, t.as_str());
                    },
                    None => {
                        insert_text(&mut lost, calls[i].as_str());
                    },
                }
            }
            proof {
                assert forall|t: Seq<char>| #[trigger] texts(found@).contains(t) <==> self.is_target(
                    path@,
                    now,
                    t,
                ) by {
                    lemma_target_step(*self, path@, all.take(i as int), c, t);
                    assert(had.contains(t) <==> self.is_target(path@, all.take(i as int), t));
                }
                assert forall|t: Seq<char>| #[trigger] texts(lost@).contains(t) <==> self.is_lost(
                    path@,
                    now,
                    t,
                ) by {
                    lemma_push_contains(all.take(i as int), c, t);
                    assert(missed.contains(t) <==> self.is_lost(path@, all.take(i as int), t));
                }
            }
            i += 1;
        }
        assert(all.take(i as int) =~= all);
        (found, lost)
    }

    /// Whether `g` is `f` with its calls replaced by what they are resolved to, in order.
    pub open spec fn resolved(&self, f: FunctionInfo, g: FunctionInfo) -> bool {
        &&& g == (FunctionInfo { calls: g.calls, ..f })
        &&& ascending(texts(g.calls@))
        &&& forall|t: Seq<char>| #[trigger]
            texts(g.calls@).contains(t) <==> self.is_target(f.path@, texts(f.calls@), t)
    }

    /// Whether `lost` holds the calls of `f` that cannot be resolved, in order.
    pub open spec fn lists_lost(&self, f: FunctionInfo, lost: Seq<Seq<char>>) -> bool {
        &&& ascending(lost)
        &&& forall|t: Seq<char>| #[trigger]
            lost.contains(t) <==> self.is_lost(f.path@, texts(f.calls@), t)
    }

    /// Whether some call of `f` cannot be resolved.
    pub open spec fn loses(&self, f: FunctionInfo) -> bool {
        exists|t: Seq<char>| #[trigger] self.is_lost(f.path@, texts(f.calls@), t)
    }

    /// Replaces the calls of each function by what they are resolved to, and lists under its name
    /// those that cannot be resolved.
    pub fn resolve_calls(&mut self)
        requires
            old(self).wf(),
        ensures
            final(self).wf(),
            final(self).functions.keys() == old(self).functions.keys(),
            forall|i: int|
                #![trigger final(self).functions.values()[i]]
                0 <= i < old(self).functions.values().len() ==> old(self).resolved(
                    old(self).functions.values()[i],
                    final(self).functions.values()[i],
                ),
            forall|name: Seq<char>| #[trigger]
                final(self).unresolved_calls@.dom().contains(name) <==> old(
                    self,
                ).functions@.dom().contains(name) && old(self).loses(old(self).functions@[name]),
            forall|name: Seq<char>| #[trigger]
                final(self).unresolved_calls@.dom().contains(name) ==> old(self).lists_lost(
                    old(self).functions@[name],
                    texts(final(self).unresolved_calls@[name]@),
                ),
            final(self).structs == old(self).structs,
            final(self).impls == old(self).impls,
            final(self).traits == old(self).traits,
            final(self).file_imports == old(self).file_imports,
    {
        let ghost was = *self;
        let n: usize = self.functions.len();
        let mut found: Vec<Vec<String>> = Vec::new();
        let mut unresolved: TextMap<Vec<String>> = TextMap::new();
        let mut i: usize = 0;
        proof {
            self.functions.lemma_entries();
        }
        while i < n
            invariant
                i <= n,
                found@.len() == i,
                unresolved.wf(),
                forall|j: int|
                    0 <= j < i ==> ascending(texts((#[trigger] found@[j])@)) && forall|t: Seq<char>|
                        #[trigger]
                        texts(found@[j]@).contains(t) <==> was.is_target(
                            was.functions.values()[j].path@,
                            texts(was.functions.values()[j].calls@),
                            t,
                        ),
                forall|name: Seq<char>| #[trigger]
                    unresolved@.dom().contains(name) <==> was.functions.keys().take(i as int).contains(
                        name,
                    ) && was.loses(was.functions@[name]),
                forall|name: Seq<char>| #[trigger]
                    unresolved@.dom().contains(name) ==> was.lists_lost(
                        was.functions@[name],
                        texts(unresolved@[name]@),
                    ),
            decreases n - i,
        {
            let f: &FunctionInfo = self.functions.value_at(i);
            let (targets, lost) = self.sort_out_calls(f.path.as_str(), &f.calls);
            let name: &String = self.functions.key_at(i);
            assert(was.functions@[was.functions.keys()[i as int]] == *f);
            assert(was.functions.keys().take(i + 1) =~= was.functions.keys().take(i as int).push(
                name@,
            ));
            let ghost seen = unresolved@;
            let ghost list = texts(lost@);
            assert(was.lists_lost(*f, list));
            if lost.len() > 0 {
                assert(list.contains(list[0]));
                assert(was.loses(*f));
                unresolved.insert(name.as_str(), lost);
            } else {
                assert(!was.loses(*f)) by {
                    if was.loses(*f) {
                        let t = choose|t: Seq<char>| #[trigger]
                            was.is_lost(f.path@, texts(f.calls@), t);
                        assert(list.contains(t));
                    }
                }
            }
            proof {
                assert forall|k: Seq<char>| #[trigger]
                    was.functions.keys().take(i + 1).contains(k) <==> was.functions.keys().take(
                        i as int,
                    ).contains(k) || k == name@ by {
                    lemma_push_contains(
                        was.functions.keys().take(i as int),
                        name@,
                        k,
                    );
                }
            }
            found.push(targets);
            i += 1;
        }
        assert(was.functions.keys().take(i as int) =~= was.functions.keys());
        self.unresolved_calls = unresolved;
        while i > 0
            invariant
                i <= n,
                found@.len() == i,
                self.wf(),
                self.unresolved_calls == unresolved,
                self.structs == was.structs,
                self.impls == was.impls,
                self.traits == was.traits,
                self.file_imports == was.file_imports,
                self.functions.keys() == was.functions.keys(),
                forall|j: int|
                    0 <= j < i ==> self.functions.values()[j] == was.functions.values()[j],
                forall|j: int|
                    i <= j < n ==> was.resolved(
                        was.functions.values()[j],
                        #[trigger] self.functions.values()[j],
                    ),
                forall|j: int|
                    0 <= j < i ==> ascending(texts((#[trigger] found@[j])@)) && forall|t: Seq<char>|
                        #[trigger]
                        texts(found@[j]@).contains(t) <==> was.is_target(
                            was.functions.values()[j].path@,
                            texts(was.functions.values()[j].calls@),
                            t,
                        ),
            decreases i,
        {
            i -= 1;
            match found.pop() {
                Some(targets) => {
                    let f: &mut FunctionInfo = self.functions.value_mut(i);
                    f.calls = targets;
                },
                None => {},
            }
        }
    }

    /// Notes imports of a file behind those that it has.
    pub fn add_imports(&mut self, path: &str, imports: Vec<ImportInfo>)
        requires
            old(self).wf(),
        ensures
            final(self).wf(),
            final(self).file_imports@.dom() == old(self).file_imports@.dom().insert(path@),
            final(self).imports_of(path@) == old(self).imports_of(path@) + import_texts(imports@),
            forall|p: Seq<char>|
                p != path@ ==> #[trigger] final(self).imports_of(p) == old(self).imports_of(p),
            final(self).structs == old(self).structs,
            final(self).functions == old(self).functions,
            final(self).impls == old(self).impls,
            final(self).traits == old(self).traits,
            final(self).unresolved_calls == old(self).unresolved_calls,
    {
        let ghost was = self.file_imports;
        let ghost held = import_texts(imports@);
        let mut imports: Vec<ImportInfo> = imports;
        match self.file_imports.index_of(path) {
            Some(i) => {
                let list: &mut Vec<ImportInfo> = self.file_imports.value_mut(i);
                list.append(&mut imports);
                proof {
                    self.file_imports.lemma_value_changed(was, i as int);
                    was.lemma_entries();
                }
            },
            None => {
                self.file_imports.insert(path, imports);
            },
        }
        assert(self.imports_of(path@) =~= old(self).imports_of(path@) + held);
    }

    /// Notes an import of a file.
    pub fn add_import(&mut self, path: &str, import: ImportInfo)
        requires
            old(self).wf(),
        ensures
            final(self).wf(),
            final(self).file_imports@.dom() == old(self).file_imports@.dom().insert(path@),
            final(self).imports_of(path@) == old(self).imports_of(path@).push(import@),
            forall|p: Seq<char>|
                p != path@ ==> #[trigger] final(self).imports_of(p) == old(self).imports_of(p),
            final(self).structs == old(self).structs,
            final(self).functions == old(self).functions,
            final(self).impls == old(self).impls,
            final(self).traits == old(self).traits,
            final(self).unresolved_calls == old(self).unresolved_calls,
    {
        let ghost held = import@;
        let mut list: Vec<ImportInfo> = Vec::new();
        list.push(import);
        assert(import_texts(list@) =~= seq![held]);
        self.add_imports(path, list);
    }

    /// The line that an import is printed as.
    pub open spec fn import_line(i: ImportText) -> Seq<char> {
        match i.alias {
            Some(a) => "use "@ + i.full_path + " as "@ + a + ";"@,
            None => "use "@ + i.full_path + ";"@,
        }
    }

    /// The imports of a file as comment lines, each once and in order.
    pub open spec fn imports_text(&self, path: Seq<char>, root: Seq<char>) -> Seq<char> {
        "// imports: "@ + relative(path, root) + "\n"@
            + if self.file_imports@.dom().contains(path) {
            comment_lines(
                in_order(self.imports_of(path).map_values(|i: ImportText| Self::import_line(i))),
            )
        } else {
            "//   (no imports found)\n"@
        } + "\n"@
    }

    /// The imports of a file as comment lines, each once and in order.
    pub fn render_file_imports(&self, path: &str, root: &str) -> (r: String)
        requires
            self.wf(),
        ensures
            r@ == self.imports_text(path@, root@),
    {
        let mut out: String = "// imports: ".to_owned();
        out.append(relative_to(path, root).as_str());
        out.append("\n");
        let mut body: String = String::new();
        match self.file_imports.get(path) {
            Some(imports) => {
                let items: Vec<String> = import_lines(imports);
                let sorted: Vec<String> = sort_distinct(&items);
                body = show_comment_lines(&sorted);
            },
            None => {
                body = "//   (no imports found)\n".to_owned();
            },
        }
        out.append(body.as_str());
        out.append("\n");
        out
    }
}

/// Comment lines with these texts.
pub open spec fn comment_lines(items: Seq<Seq<char>>) -> Seq<char>
    decreases items.len(),
{
    if items.len() == 0 {
        Seq::empty()
    } else {
        comment_lines(items.drop_last()) + "//   "@ + items.last() + "\n"@
    }
}

fn show_comment_lines(items: &[String]) -> (r: String)
    ensures
        r@ == comment_lines(texts(items@)),
{
    let ghost all = texts(items@);
    let mut out: String = String::new();
    let mut i: usize = 0;
    while i < items.len()
        invariant
            i <= items@.len(),
            out@ == comment_lines(all.take(i as int)),
        decreases items@.len() - i,
    {
        assert(all.take(i + 1).drop_last() =~= all.take(i as int));
        assert(all.take(i + 1).last() == items@[i as int]@);
        out.append("//   ");
        out.append(items[i].as_str());
        out.append("\n");
        i += 1;
    }
    assert(all.take(i as int) =~= all);
    out
}

fn import_lines(imports: &[ImportInfo]) -> (r: Vec<String>)
    ensures
        texts(r@) == import_texts(imports@).map_values(
            |i: ImportText| CodeGraph::import_line(i),
        ),
{
    let ghost all = import_texts(imports@).map_values(|i: ImportText| CodeGraph::import_line(i));
    let mut out: Vec<String> = Vec::new();
    let mut i: usize = 0;
    while i < imports.len()
        invariant
            i <= imports@.len(),
            texts(out@) == all.take(i as int),
        decreases imports@.len() - i,
    {
        let ghost now = texts(out@);
        let mut line: String = "use ".to_owned();
        line.append(imports[i].full_path.as_str());
        match &imports[i].alias {
            Some(a) => {
                line.append(" as ");
                line.append(a.as_str());
            },
            None => {},
        }
        line.append(";");
        let ghost held = line@;
        out.push(line);
        assert(texts(out@) =~= now.push(held));
        assert(all.take(i + 1) =~= all.take(i as int).push(all[i as int]));
        i += 1;
    }
    assert(all.take(i as int) =~= all);
    out
}

/// Takes up in `target` what `source` holds; where both have a name, as `source` has it. The
/// imports of a file in `source` follow those in `target`.
pub fn merge_graphs(target: &mut CodeGraph, source: CodeGraph)
    requires
        old(target).wf(),
        source.wf(),
    ensures
        final(target).wf(),
        final(target).structs@ == old(target).structs@.union_prefer_right(source.structs@),
        final(target).functions@ == old(target).functions@.union_prefer_right(source.functions@),
        final(target).impls@ == old(target).impls@.union_prefer_right(source.impls@),
        final(target).traits@ == old(target).traits@.union_prefer_right(source.traits@),
        final(target).unresolved_calls == old(target).unresolved_calls,
        final(target).file_imports@.dom() == old(target).file_imports@.dom().union(
            source.file_imports@.dom(),
        ),
        forall|p: Seq<char>| #[trigger]
            final(target).imports_of(p) == old(target).imports_of(p) + source.imports_of(p),
{
    let CodeGraph { structs, functions, impls, traits, unresolved_calls: _, file_imports } = source;
    target.structs.absorb(structs);
    target.functions.absorb(functions);
    target.impls.absorb(impls);
    target.traits.absorb(traits);
    let mut rest: TextMap<Vec<ImportInfo>> = file_imports;
    let ghost all = rest@;
    loop
        invariant
            target.wf(),
            rest.wf(),
            target.structs@ == old(target).structs@.union_prefer_right(source.structs@),
            target.functions@ == old(target).functions@.union_prefer_right(source.functions@),
            target.impls@ == old(target).impls@.union_prefer_right(source.impls@),
            target.traits@ == old(target).traits@.union_prefer_right(source.traits@),
            target.unresolved_calls == old(target).unresolved_calls,
            target.file_imports@.dom().union(rest@.dom()) == old(target).file_imports@.dom().union(
                all.dom(),
            ),
            forall|p: Seq<char>| #[trigger]
                target.imports_of(p) + imports_in(rest@, p) == old(target).imports_of(p)
                    + imports_in(all, p),
        decreases rest.keys().len(),
    {
        let ghost now = *target;
        let ghost left = rest@;
        match rest.pop() {
            Some((path, list)) => {
                target.add_imports(path.as_str(), list);
                proof {
                    assert(left[path@] == list);
                    assert forall|p: Seq<char>| #[trigger]
                        target.imports_of(p) + imports_in(rest@, p) == old(target).imports_of(p)
                            + imports_in(all, p) by {
                        assert(now.imports_of(p) + imports_in(left, p) == old(target).imports_of(p)
                            + imports_in(all, p));
                        assert(target.imports_of(p) + imports_in(rest@, p) =~= now.imports_of(p)
                            + imports_in(left, p));
                    }
                    assert(target.file_imports@.dom().union(rest@.dom())
                        =~= now.file_imports@.dom().union(left.dom()));
                }
            },
            None => {
                proof {
                    rest.lemma_entries();
                    assert(rest@.dom() =~= Set::empty());
                    assert forall|p: Seq<char>| #[trigger] target.imports_of(p) == old(
                        target,
                    ).imports_of(p) + source.imports_of(p) by {
                        assert(target.imports_of(p) + imports_in(rest@, p) =~= target.imports_of(
                            p,
                        ));
                    }
                    assert(target.file_imports@.dom() =~= target.file_imports@.dom().union(
                        rest@.dom(),
                    ));
                }
                return;
            },
        }
    }
}

proof fn lemma_target_step(
    g: CodeGraph,
    path: Seq<char>,
    calls: Seq<Seq<char>>,
    c: Seq<char>,
    t: Seq<char>,
)
    ensures
        g.is_target(path, calls.push(c), t) <==> g.is_target(path, calls, t) || (!is_ignored(c)
            && g.resolution(path, c) == Some(t)),
{
    let all = calls.push(c);
    if g.is_target(path, calls, t) {
        let i = choose|i: int|
            0 <= i < calls.len() && !is_ignored(calls[i]) && g.resolution(
                path,
                #[trigger] calls[i],
            ) == Some(t);
        assert(all[i] == calls[i]);
    }
    if !is_ignored(c) && g.resolution(path, c) == Some(t) {
        assert(all[calls.len() as int] == c);
    }
    if g.is_target(path, all, t) {
        let i = choose|i: int|
            0 <= i < all.len() && !is_ignored(all[i]) && g.resolution(path, #[trigger] all[i])
                == Some(t);
        if i < calls.len() {
            assert(calls[i] == all[i]);
        }
    }
}

/// Every call of a function that is not left out is either resolved to something or listed as one
/// that cannot be resolved, and never both.
pub proof fn law_calls_are_sorted_out(
    g: CodeGraph,
    path: Seq<char>,
    calls: Seq<Seq<char>>,
    call: Seq<char>,
)
    requires
        calls.contains(call),
        !is_ignored(call),
    ensures
        match g.resolution(path, call) {
            Some(t) => g.is_target(path, calls, t) && !g.is_lost(path, calls, call),
            None => g.is_lost(path, calls, call),
        },
{
    let i = choose|i: int| 0 <= i < calls.len() && calls[i] == call;
    assert(calls[i] == call);
}

/// A call whose name is that of a function is resolved to that function.
pub proof fn law_known_calls_resolve(g: CodeGraph, path: Seq<char>, call: Seq<char>)
    requires
        g.functions@.dom().contains(call),
    ensures
        g.resolution(path, call) == Some(call),
{
}

/// What the arguments switch on.
#[derive(Debug, Clone, Copy, PartialEq, Eq)]
pub struct Switches {
    pub line_numbers: bool,
    pub calls: bool,
    pub fields: bool,
}

/// What is switched on after one more argument, where `c` is what is configured.
pub open spec fn switched(c: Switches, now: Switches, arg: Seq<char>) -> Switches {
    if arg == "-n"@ {
        Switches { line_numbers: !c.line_numbers, ..now }
    } else if arg == "-c"@ {
        Switches { calls: !c.calls, ..now }
    } else if arg == "-f"@ {
        Switches { fields: !c.fields, ..now }
    } else if arg == "--show-calls"@ {
        Switches { calls: true, ..now }
    } else if arg == "--hide-calls"@ {
        Switches { calls: false, ..now }
    } else if arg == "--show-fields"@ {
        Switches { fields: true, ..now }
    } else if arg == "--hide-fields"@ {
        Switches { fields: false, ..now }
    } else {
        now
    }
}

/// What is switched on after the arguments.
pub open spec fn switches(c: Switches, args: Seq<Seq<char>>) -> Switches
    decreases args.len(),
{
    if args.len() == 0 {
        c
    } else {
        switched(c, switches(c, args.drop_last()), args.last())
    }
}

/// What the arguments, those behind the program's name, switch on.
pub fn read_switches(c: Switches, args: &[String]) -> (r: Switches)
    ensures
        r == switches(c, texts(args@)),
{
    let ghost all = texts(args@);
    let mut now: Switches = c;
    let mut i: usize = 0;
    while i < args.len()
        invariant
            i <= args@.len(),
            now == switches(c, all.take(i as int)),
        decreases args@.len() - i,
    {
        assert(all.take(i + 1).drop_last() =~= all.take(i as int));
        assert(all.take(i + 1).last() == args@[i as int]@);
        let a: &str = args[i].as_str();
        if same(a, "-n") {
            now.line_numbers = !c.line_numbers;
        } else if same(a, "-c") {
            now.calls = !c.calls;
        } else if same(a, "-f") {
            now.fields = !c.fields;
        } else if same(a, "--show-calls") {
            now.calls = true;
        } else if same(a, "--hide-calls") {
            now.calls = false;
        } else if same(a, "--show-fields") {
            now.fields = true;
        } else if same(a, "--hide-fields") {
            now.fields = false;
        }
        i += 1;
    }
    assert(all.take(i as int) =~= all);
    now
}

/// The directory that the arguments name: the last one, unless it begins with a dash.
pub open spec fn named_target(args: Seq<Seq<char>>) -> Option<Seq<char>> {
    if args.len() > 0 && !"-"@.is_prefix_of(args.last()) {
        Some(args.last())
    } else {
        None
    }
}

/// The directory that the arguments, those behind the program's name, name.
pub fn target_dir(args: &[String]) -> (r: Option<String>)
    ensures
        opt_text(r) == named_target(texts(args@)),
{
    if args.len() == 0 {
        return None;
    }
    let last: &String = &args[args.len() - 1];
    assert(texts(args@).last() == last@);
    if starts_with(last.as_str(), "-") {
        None
    } else {
        Some(last.clone())
    }
}

/// The size of a text for the clipboard.
#[derive(Debug, Clone, Copy, PartialEq, Eq)]
pub struct ClipboardStats {
    pub lines: usize,
    pub words: usize,
    pub bytes: usize,
}

/// How many lines, words and bytes a text has.
pub fn calc_clipboard_stats(s: &str) -> (r: ClipboardStats)
    ensures
        r.lines == lines(s@).len(),
        r.words == word_count(s@),
        r.bytes == encode_utf8(s@).len(),
{
    let stats: TextStats = calc_stats(s);
    let all: Vec<String> = lines_of(s);
    assert(texts(all@).len() == all@.len());
    ClipboardStats { lines: all.len(), words: stats.words, bytes: stats.bytes }
}

} // verus!
