use wcc::wcg::{
    calc_clipboard_stats, collect_use_tree, import_matches_call, merge_graphs, qualify_call_from_import,
    read_switches, target_dir, CodeGraph, FieldInfo, FunctionInfo, ImportInfo, StructInfo, Switches, TraitInfo,
};
use wcc::wcg_calls::{is_ignored_call, leaves_out, simple_name};
use wcc::wcg_report::{format_clipboard_content, format_report};
use wcc::wcg_scan::{
    extract_function_calls, format_signature, function_info, get_attributes, get_visibility, is_rust_file,
    analyze_source, read_parameters, record_function, record_impl, record_models, skips_dir,
};
use wcc::models::{
    AttrModel, CallModel, FnModel, ImplModel, InputModel, ItemModel, MethodModel, UseModel, VisModel,
};
use wcc::ranges::Span;

fn owned(v: &[&str]) -> Vec<String> {
    v.iter().map(|s| s.to_string()).collect()
}

fn model(name: &str) -> FnModel {
    FnModel {
        name: name.to_string(),
        constness: false,
        asyncness: false,
        unsafeness: false,
        tokens: format!("fn {name} ()"),
        generics_tokens: String::new(),
        inputs: vec![],
        output: None,
        generics: vec![],
        where_clause: None,
        attributes: vec![],
        visibility: VisModel::Inherited,
        calls: vec![],
    }
}

fn calling(name: &str, calls: &[&str]) -> FnModel {
    FnModel {
        calls: calls.iter().map(|c| CallModel::Path(c.split("::").map(|s| s.to_string()).collect())).collect(),
        ..model(name)
    }
}

fn import(path: &str, alias: Option<&str>) -> ImportInfo {
    ImportInfo {
        full_path: path.to_string(),
        alias: alias.map(|a| a.to_string()),
        last_segment: path.rsplit("::").next().unwrap().to_string(),
        is_glob: path.ends_with('*'),
    }
}

#[test]
fn use_trees_are_flattened() {
    let tree = UseModel::Path {
        ident: "a".to_string(),
        tree: Box::new(UseModel::Group(vec![
            UseModel::Name("b".to_string()),
            UseModel::Rename { ident: "c".to_string(), rename: "d".to_string() },
            UseModel::Path { ident: "e".to_string(), tree: Box::new(UseModel::Glob) },
        ])),
    };
    let mut out = vec![];
    collect_use_tree("", &tree, &mut out);
    assert_eq!(out, vec![import("a::b", None), import("a::c", Some("d")), import("a::e::*", None)]);
    collect_use_tree("", &UseModel::Name("x".to_string()), &mut out);
    assert_eq!(out[3], import("x", None));
    collect_use_tree("", &UseModel::Glob, &mut out);
    assert_eq!(out[4].full_path, "::*");
}

#[test]
fn imports_match_calls() {
    let plain = import("a::b", None);
    let renamed = import("a::b", Some("c"));
    let all = import("a::*", None);
    assert!(import_matches_call(&plain, "b") && !import_matches_call(&plain, "c"));
    assert!(import_matches_call(&renamed, "b") && import_matches_call(&renamed, "c"));
    assert!(import_matches_call(&all, "anything"));
    assert_eq!(qualify_call_from_import(&plain, "b"), "a::b");
    assert_eq!(qualify_call_from_import(&renamed, "c"), "a::b");
    assert_eq!(qualify_call_from_import(&all, "x"), "a::x");
}

#[test]
fn names_left_out() {
    assert_eq!(simple_name("a::b::c"), "c");
    assert_eq!(simple_name("c"), "c");
    assert!(leaves_out("Vec::new") && leaves_out("unwrap") && !leaves_out("as_str") && !leaves_out("run"));
    assert!(is_ignored_call("as_str") && is_ignored_call("x::context") && is_ignored_call("Local::now"));
    assert!(!is_ignored_call("now") && !is_ignored_call("run"));
    assert!(is_ignored_call("new") && is_ignored_call("Vec::new") && is_ignored_call("a::b::new"));
    assert!(is_ignored_call("parse_file") && !is_ignored_call("syn::parse_file"));
    assert!(!is_ignored_call("chrono::Local::now"));
    let calls = vec![
        CallModel::Other,
        CallModel::Path(owned(&["b", "run"])),
        CallModel::Method("run".to_string()),
        CallModel::Method("unwrap".to_string()),
        CallModel::Path(owned(&["b", "run"])),
    ];
    assert_eq!(extract_function_calls(&calls), ["b::run", "run"]);
}

#[test]
fn signatures_are_written_out() {
    assert_eq!(format_signature(&model("f")), "fn f ()");
    let m = FnModel {
        constness: true,
        asyncness: true,
        unsafeness: true,
        tokens: "SIG".to_string(),
        generics_tokens: "< T >".to_string(),
        generics: owned(&["T"]),
        inputs: vec![
            InputModel::Receiver { reference: true, mutable: true },
            InputModel::Typed { tokens: "x : T".to_string(), ident: Some("x".to_string()), ty: "T".to_string() },
            InputModel::Typed { tokens: "_ : u8".to_string(), ident: None, ty: "u8".to_string() },
        ],
        output: Some("u8".to_string()),
        ..model("f")
    };
    assert_eq!(format_signature(&m), "const async unsafe fn f SIG . generics (&mut self, x : T, _ : u8) -> u8");
    let ps = read_parameters(&m.inputs);
    let got: Vec<_> = ps.iter().map(|p| (p.name.as_str(), p.type_str.as_str(), p.is_self)).collect();
    assert_eq!(got, vec![("self", "&mut Self", true), ("x", "T", false)]);
    let shared = read_parameters(&[
        InputModel::Receiver { reference: true, mutable: false },
        InputModel::Receiver { reference: false, mutable: false },
    ]);
    assert_eq!((shared[0].type_str.as_str(), shared[1].type_str.as_str()), ("&Self", "Self"));
    let info = function_info(&m, "a.rs", &Some("S".to_string()));
    assert!(info.constness && info.asyncness && info.unsafeness);
    assert_eq!((info.return_type.as_deref(), info.in_impl.as_deref()), (Some("u8"), Some("S")));
}

#[test]
fn visibility_and_attributes() {
    assert_eq!(get_visibility(&VisModel::Public), "pub");
    assert_eq!(get_visibility(&VisModel::Inherited), "private");
    assert_eq!(get_visibility(&VisModel::Restricted("pub (crate)".to_string())), "pub(pub (crate))");
    let attr = |segments: &[&str], tokens: &str| AttrModel { segments: owned(segments), tokens: tokens.to_string() };
    assert_eq!(
        get_attributes(&[attr(&["derive"], "derive"), attr(&["inline"], "inline"), attr(&["a", "derive"], "a :: derive")]),
        ["inline", "a :: derive"]
    );
}

#[test]
fn calls_are_resolved() {
    let mut g = CodeGraph::new();
    record_function(&mut g, &calling("one", &["two", "gone", "x::helper", "Vec::new", "Tr", "far"]), "a.rs");
    record_function(&mut g, &model("two"), "a.rs");
    record_function(&mut g, &model("m::far"), "b.rs");
    g.add_trait(TraitInfo {
        name: "Tr".to_string(),
        methods: vec![],
        generics: vec![],
        where_clause: None,
        super_traits: vec![],
        path: "a.rs".to_string(),
    });
    g.add_import("a.rs", import("m::far", None));
    assert_eq!(g.resolve_imported_call("a.rs", "far"), Some("m::far".to_string()));
    assert_eq!(g.resolve_imported_call("b.rs", "far"), None);
    g.resolve_calls();
    assert_eq!(g.functions.get("one").unwrap().calls, ["m::far", "trait::Tr", "two"]);
    assert_eq!(g.unresolved_calls.len(), 1);
    assert_eq!(g.unresolved_calls.get("one").unwrap(), &owned(&["gone", "x::helper"]));
    let (known, unknown) = g.sort_out_calls("a.rs", &owned(&["two", "what", "len"]));
    assert_eq!((known, unknown), (owned(&["two"]), owned(&["what"])));
}

#[test]
fn globs_resolve_to_what_is_known() {
    let mut g = CodeGraph::new();
    record_function(&mut g, &model("m::f"), "b.rs");
    g.add_import("a.rs", import("m::*", None));
    assert_eq!(g.resolve_imported_call("a.rs", "f"), Some("m::f".to_string()));
    assert_eq!(g.resolve_imported_call("a.rs", "g"), None);
}

#[test]
fn imports_are_listed_once_in_order() {
    let mut g = CodeGraph::new();
    g.add_imports("/p/a.rs", vec![import("b", None), import("a::x", Some("y"))]);
    g.add_import("/p/a.rs", import("b", None));
    assert_eq!(
        g.render_file_imports("/p/a.rs", "/p"),
        "// imports: a.rs\n//   use a::x as y;\n//   use b;\n\n"
    );
    assert_eq!(g.render_file_imports("/q.rs", "/p"), "// imports: /q.rs\n//   (no imports found)\n\n");
}

#[test]
fn graphs_are_merged() {
    let mut a = CodeGraph::new();
    let mut b = CodeGraph::new();
    record_function(&mut a, &model("f"), "a.rs");
    record_function(&mut b, &model("f"), "b.rs");
    record_function(&mut b, &model("g"), "b.rs");
    a.add_import("x.rs", import("i", None));
    b.add_import("x.rs", import("j", None));
    merge_graphs(&mut a, b);
    assert_eq!(a.functions.len(), 2);
    assert_eq!(a.functions.get("f").unwrap().path, "b.rs");
    assert_eq!(a.file_imports.get("x.rs").unwrap().len(), 2);
}

fn small_graph() -> CodeGraph {
    let mut g = CodeGraph::new();
    record_function(&mut g, &FnModel { visibility: VisModel::Public, ..calling("f", &["g", "lost"]) }, "/p/a.rs");
    record_function(&mut g, &model("g"), "/p/a.rs");
    let method = FnModel { inputs: vec![InputModel::Receiver { reference: true, mutable: false }], ..calling("m", &["g"]) };
    record_impl(
        &mut g,
        &ImplModel {
            target_type: "S".to_string(),
            generics: owned(&["T"]),
            where_clause: None,
            members: vec![None, Some(MethodModel { function: method, span: Span::between(1, 0, 1, 9) })],
            trait_path: Some("Tr".to_string()),
        },
        "/p/b.rs",
    );
    g.add_struct(StructInfo {
        name: "S".to_string(),
        fields: vec![FieldInfo {
            name: "x".to_string(),
            type_str: "u8".to_string(),
            visibility: "pub".to_string(),
            attributes: vec![],
        }],
        generics: vec![],
        where_clause: None,
        attributes: vec![],
        visibility: "pub".to_string(),
        path: "/p/b.rs".to_string(),
    });
    g.resolve_calls();
    g
}

#[test]
fn the_report_of_a_graph() {
    let g = small_graph();
    let rule = "=".repeat(80);
    let dash = "-".repeat(80);
    let expected = format!(
        "\x1b[36m📊 Code Graph Analysis: /p\x1b[0m\n{rule}\n\n\x1b[36m📈 Summary:\x1b[0m\n  Structs: \x1b[33m1\x1b[0m\n  Functions: \x1b[33m3\x1b[0m\n  Implementations: \x1b[33m1\x1b[0m\n  Traits: \x1b[33m0\x1b[0m\n  Unresolved function calls: \x1b[33m1\x1b[0m\n\n\x1b[36m📦 Structs:\x1b[0m\n{dash}\n\n  \x1b[32mpub struct S\x1b[0m \x1b[90m(b.rs)\x1b[0m\n    \x1b[36mFields:\x1b[0m\n      \x1b[32mpub \x1b[0mx: \x1b[33mu8\x1b[0m\n\n\x1b[36m⚡ Functions:\x1b[0m\n{dash}\n\n  \x1b[32mpub fn f ()\x1b[0m \x1b[90m(a.rs)\x1b[0m\n    Calls: \x1b[35m`g`\x1b[0m\n\n  \x1b[32mfn g ()\x1b[0m \x1b[90m(a.rs)\x1b[0m\n\n\x1b[36m🏭 Implementations:\x1b[0m\n{dash}\n\n  \x1b[32mimpl<T> Tr for S\x1b[0m \x1b[90m(b.rs)\x1b[0m\n    \x1b[36mMethods:\x1b[0m\n      • \x1b[33mfn m (&self)\x1b[0m\n        Calls: \x1b[35m`g`\x1b[0m\n\n\x1b[36m❓ Unresolved Function Calls:\x1b[0m\n{dash}\n\n  \x1b[33mf\x1b[0m calls:\n    • \x1b[31mlost\x1b[0m\n\n{rule}\n"
    );
    assert_eq!(format_report(&g, "/p", true, true), expected);
    let short = format_report(&g, "/p", false, false);
    assert!(!short.contains("Calls:") && !short.contains("Fields:") && !short.contains("lost"));
}

#[test]
fn the_copy_of_a_graph() {
    let g = small_graph();
    let rule = "// ============================================================\n\n";
    let expected = format!(
        "// Code Graph Analysis\n// Generated: NOW\n// Root: /p\n{rule}// 📦 STRUCTS\n{rule}// imports: b.rs\n//   (no imports found)\n\n// b.rs\npub struct S\n{{\n    pub x: u8,\n}}\n\n// ⚡ FUNCTIONS\n{rule}// imports: a.rs\n//   (no imports found)\n\n// a.rs\npub fn f () {{\n    // Calls: g\n}}\n\n// a.rs\nfn g () {{\n}}\n\n// 🏭 IMPLEMENTATIONS\n{rule}// b.rs\nimpl<T> Tr for S\n{{\n    fn m (&self);\n        // Calls: g\n}}\n\n// ❓ UNRESOLVED FUNCTION CALLS\n{rule}// f calls:\n//   - lost\n\n"
    );
    assert_eq!(format_clipboard_content(&g, "/p", "NOW", true, true), expected);
    assert!(format_clipboard_content(&g, "/p", "NOW", true, false).contains("    // fields omitted\n"));
}

#[test]
fn arguments_of_the_analyser() {
    let c = Switches { line_numbers: true, calls: true, fields: false };
    assert_eq!(read_switches(c, &owned(&[])), c);
    assert_eq!(
        read_switches(c, &owned(&["-n", "-c", "-f"])),
        Switches { line_numbers: false, calls: false, fields: true }
    );
    assert_eq!(
        read_switches(c, &owned(&["-c", "--show-calls", "--hide-fields"])),
        Switches { line_numbers: true, calls: true, fields: false }
    );
    assert_eq!(target_dir(&owned(&["-c", "src"])), Some("src".to_string()));
    assert_eq!(target_dir(&owned(&["src", "-c"])), None);
    assert_eq!(target_dir(&owned(&[])), None);
    assert!(skips_dir(".vscode") && !skips_dir("src"));
    assert!(is_rust_file("a/b.rs") && !is_rust_file("a/rs"));
    let s = calc_clipboard_stats("a b\nc");
    assert_eq!((s.lines, s.words, s.bytes), (2, 3, 5));
}

#[test]
fn functions_are_kept_by_name() {
    let mut g = CodeGraph::new();
    let info: FunctionInfo = function_info(&model("f"), "a.rs", &None);
    g.add_function(info);
    record_function(&mut g, &FnModel { asyncness: true, ..model("f") }, "b.rs");
    assert_eq!(g.functions.len(), 1);
    assert!(g.functions.get("f").unwrap().asyncness);
}

const SOURCE: &str = "use a::{b, c as d};\n/// A function.\n#[inline]\npub(crate) fn run<T: Clone>(&(x, _): &(T, u8), y: T) -> Vec<T> {\n    fn inner() {}\n    b::go(y.step(), || (inner)());\n}\nmod m {\n    use {};\n    impl<'a, T> super::Tr<T> for S<'a> where T: Copy {\n        const N: u8 = 1;\n        async unsafe fn act(&mut self, n: u8) { self.act(n); }\n    }\n    struct S<'a>(&'a u8);\n}\ntrait Tr<T> { fn act(&self); }\n";

#[test]
fn a_source_text_gives_its_graph() {
    let g = analyze_source(SOURCE, "/p/a.rs").unwrap();
    let names: Vec<_> = (0..g.functions.len()).map(|i| g.functions.key_at(i).to_string()).collect();
    assert_eq!(names, ["act", "inner", "run"]);
    let run = g.functions.get("run").unwrap();
    assert_eq!(run.visibility, "pub(pub (crate))");
    assert_eq!(run.attributes, ["doc", "inline"]);
    assert_eq!(run.calls, ["b::go", "step"]);
    assert_eq!(run.generics, ["T"]);
    assert_eq!(run.return_type.as_deref(), Some("Vec < T >"));
    assert_eq!(
        run.signature,
        "fn run fn run < T : Clone > (& (x , _) : & (T , u8) , y : T) -> Vec < T > . generics (& (x , _) : & (T , u8), y : T) -> Vec < T >"
    );
    assert_eq!(run.parameters.len(), 1);
    let act = g.functions.get("act").unwrap();
    assert_eq!(act.signature, "async unsafe fn act (&mut self, n : u8)");
    assert_eq!((act.in_impl.as_deref(), act.path.as_str()), (Some("S < 'a >"), "/p/a.rs"));
    let block = g.impls.get("S < 'a >").unwrap();
    assert_eq!((block.methods.len(), block.generics.clone()), (1, owned(&["a", "T"])));
    assert_eq!(block.traits, ["super :: Tr < T >"]);
    assert_eq!(block.where_clause.as_deref(), Some("where T : Copy"));
    let imports = g.file_imports.get("/p/a.rs").unwrap();
    assert_eq!(*imports, vec![import("a::b", None), import("a::c", Some("d"))]);
    assert_eq!((g.structs.len(), g.traits.len()), (0, 0));
    assert!(analyze_source("fn (", "/p/a.rs").is_none());
}

#[test]
fn items_are_noted_in_turn() {
    let mut g = CodeGraph::new();
    let span = Span::between(1, 0, 1, 9);
    record_models(
        &mut g,
        &[
            ItemModel::Function(MethodModel { function: model("f"), span }),
            ItemModel::Function(MethodModel { function: calling("f", &["later"]), span }),
            ItemModel::Use(UseModel::Group(vec![])),
            ItemModel::Struct { name: "S".to_string(), visibility: VisModel::Public, span },
            ItemModel::Trait { name: "T".to_string(), span },
        ],
        "a.rs",
    );
    assert_eq!(g.functions.get("f").unwrap().calls, ["later"]);
    assert_eq!((g.functions.len(), g.structs.len(), g.traits.len(), g.file_imports.len()), (1, 0, 0, 0));
}
