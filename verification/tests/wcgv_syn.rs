use wcc::json::Json;
use wcc::ranges::{ByteRange, SourceRange, Span};
use wcc::models::{CallModel, FnModel, ImplModel, ItemModel, MethodModel, VisModel};
use wcc::wcgv_syn::{
    export_to_json, extract_function_calls, function_info, get_visibility, is_ignored_call, merge_graphs,
    output_path, record_function, record_impl, record_struct, record_trait, show_range, skips_dir,
    to_visualization_graph, analyze_source, record_models, CodeGraph,
};

const SOURCE: &str = "pub fn f() {\n    g();\n}\nstruct S;\ntrait T {}\nimpl S {\n    fn m(&self) {}\n}\n";

fn owned(v: &[&str]) -> Vec<String> {
    v.iter().map(|s| s.to_string()).collect()
}

fn model(name: &str, calls: &[&str], vis: VisModel) -> FnModel {
    FnModel {
        name: name.to_string(),
        constness: false,
        asyncness: false,
        unsafeness: false,
        tokens: format!("fn {name} ()"),
        generics_tokens: String::new(),
        inputs: vec![],
        output: None,
        generics: vec![],
        where_clause: None,
        attributes: vec![],
        visibility: vis,
        calls: calls.iter().map(|c| CallModel::Method(c.to_string())).collect(),
    }
}

fn graph() -> CodeGraph {
    let mut g = CodeGraph::new();
    record_function(&mut g, &model("f", &["g", "unwrap", "f"], VisModel::Public), "/p/a.rs", SOURCE, Span::between(1, 0, 3, 1));
    record_struct(&mut g, "S", &VisModel::Inherited, "/p/a.rs", SOURCE, Span::between(4, 0, 4, 9));
    record_trait(&mut g, "T", "/p/a.rs", SOURCE, Span::between(5, 0, 5, 10));
    let method = MethodModel { function: model("m", &[], VisModel::Inherited), span: Span::between(7, 4, 7, 18) };
    let block = ImplModel {
        target_type: "S".to_string(),
        generics: vec![],
        where_clause: None,
        members: vec![Some(method), None],
        trait_path: None,
    };
    record_impl(&mut g, &block, "/p/a.rs", SOURCE);
    g
}

#[test]
fn items_are_kept_with_their_text() {
    let g = graph();
    let f = g.functions.get("f").unwrap();
    assert_eq!(f.source_snippet, "pub fn f() {\n    g();\n}");
    assert_eq!(f.range.bytes, Some(ByteRange { start: 0, end: 23 }));
    assert_eq!((f.calls.clone(), f.visibility.as_str()), (owned(&["f", "g"]), "pub"));
    assert_eq!(g.functions.get("S::m").unwrap().source_snippet, "fn m(&self) {}");
    assert_eq!(g.structs.get("S").unwrap().source_snippet, "struct S;");
    assert_eq!(g.traits.get("T").unwrap().visibility, "pub");
    assert_eq!(g.impls.get("S").unwrap().methods.len(), 1);
    let lost = function_info(&model("x", &[], VisModel::Public), "a.rs", &None, SOURCE, Span::between(4, 3, 5, 99));
    assert_eq!((lost.range.bytes, lost.source_snippet.as_str()), (None, "struct S;\ntrait T {}"));
}

#[test]
fn calls_and_visibility() {
    assert_eq!(get_visibility(&VisModel::Restricted("pub (crate)".to_string())), "private");
    assert!(is_ignored_call("a::and_then") && !is_ignored_call("to_string"));
    assert_eq!(
        extract_function_calls(&[CallModel::Path(owned(&["b", "c"])), CallModel::Method("len".to_string())]),
        ["b::c"]
    );
    assert!(skips_dir(".cargo") && !skips_dir(".idea"));
    assert_eq!(output_path(&owned(&["src", "-o", "x.json"])), "x.json");
    assert_eq!(output_path(&owned(&["src", "-o"])), "code_graph.json");
}

#[test]
fn nodes_and_edges_of_the_view() {
    let (nodes, edges) = to_visualization_graph(&graph(), "/p");
    let got: Vec<_> = nodes
        .iter()
        .map(|n| (n.id.as_str(), n.label.as_str(), n.node_type.as_str(), n.size_tenths, n.color.as_str(), n.level))
        .collect();
    assert_eq!(
        got,
        vec![
            ("func::S::S::m", "S::S::m", "method", 9, "#9C27B0", 1),
            ("func::f", "f", "function", 10, "#4CAF50", 0),
            ("struct::S", "S", "struct", 12, "#2196F3", 0),
            ("trait::T", "T", "trait", 11, "#FF9800", 0),
        ]
    );
    assert_eq!(nodes[1].path, "a.rs");
    let joined: Vec<_> =
        edges.iter().map(|e| (e.source.as_str(), e.target.as_str(), e.edge_type.as_str())).collect();
    assert_eq!(
        joined,
        vec![
            ("func::f", "func::f", "calls"),
            ("func::f", "unresolved::g", "calls"),
            ("impl::S", "struct::S", "implements"),
            ("impl::S", "func::S::m", "contains"),
        ]
    );
    for (i, a) in nodes.iter().enumerate() {
        assert!(nodes.iter().skip(i + 1).all(|b| a.id != b.id));
    }
}

#[test]
fn later_files_take_the_place_of_earlier_ones() {
    let mut a = graph();
    let mut b = CodeGraph::new();
    record_struct(&mut b, "S", &VisModel::Public, "/p/b.rs", "struct S;", Span::between(1, 0, 1, 9));
    merge_graphs(&mut a, b);
    assert_eq!((a.structs.len(), a.structs.get("S").unwrap().path.as_str()), (1, "/p/b.rs"));
    assert_eq!(a.functions.len(), 2);
}

fn get<'a>(j: &'a Json, name: &str) -> &'a Json {
    match j {
        Json::Object(v) => &v.iter().find(|e| e.name == name).unwrap().value,
        _ => panic!("no object"),
    }
}

#[test]
fn the_view_as_a_document() {
    let j = export_to_json(&graph(), "/p", "T");
    let Json::List(nodes) = get(get(&j, "graph"), "nodes") else {
        panic!("no list");
    };
    assert_eq!(get(&nodes[1], "key"), &Json::Text("func::f".to_string()));
    let attributes = get(&nodes[1], "attributes");
    assert_eq!(get(attributes, "size"), &Json::Tenths(10));
    assert_eq!(get(attributes, "signature"), &Json::Text("fn f ()".to_string()));
    assert_eq!(get(get(get(attributes, "range"), "start"), "line"), &Json::Number(1));
    assert_eq!(get(get(get(attributes, "range"), "bytes"), "end"), &Json::Number(23));
    assert_eq!(get(get(&nodes[2], "attributes"), "signature"), &Json::Null);
    let metadata = get(&j, "metadata");
    assert_eq!(get(metadata, "timestamp"), &Json::Text("T".to_string()));
    assert_eq!(get(get(metadata, "stats"), "functions"), &Json::Number(2));
    assert_eq!(get(&show_range(&SourceRange::default()), "bytes"), &Json::Null);
}

#[test]
fn a_source_text_gives_its_graph_with_places() {
    let content = "use a::b;\npub fn f<T>(x: T) -> T {\n    b(x)\n}\n/// A type.\nstruct S;\nimpl S {\n    fn m(&self) {\n        self.é();\n    }\n}\npub(crate) trait T {}\n";
    let g = analyze_source(content, "/p/a.rs").unwrap();
    let f = g.functions.get("f").unwrap();
    assert_eq!(f.signature, "fn f < T > (x : T) -> T");
    assert_eq!(f.source_snippet, "pub fn f<T>(x: T) -> T {\n    b(x)\n}");
    assert_eq!(f.calls, ["b"]);
    assert_eq!(g.functions.get("S::m").unwrap().source_snippet, "fn m(&self) {\n        self.é();\n    }");
    assert_eq!(g.structs.get("S").unwrap().source_snippet, "/// A type.\nstruct S;");
    assert_eq!((g.impls.len(), g.traits.get("T").unwrap().source_snippet.as_str()), (1, "pub(crate) trait T {}"));
    assert!(analyze_source("struct", "/p/a.rs").is_none());
    let mut again = CodeGraph::new();
    let span = Span::between(6, 0, 6, 9);
    let item = ItemModel::Struct { name: "S".to_string(), visibility: VisModel::Public, span };
    record_models(&mut again, &[item], "/p/a.rs", content);
    assert_eq!(again.structs.get("S").unwrap().source_snippet, "struct S;");
}
