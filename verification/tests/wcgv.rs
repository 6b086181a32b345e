use serde_json::Value;
use wcc::edges::{append_edges, distinct_edges, push_edge, show_edges, GraphEdge};
use wcc::json::{items, list, optional_text, put_item, text, text_list, Json};
use wcc::ranges::{ByteRange, Position, SourceRange, Span};
use wcc::syntax::{ImplSpan, PlacedName};
use wcc::wcgv::{
    is_interesting_symbol, line_col_to_byte_index, make_impl_key, make_range, make_symbol_key, make_syn_range,
    read_snippet, symbol_kind_name, visibility_from_signature, walk_document_symbols, PositionModel, RangeModel,
    SymbolError, SymbolModel, SymbolNode,
};
use wcc::wcgv_edges::{
    asks_references, build_file_symbol_index, find_call_edges, find_call_key, find_callee,
    find_enclosing_symbol, find_reference_edges, find_referrer, is_callable, range_span_score, CallTarget,
    LocationModel,
};
use wcc::wcgv_impls::{
    attach_impl_nodes_and_edges, collect_impl_blocks, path_to_label, selection_span, type_to_label,
};
use wcc::wcgv_links::{extract_ident_tokens, find_field_edges, find_type, find_use_edges};
use wcc::wcgv_lsp::{
    build_json, did_open_params, document_params, frame_header, initialize_params, notification, read_header,
    references_params, request, sort_reply, symbol_position_params, CliOptions, FileData, HeaderLine,
    OptionError, Reply,
};

fn owned(v: &[&str]) -> Vec<String> {
    v.iter().map(|s| s.to_string()).collect()
}

fn value(j: &Json) -> Value {
    match j {
        Json::Null => Value::Null,
        Json::Bool(b) => Value::from(*b),
        Json::Number(n) => Value::from(*n),
        Json::Tenths(n) => Value::from(*n as f64 / 10.0),
        Json::Text(s) => Value::from(s.as_str()),
        Json::List(v) => Value::Array(v.iter().map(value).collect()),
        Json::Object(v) => Value::Object(v.iter().map(|e| (e.name.clone(), value(&e.value))).collect()),
    }
}

fn read(s: &str) -> Value {
    serde_json::from_str(s).unwrap()
}

fn range(a: u64, b: u64, c: u64, d: u64) -> SourceRange {
    SourceRange {
        start: Position { line: a, column: b },
        end: Position { line: c, column: d },
        bytes: None,
    }
}

fn model(a: u64, b: u64, c: u64, d: u64) -> RangeModel {
    RangeModel {
        start: Some(PositionModel { line: Some(a), character: Some(b) }),
        end: Some(PositionModel { line: Some(c), character: Some(d) }),
    }
}

fn symbol(name: &str, kind: u64, r: RangeModel, children: Vec<SymbolModel>) -> SymbolModel {
    SymbolModel {
        name: Some(name.to_string()),
        kind: Some(kind),
        range: Some(r),
        selection_range: None,
        detail: None,
        children,
    }
}

fn node(kind: &str, label: &str, path: &str, r: SourceRange, signature: Option<&str>) -> SymbolNode {
    SymbolNode {
        key: format!("{kind}:{label}"),
        label: label.to_string(),
        kind: kind.to_string(),
        path: path.to_string(),
        visibility: "private".to_string(),
        signature: signature.map(|s| s.to_string()),
        selection_range: r,
        full_range: r,
        source_snippet: None,
    }
}

fn pairs(edges: &[GraphEdge]) -> Vec<(&str, &str, &str)> {
    edges.iter().map(|e| (e.source.as_str(), e.target.as_str(), e.edge_type.as_str())).collect()
}

#[test]
fn ranges_count_lines_from_one() {
    assert_eq!(make_range(&model(0, 2, 4, 6)), Ok(range(1, 2, 5, 6)));
    let empty = PositionModel { line: None, character: None };
    let other = PositionModel { line: None, character: None };
    assert_eq!(make_range(&RangeModel { start: Some(empty), end: Some(other) }), Ok(range(1, 0, 1, 0)));
    let half = RangeModel { start: None, end: model(0, 0, 0, 0).end };
    assert_eq!(make_range(&half), Err(SymbolError::RangeStart));
    let open = RangeModel { start: model(0, 0, 0, 0).start, end: None };
    assert_eq!(make_range(&open), Err(SymbolError::RangeEnd));
    assert_eq!(SymbolError::RangeStart.message(), "range.start missing");
    assert_eq!(SymbolError::RangeEnd.message(), "range.end missing");
    assert_eq!(SymbolError::FullRange.message(), "symbol missing full range");
}

#[test]
fn kinds_of_symbols() {
    for (n, name) in [
        (5, "class"),
        (6, "method"),
        (7, "property"),
        (8, "field"),
        (9, "constructor"),
        (11, "interface"),
        (12, "function"),
        (13, "variable"),
        (14, "constant"),
        (23, "struct"),
        (26, "type_parameter"),
        (0, "symbol"),
    ] {
        assert_eq!(symbol_kind_name(n), name);
    }
    assert!(is_interesting_symbol("field", true) && !is_interesting_symbol("field", false));
    assert!(is_interesting_symbol("struct", false) && !is_interesting_symbol("variable", true));
    assert_eq!(visibility_from_signature(&Some("pub fn".to_string())), "public");
    assert_eq!(visibility_from_signature(&Some("fn".to_string())), "private");
    assert_eq!(visibility_from_signature(&None), "private");
}

#[test]
fn keys_of_nodes() {
    assert_eq!(make_symbol_key("function", "f", "a.rs", &range(3, 4, 5, 6)), "function::a.rs::f:3:4");
    assert_eq!(make_impl_key("a.rs", "S", &None, &range(3, 4, 5, 6)), "impl::a.rs::S:3:4");
    assert_eq!(
        make_impl_key("a.rs", "S", &Some("T".to_string()), &range(3, 4, 5, 6)),
        "impl::a.rs::T for S:3:4"
    );
}

#[test]
fn snippets_by_byte_columns() {
    let s = "aé\nbcd";
    assert_eq!(line_col_to_byte_index(s, 1, 3), Some(3));
    assert_eq!(line_col_to_byte_index(s, 1, 2), None);
    assert_eq!(line_col_to_byte_index(s, 2, 3), Some(7));
    assert_eq!(line_col_to_byte_index(s, 2, 4), None);
    assert_eq!(line_col_to_byte_index("a\n", 2, 0), Some(2));
    assert_eq!(read_snippet(s, &range(1, 1, 2, 1)), Some("é\nb".to_string()));
    assert_eq!(read_snippet(s, &range(1, 1, 9, 0)), Some("é\nbcd".to_string()));
    assert_eq!(read_snippet(s, &range(9, 0, 9, 1)), None);
    let r = make_syn_range(s, Span::between(1, 1, 2, 1));
    assert_eq!(r.bytes, Some(ByteRange { start: 1, end: 5 }));
    let lost = make_syn_range(s, Span::between(9, 9, 9, 9));
    assert_eq!(lost.bytes, Some(ByteRange { start: 0, end: 7 }));
}

#[test]
fn symbols_become_nodes_joined_by_edges() {
    let tree = vec![symbol("S", 23, model(0, 0, 3, 1), vec![
        symbol("inner", 13, model(1, 0, 2, 0), vec![symbol("m", 6, model(1, 2, 1, 5), vec![])]),
        symbol("f", 8, model(2, 0, 2, 3), vec![]),
    ])];
    let content = Some("struct S {\n  fn m\nf: u\n}\n".to_string());
    let (nodes, edges) = walk_document_symbols(&tree, "a.rs", &content, false, &None).unwrap();
    let keys: Vec<_> = nodes.iter().map(|n| n.key.as_str()).collect();
    assert_eq!(keys, vec!["struct::a.rs::S:1:0", "method::a.rs::m:2:2"]);
    assert_eq!(pairs(&edges), vec![("struct::a.rs::S:1:0", "method::a.rs::m:2:2", "contains")]);
    assert_eq!(nodes[1].source_snippet.as_deref(), Some("fn "));
    let (all, joined) = walk_document_symbols(&tree, "a.rs", &None, true, &Some("P".to_string())).unwrap();
    assert_eq!((all.len(), joined.len()), (3, 3));
    assert_eq!(pairs(&joined)[0], ("P", "struct::a.rs::S:1:0", "contains"));
    assert_eq!(all[0].source_snippet, None);
    let nameless = SymbolModel { name: None, kind: Some(12), ..symbol("x", 0, model(0, 0, 0, 1), vec![]) };
    assert_eq!(walk_document_symbols(&vec![nameless], "a.rs", &None, true, &None).unwrap().0[0].label, "<unnamed>");
    let broken = SymbolModel { range: None, ..symbol("x", 12, model(0, 0, 0, 1), vec![]) };
    assert_eq!(
        walk_document_symbols(&vec![broken], "a.rs", &None, true, &None),
        Err(SymbolError::FullRange)
    );
    let selected = SymbolModel {
        selection_range: Some(model(7, 8, 7, 9)),
        detail: Some("pub fn x".to_string()),
        ..symbol("x", 12, model(0, 0, 9, 1), vec![])
    };
    let one = walk_document_symbols(&vec![selected], "a.rs", &None, true, &None).unwrap().0;
    assert_eq!((one[0].key.as_str(), one[0].visibility.as_str()), ("function::a.rs::x:8:8", "public"));
}

#[test]
fn the_closest_symbol_encloses() {
    let nodes = vec![
        node("struct", "out", "a.rs", range(1, 0, 9, 0), None),
        node("method", "in", "a.rs", range(2, 0, 4, 0), None),
        node("method", "far", "b.rs", range(1, 0, 9, 0), None),
    ];
    let index = build_file_symbol_index(&nodes);
    assert_eq!(index.get("a.rs"), Some(&vec![0, 1]));
    let listed: usize = (0..index.len()).map(|i| index.value_at(i).len()).sum();
    assert_eq!(listed, nodes.len());
    assert_eq!(build_file_symbol_index(&[]).len(), 0);
    assert_eq!(find_enclosing_symbol(&nodes, &index, "a.rs", 3, 0), Some(1));
    assert_eq!(find_enclosing_symbol(&nodes, &index, "a.rs", 5, 0), Some(0));
    assert_eq!(find_enclosing_symbol(&nodes, &index, "a.rs", 9, 0), None);
    assert_eq!(find_enclosing_symbol(&nodes, &index, "c.rs", 3, 0), None);
    assert_eq!(range_span_score(&range(2, 5, 4, 3)), (2, 0, 2, 5));
    let places = vec![
        LocationModel { uri: Some("file:///p/a.rs".to_string()), range: Some(model(2, 0, 2, 1)) },
        LocationModel { uri: Some("file:///p/b.rs".to_string()), range: Some(model(2, 0, 2, 1)) },
        LocationModel { uri: Some("http://x".to_string()), range: Some(model(2, 0, 2, 1)) },
        LocationModel { uri: None, range: None },
    ];
    let edges = find_reference_edges(&nodes, &index, "/p", "method:far", &places);
    assert_eq!(pairs(&edges), vec![("method:in", "method:far", "references")]);
    assert_eq!(find_referrer(&nodes, &index, "/p", &Some("/p/a.rs".to_string()), &Some(model(4, 0, 4, 1))), Some(0));
    assert_eq!(find_referrer(&nodes, &index, "/p", &None, &Some(model(4, 0, 4, 1))), None);
    assert!(asks_references(&nodes[0]) && !asks_references(&node("field", "x", "a", range(1, 1, 1, 1), None)));
}

#[test]
fn calls_lead_to_what_is_selected() {
    let nodes = vec![
        node("function", "f", "a.rs", range(1, 3, 2, 0), None),
        node("struct", "s", "a.rs", range(5, 3, 6, 0), None),
        node("method", "twice", "a.rs", range(1, 3, 2, 0), None),
    ];
    assert!(is_callable(&nodes[0]) && !is_callable(&nodes[1]));
    assert_eq!(find_callee(&nodes, "a.rs", 1, 3), Some(2));
    assert_eq!(find_callee(&nodes, "a.rs", 5, 3), None);
    assert_eq!(find_call_key(&nodes, "/p", &Some("/p/a.rs".to_string()), &Some(model(0, 3, 0, 4))), Some(2));
    let calls = vec![
        CallTarget {
            uri: Some("file:///p/a.rs".to_string()),
            selection_range: Some(model(0, 3, 0, 4)),
            range: None,
        },
        CallTarget { uri: Some("file:///p/a.rs".to_string()), selection_range: None, range: Some(model(0, 3, 9, 9)) },
        CallTarget { uri: Some("file:///p/a.rs".to_string()), selection_range: None, range: None },
        CallTarget { uri: None, selection_range: Some(model(0, 3, 0, 4)), range: None },
    ];
    let edges = find_call_edges(&nodes, "/p", "function:f", &calls);
    assert_eq!(
        pairs(&edges),
        vec![("function:f", "method:twice", "calls"), ("function:f", "method:twice", "calls")]
    );
}

#[test]
fn types_in_signatures_are_linked() {
    assert_eq!(extract_ident_tokens("fn f(x: Vec<T_1>) -> é u8"), ["T_1", "Vec", "f", "fn", "u8", "x"]);
    let nodes = vec![
        node("struct", "A", "a.rs", range(1, 0, 5, 0), Some("struct A")),
        node("interface", "B", "a.rs", range(6, 0, 7, 0), None),
        node("function", "f", "a.rs", range(8, 0, 9, 0), Some("fn f(a: A) -> B")),
        node("field", "x", "a.rs", range(2, 0, 2, 1), Some("Option<A>")),
        node("field", "y", "b.rs", range(2, 0, 2, 1), Some("A")),
        node("struct", "A", "z.rs", range(1, 0, 5, 0), None),
    ];
    assert_eq!(find_type(&nodes, "A", false), Some(0));
    assert_eq!(find_type(&nodes, "B", false), None);
    assert_eq!(find_type(&nodes, "B", true), Some(1));
    assert_eq!(
        pairs(&find_use_edges(&nodes)),
        vec![
            ("function:f", "struct:A", "uses_type"),
            ("function:f", "interface:B", "uses_type"),
            ("field:x", "struct:A", "uses_type"),
            ("field:y", "struct:A", "uses_type"),
        ]
    );
    assert_eq!(pairs(&find_field_edges(&nodes)), vec![("field:y", "struct:A", "field_type")]);
}

#[test]
fn impl_blocks_become_nodes() {
    let source = "struct S;\nimpl S {\n    fn m() {}\n}\nimpl std::fmt::Debug for S {}\nimpl<'a> Tr for &'a S {}\n";
    let impls = collect_impl_blocks(source, "a.rs", true).unwrap();
    let keys: Vec<_> = impls.iter().map(|i| i.key.as_str()).collect();
    assert_eq!(
        keys,
        vec!["impl::a.rs::S:2:5", "impl::a.rs::std::fmt::Debug for S:5:15", "impl::a.rs::Tr for <type>:6:9"]
    );
    assert_eq!(impls[0].source_snippet.as_deref(), Some("impl S {\n    fn m() {}\n}"));
    assert_eq!(impls[0].full_range.bytes, Some(ByteRange { start: 10, end: 34 }));
    assert_eq!(collect_impl_blocks(source, "a.rs", false).unwrap()[0].source_snippet, None);
    assert!(collect_impl_blocks("impl {", "a.rs", false).is_none());
    let mut nodes = vec![
        node("struct", "S", "a.rs", range(1, 0, 1, 9), None),
        node("method", "m", "a.rs", range(3, 7, 3, 8), None),
    ];
    let mut edges = vec![];
    attach_impl_nodes_and_edges(&mut nodes, &mut edges, &impls);
    assert_eq!((nodes.len(), nodes[3].label.as_str()), (5, "impl std::fmt::Debug for S"));
    assert_eq!((nodes[2].kind.as_str(), nodes[2].signature.as_deref()), ("impl", Some("impl S")));
    assert_eq!(
        pairs(&edges),
        vec![
            ("impl::a.rs::S:2:5", "struct:S", "associated_with"),
            ("impl::a.rs::S:2:5", "method:m", "contains"),
            ("impl::a.rs::std::fmt::Debug for S:5:15", "struct:S", "associated_with"),
        ]
    );
    assert_eq!(type_to_label(&Some(owned(&["a", "B"]))), "B");
    assert_eq!(type_to_label(&None), "<type>");
    let placed = |n: &str, c: usize| PlacedName { name: n.to_string(), span: Span::between(1, c, 1, c + 1) };
    let span = ImplSpan {
        trait_path: Some(vec![placed("a", 5), placed("T", 8)]),
        block: Span::between(1, 0, 2, 0),
        self_type: Span::between(1, 20, 1, 21),
    };
    assert_eq!(selection_span(&span), Span::between(1, 8, 1, 9));
    assert_eq!(path_to_label(&span.trait_path), Some("a::T".to_string()));
    assert_eq!(selection_span(&ImplSpan { trait_path: None, ..span }), Span::between(1, 20, 1, 21));
}

#[test]
fn edges_are_kept_once() {
    let mut v = vec![];
    push_edge(&mut v, "a", "b", "calls");
    push_edge(&mut v, "a", "b", "uses");
    let mut more = vec![];
    push_edge(&mut more, "a", "b", "calls");
    append_edges(&mut v, more);
    assert_eq!(v.len(), 3);
    let kept = distinct_edges(&v);
    assert_eq!(pairs(&kept), vec![("a", "b", "calls"), ("a", "b", "uses")]);
    assert_eq!(
        value(&show_edges(&kept[..1])),
        read(r#"[{"source":"a","target":"b","attributes":{"type":"calls"}}]"#)
    );
}

fn start() -> CliOptions {
    CliOptions {
        target_dir: ".".to_string(),
        output_path: "o.json".to_string(),
        include_sources: true,
        rust_analyzer_bin: "ra".to_string(),
        warmup_ms: 1,
        show_calls: true,
        show_fields: true,
        show_imports: true,
        include_field_nodes: false,
        show_impl_edges: true,
    }
}

#[test]
fn options_of_the_command_line() {
    let o = CliOptions::parse(
        start(),
        &owned(&["-o", "x.json", "-s", "--rust-analyzer", "bin", "--warmup-ms", "7", "--no-calls", "--no-fields", "--no-imports", "--fields-as-nodes", "--no-impl-edges", "src"]),
    )
    .unwrap();
    assert_eq!(o, CliOptions {
        target_dir: "src".to_string(),
        output_path: "x.json".to_string(),
        include_sources: false,
        rust_analyzer_bin: "bin".to_string(),
        warmup_ms: 7,
        show_calls: false,
        show_fields: false,
        show_imports: false,
        include_field_nodes: true,
        show_impl_edges: false,
    });
    assert!(!CliOptions::parse(o, &owned(&["--no-fields-as-nodes"])).unwrap().include_field_nodes);
    let cases = [
        (vec!["--output"], OptionError::MissingOutput, "missing value for --output"),
        (vec!["--rust-analyzer"], OptionError::MissingAnalyzer, "missing value for --rust-analyzer"),
        (vec!["--warmup-ms"], OptionError::MissingWarmup, "missing value for --warmup-ms"),
        (vec!["--warmup-ms", "x"], OptionError::BadWarmup, "parsing --warmup-ms"),
        (vec!["a", "--what"], OptionError::UnknownFlag("--what".to_string()), "unknown flag: --what"),
    ];
    for (args, error, message) in cases {
        let got = CliOptions::parse(start(), &owned(&args)).unwrap_err();
        assert_eq!(got.message(), message);
        assert_eq!(got, error);
    }
}

#[test]
fn frames_of_the_protocol() {
    assert_eq!(frame_header(12), "Content-Length: 12\r\n\r\n");
    assert_eq!(read_header("Content-Length: 12\r\n"), HeaderLine::Length(12));
    assert_eq!(read_header("\r\n"), HeaderLine::End);
    assert_eq!(read_header("Content-Type: x\r\n"), HeaderLine::Other);
    assert_eq!(read_header("Content-Length: x\r\n"), HeaderLine::BadLength);
    assert_eq!(sort_reply(None, false, 1), Reply::Unrelated);
    assert_eq!(sort_reply(Some(2), true, 1), Reply::Unrelated);
    assert_eq!(sort_reply(Some(1), true, 1), Reply::Failed);
    assert_eq!(sort_reply(Some(1), false, 1), Reply::Answered);
}

#[test]
fn messages_of_the_protocol() {
    assert_eq!(
        value(&request(7, "m", Json::Null)),
        read(r#"{"jsonrpc":"2.0","id":7,"method":"m","params":null}"#)
    );
    assert_eq!(
        value(&notification("m", Json::object())),
        read(r#"{"jsonrpc":"2.0","method":"m","params":{}}"#)
    );
    assert_eq!(value(&document_params("u")), read(r#"{"textDocument":{"uri":"u"}}"#));
    assert_eq!(
        value(&did_open_params("u", "t")),
        read(r#"{"textDocument":{"uri":"u","languageId":"rust","version":1,"text":"t"}}"#)
    );
    assert_eq!(
        value(&symbol_position_params("u", &range(3, 4, 5, 6))),
        read(r#"{"textDocument":{"uri":"u"},"position":{"line":2,"character":4}}"#)
    );
    assert_eq!(
        value(&references_params("u", &range(0, 4, 5, 6))),
        read(r#"{"textDocument":{"uri":"u"},"position":{"line":0,"character":4},"context":{"includeDeclaration":false}}"#)
    );
    let hello = value(&initialize_params(9, "file:///p", "/p", &None, "1.0"));
    assert_eq!(
        hello,
        read(
            r#"{"processId":9,"rootUri":"file:///p","rootPath":"/p",
            "workspaceFolders":[{"uri":"file:///p","name":"workspace"}],
            "clientInfo":{"name":"wcgv","version":"1.0"},
            "capabilities":{"general":{"positionEncodings":["utf-8","utf-16"]},
              "textDocument":{"documentSymbol":{"hierarchicalDocumentSymbolSupport":true},"references":{},"callHierarchy":{},"hover":{}},
              "workspace":{"workspaceFolders":true,"symbol":{}}},
            "initializationOptions":{"cargo":{"allFeatures":true,"buildScripts":{"enable":true}},"procMacro":{"enable":true},"checkOnSave":true}}"#
        )
    );
    let named = value(&initialize_params(9, "u", "/p", &Some("p".to_string()), "1"));
    assert_eq!(named["workspaceFolders"][0]["name"], Value::from("p"));
}

#[test]
fn the_graph_as_a_document() {
    let mut n = node("function", "f", "a.rs", range(1, 2, 3, 4), Some("fn f()"));
    n.selection_range.bytes = Some(ByteRange { start: 5, end: 6 });
    n.source_snippet = Some("fn f() {}".to_string());
    let mut edges = vec![];
    push_edge(&mut edges, "a", "b", "calls");
    let files = vec![FileData { rel_path: "a.rs".to_string(), content: Some("text".to_string()) }];
    let expected = |snippet: &str, content: &str, sources: bool| {
        read(&format!(
            r#"{{"graph":{{"nodes":[{{"key":"function:f","attributes":{{"label":"f","type":"function","path":"a.rs","visibility":"private","level":0,"signature":"fn f()","sourceSnippet":{snippet},
            "range":{{"start":{{"line":1,"column":2}},"end":{{"line":3,"column":4}},"bytes":null}},
            "selectionRange":{{"start":{{"line":1,"column":2}},"end":{{"line":3,"column":4}},"bytes":{{"start":5,"end":6}}}}}}}}],
            "edges":[{{"source":"a","target":"b","attributes":{{"type":"calls"}}}}]}},
            "files":[{{"path":"a.rs","content":{content}}}],
            "metadata":{{"timestamp":"T","root":"/p","includeSources":{sources},"positionEncoding":"utf-8","stats":{{"nodes":1,"edges":1,"files":1}}}}}}"#
        ))
    };
    let with = build_json("/p", &[n], &files, &edges, true, "utf-8", "T");
    assert_eq!(value(&with), expected("\"fn f() {}\"", "\"text\"", true));
    let mut m = node("function", "f", "a.rs", range(1, 2, 3, 4), Some("fn f()"));
    m.selection_range.bytes = Some(ByteRange { start: 5, end: 6 });
    m.source_snippet = Some("x".to_string());
    let without = build_json("/p", &[m], &files, &edges, false, "utf-8", "T");
    assert_eq!(value(&without), expected("null", "null", false));
}

#[test]
fn documents_are_built_in_order() {
    let mut v = items();
    put_item(&mut v, text("a"));
    put_item(&mut v, optional_text(&None));
    let j = Json::object().with("x", list(v)).with("y", text_list(&owned(&["b"]))).with("z", Json::Tenths(9));
    assert_eq!(value(&j), read(r#"{"x":["a",null],"y":["b"],"z":0.9}"#));
    assert_eq!(optional_text(&Some("s".to_string())), Json::Text("s".to_string()));
}
