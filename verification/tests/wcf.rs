use wcc::diff::{ChangeTag, LineChange};
use wcc::syntax::FnHead;
use wcc::wcf::{
    block_candidates, find_block_end, find_block_line_range, find_enum_in_file, find_struct_in_file,
    normalize_for_match, parse_clipboard_blocks, parse_source, CodeBlockMatch, CodeBlockType,
};
use wcc::wcf_flow::{Recall, Session, Step};
use wcc::wcf_functions::{
    enclosing_impl_type, find_function_in_file, function_candidates, last_segment, match_function, FunctionSpan,
};
use wcc::wcf_replace::{
    replace_block_by_line_range, replace_by_syntax, replace_enum_in_file, replace_function_in_file,
    replace_struct_in_file, text_for_match, ReplaceError, Replacement,
};
use wcc::wcf_heads::keep_head;
use wcc::wcf_session::{
    block_keyword, block_word, chosen_match, compact_body_preview, format_code_with_lines,
    generate_formatted_diff, match_list, place_of, preview_answer, remembered_places, show_changes,
    show_location, show_range, skips_dir, PreviewAnswer,
};

const SOURCE: &str = "use a;\n\n/// Doc.\n#[inline]\npub fn one(x: u8) -> u8 {\n    { x }\n}\n\nstruct S {\n    f: u8,\n}\n\nenum E {\n    A,\n}\n\nimpl S {\n    async fn two(&self) {\n    }\n}\n";

fn owned(v: &[&str]) -> Vec<String> {
    v.iter().map(|s| s.to_string()).collect()
}

fn rows(s: &str) -> Vec<String> {
    s.lines().map(|l| l.to_string()).collect()
}

fn a_match(name: &str, path: &str, range: Option<(usize, usize)>) -> CodeBlockMatch {
    CodeBlockMatch {
        file_path: path.to_string(),
        block_name: name.to_string(),
        block_type: CodeBlockType::Function,
        old_full_block: String::new(),
        head: None,
        line_range: range,
        context_label: None,
    }
}

#[test]
fn blocks_of_a_source_text() {
    let blocks = parse_clipboard_blocks(SOURCE).unwrap();
    let heads: Vec<_> = blocks.iter().map(|b| (b.0.as_str(), b.1)).collect();
    assert_eq!(
        heads,
        vec![
            ("one", CodeBlockType::Function),
            ("S", CodeBlockType::Struct),
            ("E", CodeBlockType::Enum),
            ("two", CodeBlockType::Function),
        ]
    );
    assert_eq!(blocks[1].2, "struct S { f : u8 , }");
}

#[test]
fn blocks_of_a_text_that_does_not_parse() {
    let blocks = parse_clipboard_blocks("}\nfn a() { 1; }\nstruct B { x: u8 }\nenum C { D }\nfn broken( {}").unwrap();
    let got: Vec<_> = blocks.iter().map(|b| (b.0.as_str(), b.1, b.2.as_str())).collect();
    assert_eq!(
        got,
        vec![
            ("B", CodeBlockType::Struct, "struct B { x: u8 }"),
            ("C", CodeBlockType::Enum, "enum C { D }"),
            ("a", CodeBlockType::Function, "fn a() { 1; }"),
        ]
    );
    assert_eq!(
        parse_clipboard_blocks("nothing here"),
        Err("No valid functions, structs, or enums found in clipboard".to_string())
    );
    assert!(parse_clipboard_blocks("use a;").is_err());
    assert_eq!(block_candidates("struct A {} struct B {", "struct "), ["struct A {}"]);
}

#[test]
fn ends_of_blocks_count_braces() {
    assert_eq!(find_block_end("a { b { } } c", 0), (11, true));
    assert_eq!(find_block_end("a { b {", 2), (2, false));
    assert_eq!(find_block_end("} {}", 0), (0, false));
    assert_eq!(find_block_end("é{}", 0), (4, true));
    assert_eq!(find_block_end("é{é} x", 2), (6, true));
    assert_eq!(normalize_for_match("  a\n\n b \n"), "a\nb");
}

#[test]
fn lines_of_a_block() {
    let ls = rows(SOURCE);
    assert_eq!(find_block_line_range(SOURCE, "struct S {\n f: u8,\n\n}", &ls), Some((9, 11)));
    assert_eq!(find_block_line_range(SOURCE, "f: u8,", &ls), Some((10, 10)));
    assert_eq!(find_block_line_range(SOURCE, "struct T {\n}", &ls), None);
    assert_eq!(find_block_line_range(SOURCE, " \n", &ls), None);
}

#[test]
fn structs_and_enums_of_a_file() {
    let s = find_struct_in_file("a.rs", SOURCE, "S").unwrap();
    assert_eq!(s.len(), 1);
    assert_eq!(s[0].old_full_block, "struct S { f : u8 , }");
    assert_eq!((s[0].line_range, s[0].block_type), (None, CodeBlockType::Struct));
    let one_line = find_enum_in_file("a.rs", "\nenum E { A }\n", "E").unwrap();
    assert_eq!(one_line[0].line_range, Some((2, 2)));
    assert!(find_enum_in_file("a.rs", SOURCE, "X").unwrap().is_empty());
    assert!(find_struct_in_file("a.rs", "struct {", "S").is_none());
}

#[test]
fn functions_of_a_file() {
    let one = find_function_in_file("a.rs", SOURCE, "one").unwrap();
    assert_eq!(one.len(), 1);
    assert_eq!(one[0].line_range, Some((5, 7)));
    assert_eq!(one[0].old_full_block, "pub fn one(x: u8) -> u8 {\n    { x }\n}");
    assert_eq!(one[0].head.as_ref().unwrap().vis, "pub");
    assert_eq!(one[0].context_label, None);
    let two = find_function_in_file("a.rs", SOURCE, "two").unwrap();
    assert_eq!((two[0].line_range, two[0].context_label.clone()), (Some((18, 19)), None));
    assert!(two[0].head.as_ref().unwrap().is_async);
    let spread = "struct S; pub(crate)\n  const unsafe\n  extern \"C\" fn f() {}\n// not const\nfn g() {}\n";
    assert_eq!(function_candidates(spread, "f")[0].text, "  const unsafe\n  extern \"C\" fn f() {}");
    assert_eq!(function_candidates(spread, "g")[0].text, "fn g() {}");
    let lines = "pub(in a::b)\n  async\nfn f() {}\n";
    assert_eq!(function_candidates(lines, "f")[0].text, "pub(in a::b)\n  async\nfn f() {}");
    assert!(find_function_in_file("a.rs", SOURCE, "three").unwrap().is_empty());
    assert!(find_function_in_file("a.rs", "fn (", "three").is_none());
}

#[test]
fn methods_are_found_as_functions() {
    let src = "struct S;\nimpl S {\n    fn get(&self) -> u8 {\n        1\n    }\n}\n";
    let found = find_function_in_file("a.rs", src, "get").unwrap();
    assert_eq!(found.len(), 1);
    assert_eq!(found[0].context_label, None);
    assert_eq!(found[0].line_range, Some((3, 5)));
    let items = parse_source(src).unwrap();
    assert_eq!(enclosing_impl_type(&items, 1), Some("S".to_string()));
    assert_eq!(enclosing_impl_type(&items, 0), None);
    assert_eq!(enclosing_impl_type(&parse_source("fn a() {}").unwrap(), 1), None);
    assert_eq!(last_segment(&Some(owned(&["a", "B"]))), "B");
    assert_eq!(last_segment(&None), "unknown");
}

#[test]
fn names_must_stand_alone_before_fn() {
    let spans = function_candidates("xfn a() { }\nfn a() ;\nfn a() { [1] }\n", "a");
    assert_eq!(spans.len(), 1);
    assert_eq!((spans[0].start_line, spans[0].end_line), (3, 3));
    let span = FunctionSpan { text: "fn a() {}".to_string(), start_line: 2, end_line: 2 };
    let head = |name: &str| {
        Some(FnHead {
            name: name.to_string(),
            attrs: vec![],
            vis: String::new(),
            is_async: false,
            is_unsafe: false,
        })
    };
    assert!(match_function("f", "a", &span, head("b"), head("b"), None).is_none());
    let m = match_function("f", "a", &span, None, head("a"), None).unwrap();
    assert_eq!(m.context_label.as_deref(), Some("impl unknown"));
    assert_eq!(match_function("f", "a", &span, head("a"), None, None).unwrap().context_label, None);
}

#[test]
fn replacing_lines_leaves_the_others() {
    assert_eq!(
        replace_block_by_line_range("a\nb\nc\nd\n", (2, 3), "X\nY\n", "f.rs"),
        Ok("a\nX\nY\nd\n".to_string())
    );
    assert_eq!(replace_block_by_line_range("a", (0, 1), "X", "f.rs"), Ok("X".to_string()));
    assert_eq!(
        replace_block_by_line_range("a\n", (2, 3), "X", "f.rs"),
        Err("Invalid line range 2-3 for f.rs".to_string())
    );
    assert!(replace_block_by_line_range("a\nb\n", (2, 1), "X", "f.rs").is_err());
    let m = a_match("S", "f.rs", None);
    assert_eq!(
        replace_struct_in_file("a\n", &m, "X"),
        Err("No exact line range found for struct 'S' in f.rs".to_string())
    );
    assert_eq!(
        replace_enum_in_file("a\n", &m, "X"),
        Err("No exact line range found for enum 'S' in f.rs".to_string())
    );
    let placed = a_match("S", "f.rs", Some((1, 1)));
    assert_eq!(replace_struct_in_file("a\nb\n", &placed, "X\n"), Ok("X\nb\n".to_string()));
}

#[test]
fn replacing_a_function() {
    let placed = a_match("one", "f.rs", Some((1, 2)));
    assert_eq!(
        replace_function_in_file("a\nb\nc\n", &placed, "", "X\n", "", ""),
        Ok(Replacement::Content("X\nc\n".to_string()))
    );
    let mut by_text = a_match("one", "f.rs", Some((8, 9)));
    by_text.old_full_block = " fn one() {} ".to_string();
    assert_eq!(
        replace_function_in_file("x fn one() {} y", &by_text, "", "N\n", "", ""),
        Ok(Replacement::Content("x N y".to_string()))
    );
    let twice = "fn one() {} fn one() {}";
    assert_eq!(
        replace_function_in_file(twice, &by_text, "", "N", "fmt", "a fmt b"),
        Ok(Replacement::Content("a N b".to_string()))
    );
    by_text.head = Some(FnHead {
        name: "one".to_string(),
        attrs: owned(&["# [a]", "# [b]"]),
        vis: "pub".to_string(),
        is_async: true,
        is_unsafe: false,
    });
    let source = "fn zero() {} fn one() {} mod m { fn one() {} }";
    assert_eq!(
        replace_function_in_file(source, &by_text, "#[b] #[c] unsafe fn one() { 1; }", "N", "", ""),
        Ok(Replacement::Rebuild {
            index: 1,
            attrs: owned(&["# [a]", "# [b]", "# [c]"]),
            vis: "pub".to_string(),
            is_async: true,
            is_unsafe: true,
        })
    );
    assert_eq!(
        replace_function_in_file("fn broken( fn one() {} fn one() {}", &by_text, "fn one() {}", "N", "", ""),
        Err(ReplaceError::Content)
    );
    assert_eq!(
        replace_function_in_file(twice, &by_text, "fn one(", "N", "", ""),
        Err(ReplaceError::Block)
    );
    let missing = a_match("none", "f.rs", None);
    let message = "Could not determine exact location for selected function 'none' in f.rs. line_range=None";
    assert_eq!(
        replace_function_in_file("fn a() {}", &missing, "fn none() {}", "N", "", ""),
        Err(ReplaceError::NotFound(message.to_string()))
    );
    assert_eq!(
        replace_by_syntax(&a_match("x (in impl Y)", "f.rs", Some((1, 2))), None, None),
        Err(ReplaceError::NotFound(
            "Could not determine exact location for selected function 'x (in impl Y)' in f.rs. line_range=Some((1, 2))"
                .to_string()
        ))
    );
}

#[test]
fn what_is_shown() {
    assert!(skips_dir("target") && skips_dir(".idea") && !skips_dir("src"));
    assert_eq!(format_code_with_lines("a\nb\n"), "   1 a\n   2 b");
    assert_eq!(
        generate_formatted_diff("a\nb\n", "a\nc\n"),
        " a\n\x1b[31m-b\x1b[0m\n\x1b[32m+c\x1b[0m\n"
    );
    assert_eq!(generate_formatted_diff("a\n", "\na"), "");
    assert_eq!(
        show_changes(&[LineChange { tag: ChangeTag::Insert, text: "x\ny\n".to_string() }]),
        "\x1b[32m+x\x1b[0m\n\x1b[32m+y\x1b[0m\n"
    );
    assert_eq!(compact_body_preview("fn a() {\n  // c\n\n  let x = 1;\n}"), "let x = 1;");
    assert_eq!(compact_body_preview("fn a() {}"), "");
    assert_eq!(compact_body_preview(&format!("{{ {} ", "é".repeat(200))), "é".repeat(120));
    assert_eq!(show_location("a.rs", Some((1, 2))), "a.rs:1-2");
    assert_eq!(show_location("a.rs", None), "a.rs");
    assert_eq!(show_range(Some((1, 2))), "1-2");
    assert_eq!(show_range(None), "unknown");
    assert_eq!((block_keyword(CodeBlockType::Function), block_word(CodeBlockType::Function)), ("fn", "function"));
    let mut m = a_match("a", "long/path.rs", Some((1, 2)));
    m.context_label = Some("impl S".to_string());
    m.old_full_block = "fn a() {\n  x();\n}".to_string();
    let n = a_match("a", "b.rs", None);
    assert_eq!(
        match_list(&[m, n], &owned(&["p.rs", "b.rs"])),
        "0\tp.rs:1-2  impl S  x();\n1\tb.rs              "
    );
    assert_eq!(chosen_match(" 1\tb.rs\n", 2), Some(1));
    assert_eq!(chosen_match("2\tb.rs", 2), None);
    assert_eq!(chosen_match("\n", 2), None);
}

#[test]
fn answers_to_the_preview() {
    assert_eq!(preview_answer(" Skip ALL\n"), PreviewAnswer::SkipAll);
    assert_eq!(preview_answer("No\n"), PreviewAnswer::Skip);
    assert_eq!(preview_answer("n"), PreviewAnswer::Skip);
    assert_eq!(preview_answer("\n"), PreviewAnswer::Continue);
}

fn block(name: &str) -> (String, CodeBlockType, String) {
    (name.to_string(), CodeBlockType::Function, format!("fn {name}() {{}}"))
}

#[test]
fn a_place_chosen_is_taken_again() {
    let found = vec![a_match("a", "x.rs", Some((1, 2))), a_match("a", "y.rs", Some((3, 4)))];
    assert_eq!(remembered_places(&found, &place_of(&found[1])), [1]);
    let mut s = Session::new(vec![block("a"), block("a"), block("b")], false);
    assert_eq!(s.opening(), Step::Scan);
    let first = s.find(&found);
    assert_eq!((first.recall, first.step, first.kept), (Recall::Nothing, Step::Choose, vec![0, 1]));
    assert_eq!(s.choose_match(Some(&found[1])), Step::Compare);
    assert_eq!(s.compare(true), Step::Confirm);
    assert_eq!(s.confirm("y\n"), Step::Apply);
    assert_eq!(s.apply(), Step::Scan);
    let second = s.find(&found);
    assert_eq!((second.recall, second.step, second.kept), (Recall::Reused, Step::Compare, vec![1]));
    assert_eq!(s.compare(false), Step::Scan);
    let third = s.find(&[]);
    assert_eq!((third.recall, third.step), (Recall::Nothing, Step::Done));
    assert_eq!(s.tally.processed, ["function a"]);
    assert_eq!(s.tally.unchanged, ["function a"]);
    assert_eq!(s.tally.not_found, ["function b"]);
    assert!(s.tally.declined.is_empty());
    let summary = s.summary();
    assert!(summary.contains("  Blocks processed: 1\n  Blocks skipped: 2\n"));
    assert!(summary.ends_with("\x1b[1;31mNot found:\x1b[0m\n  • function b\n"));
}

#[test]
fn a_refusal_forgets_the_place() {
    let found = vec![a_match("a", "x.rs", Some((1, 2))), a_match("a", "y.rs", Some((3, 4)))];
    let mut s = Session::new(vec![block("a"), block("a"), block("a")], true);
    assert_eq!(s.opening(), Step::Preview);
    assert_eq!(s.answer(PreviewAnswer::Continue), Step::Scan);
    assert_eq!(s.find(&found[..1]).step, Step::Compare);
    assert_eq!(s.compare(true), Step::Confirm);
    assert_eq!(s.confirm("n\n"), Step::Preview);
    assert_eq!(s.answer(PreviewAnswer::Continue), Step::Scan);
    assert_eq!(s.find(&found).step, Step::Choose);
    assert_eq!(s.choose_match(None), Step::Preview);
    assert_eq!(s.answer(PreviewAnswer::Skip), Step::Done);
    assert_eq!(s.tally.declined.len(), 3);
    let mut t = Session::new(vec![block("a"), block("a")], true);
    assert_eq!(t.answer(PreviewAnswer::Continue), Step::Scan);
    assert_eq!(t.find(&found[..1]).step, Step::Compare);
    assert_eq!(t.compare(false), Step::Preview);
    assert_eq!(t.answer(PreviewAnswer::Continue), Step::Scan);
    let moved = vec![a_match("a", "x.rs", Some((7, 8)))];
    let lost = t.find(&moved);
    assert_eq!((lost.recall, lost.step, lost.kept), (Recall::Lost, Step::Compare, vec![0]));
    assert_eq!(t.answer(PreviewAnswer::SkipAll), Step::Done);
    assert_eq!(t.at, 1);
}

fn a_head(vis: &str, is_async: bool, is_unsafe: bool) -> FnHead {
    FnHead { name: "f".to_string(), attrs: vec![], vis: vis.to_string(), is_async, is_unsafe }
}

#[test]
fn the_head_of_a_function_is_kept() {
    let cases = [
        ("pub", false, false, "fn f() {}", "pub fn f() {}"),
        ("pub", false, false, "pub fn f() {}", "pub fn f() {}"),
        ("", false, false, "pub(crate) fn f() {}", "fn f() {}"),
        ("pub (crate)", true, true, "fn f() {}", "pub (crate) async unsafe fn f() {}"),
        ("pub (crate)", false, false, "pub(crate) unsafe fn f() {}", "pub(crate) unsafe fn f() {}"),
        ("", true, false, "const fn f() {}", "async fn f() {}"),
        ("pub", false, true, "default const extern \"C\" fn f() {}", "pub default const unsafe extern \"C\" fn f() {}"),
        ("pub", false, false, "/// See fn f here.\n#[inline] fn  f<T>() {}", "/// See fn f here.\n#[inline] pub fn  f<T>() {}"),
        ("pub", false, false, "pub(super)\nasync\nfn f() {}", "pub async fn f() {}"),
        ("pub", false, false, "fn ff() {}\n    fn f() {}", "fn ff() {}\n    pub fn f() {}"),
        ("pub", false, false, "fn other() {}", "fn other() {}"),
        ("pub", false, false, "/* x */ fn f() {}", "/* x */ fn f() {}"),
    ];
    for (vis, is_async, is_unsafe, new, want) in cases {
        assert_eq!(keep_head(new, "f", &a_head(vis, is_async, is_unsafe)), want);
    }
}

#[test]
fn replacing_keeps_the_old_signature() {
    let new = "fn f() {\n    g();\n}\n";
    for (old, want) in [
        ("pub fn f() {\n}\n", "pub fn f() {\n    g();\n}\n"),
        ("use a;\npub(crate) async fn f() {\n}\nmod b;\n", "use a;\npub (crate) async fn f() {\n    g();\n}\nmod b;\n"),
        ("unsafe fn f() {\n}\n", "unsafe fn f() {\n    g();\n}\n"),
        ("fn f() {\n}\n", "fn f() {\n    g();\n}\n"),
    ] {
        let mut found = find_function_in_file("a.rs", old, "f").unwrap();
        assert_eq!(found.len(), 1);
        let mut m = found.pop().unwrap();
        let want = Ok(Replacement::Content(want.to_string()));
        assert_eq!(replace_function_in_file(old, &m, new, new, "", ""), want);
        m.line_range = None;
        assert_eq!(replace_function_in_file(old, &m, new, new, "", ""), want);
    }
    let private = a_match("f", "a.rs", None);
    assert_eq!(text_for_match(&private, "pub fn f() {}"), "pub fn f() {}");
}
