use wcc::common::TextStats;
use wcc::wcn::{
    chosen_file, cut_function, extract_content, extract_function, find_function_end, header_present,
    lower_extension, make_function_pattern, make_payload, parse_args, print_stats, take_lines, ArgError, Args,
    FunctionError,
};

fn owned(v: &[&str]) -> Vec<String> {
    v.iter().map(|s| s.to_string()).collect()
}

fn no_args() -> Args {
    Args { file: None, head_lines: None, tail_lines: None, function: None }
}

#[test]
fn reads_flags() {
    assert_eq!(
        parse_args(&owned(&["-h", "3", "a.rs", "--tail", "4", "-f", "-x"])),
        Ok(Args {
            file: Some("a.rs".to_string()),
            head_lines: Some(3),
            tail_lines: Some(4),
            function: Some("-x".to_string()),
        })
    );
    assert_eq!(parse_args(&[]), Ok(no_args()));
    assert_eq!(parse_args(&owned(&["-h", "1", "--head", "2"])).unwrap().head_lines, Some(2));
}

#[test]
fn refuses_flags() {
    let cases = [
        (vec!["-h"], ArgError::NoHead, "-h requires a number argument"),
        (vec!["--head", "x"], ArgError::BadHead, "invalid number for -h"),
        (vec!["a", "-t"], ArgError::NoTail, "-t requires a number argument"),
        (vec!["--tail", "-1"], ArgError::BadTail, "invalid number for -t"),
        (vec!["-f"], ArgError::NoFunction, "-f requires a function name argument"),
        (vec!["a", "b"], ArgError::TwoFiles, "multiple file arguments provided"),
        (vec!["-q"], ArgError::UnknownFlag("-q".to_string()), "unknown flag: -q"),
    ];
    for (args, error, message) in cases {
        let got = parse_args(&owned(&args)).unwrap_err();
        assert_eq!(got.message(), message);
        assert_eq!(got, error);
    }
}

#[test]
fn takes_the_head_and_the_tail() {
    let s = "a\nb\nc\nd\ne\n";
    assert_eq!(take_lines(s, None, None), s);
    assert_eq!(take_lines(s, Some(2), None), "a\nb");
    assert_eq!(take_lines(s, None, Some(2)), "d\ne");
    assert_eq!(take_lines(s, Some(9), None), "a\nb\nc\nd\ne");
    assert_eq!(take_lines(s, Some(1), Some(1)), "a\n... (3) lines omitted ...\n\ne");
    assert_eq!(take_lines(s, Some(2), Some(3)), "a\nb\nc\nd\ne");
    assert_eq!(take_lines(s, Some(4), Some(3)), "a\nb\nc\nd\ne");
    assert_eq!(take_lines("a\nb", Some(1), Some(1)), "a\nb");
    assert_eq!(take_lines(s, Some(usize::MAX), Some(usize::MAX)), "a\nb\nc\nd\ne");
    assert_eq!(take_lines(s, Some(2), Some(0)), "a\nb\n... (3) lines omitted ...\n");
    assert_eq!(take_lines(s, Some(5), Some(0)), "a\nb\nc\nd\ne");
}

#[test]
fn patterns_of_languages() {
    assert_eq!(
        make_function_pattern("py", "a.f"),
        "(?m)^\\s*def\\s+a\\.f\\b{end-half}|async\\s+def\\s+a\\.f\\b{end-half}|class\\s+a\\.f\\b{end-half}"
    );
    assert_eq!(
        make_function_pattern("go", "f"),
        "(?m)^\\s*func\\s+f\\b{end-half}|func\\s+\\([^)]+\\)\\s+f\\b{end-half}"
    );
    assert_eq!(make_function_pattern("", "f"), "(?m)^f\\b{end-half}$");
}

/// The function `f` that is found in `lines` of a language.
fn found(lines: &[&str], ext: &str) -> Option<String> {
    extract_function(&lines.join("\n"), "f", ext).ok()
}

#[test]
fn heads_of_functions_are_hit() {
    let heads = [
        ("rs", "fn f() {"),
        ("rs", "mod m { pub fn f() {}"),
        ("rs", "extern crate x; async fn f() {"),
        ("rs", "    pub fn f() {"),
        ("rs", "async fn f() {"),
        ("rs", "pub(crate) async unsafe fn f<T>() {"),
        ("rs", "pub(in a::b) const fn f() {"),
        ("rs", "#[inline] pub unsafe extern \"C\" fn f() {"),
        ("js", "function f() {"),
        ("js", "export default async function f() {"),
        ("ts", "export const f = () => {"),
        ("jsx", "let f= () => {"),
        ("tsx", "class f {"),
        ("c", "static int *f(void) {"),
        ("c", "f() { return 1; "),
        ("cpp", "std::vector<int> f (int a) {"),
        ("hpp", "class f {"),
        ("go", "func f() {"),
        ("go", "func (s *S) f() {"),
    ];
    for (ext, head) in heads {
        let want = format!("{head}\n}}");
        assert_eq!(found(&["ff() {", "}", head, "}", ""], ext), Some(want), "{ext}: {head}");
    }
    let other = [
        ("rs", "fn foo() {"),
        ("rs", "// fn f() {"),
        ("rs", "let x = f();"),
        ("py", "def f1():"),
        ("js", "const ff = 1;"),
        ("js", "const x = f();"),
        ("c", "int f(int a);"),
        ("c", "    return f(a);"),
        ("c", "if (f(a)) {"),
        ("go", "func ff() {"),
        ("sh", "f() {"),
    ];
    for (ext, line) in other {
        assert_eq!(found(&[line, "}"], ext), None, "{ext}: {line}");
    }
    assert_eq!(found(&["mod m { pub fn f() {} }", "x"], "rs"), Some("mod m { pub fn f() {} }".to_string()));
    assert_eq!(found(&["f (a)", "{", "}"], "c"), Some("f (a)\n{\n}".to_string()));
    assert_eq!(found(&["f", "{", "}"], "sh"), Some("f\n{\n}".to_string()));
    assert_eq!(
        extract_function("fn foobar() {\n}\nfn foo() {\n}\n", "foo", "rs"),
        Ok("fn foo() {\n}".to_string())
    );
}

#[test]
fn cuts_functions_out() {
    let rs = "use a;\nfn one() {\n    1\n}\npub fn two(\n    x: u8,\n) {\n    x\n}\n";
    assert_eq!(extract_function(rs, "one", "rs"), Ok("fn one() {\n    1\n}".to_string()));
    assert_eq!(
        extract_function(rs, "two", "rs"),
        Ok("pub fn two(\n    x: u8,\n) {\n    x\n}".to_string())
    );
    assert_eq!(extract_function(rs, "three", "rs"), Err(FunctionError::NotFound));
    let py = "def f():\n    a\n\n    b\nx = 1\n";
    assert_eq!(extract_function(py, "f", "py"), Ok("def f():\n    a\n\n    b".to_string()));
    assert_eq!(extract_function("", "f", "rs"), Err(FunctionError::NotFound));
    assert_eq!(
        extract_content(rs, &Args { function: Some("one".to_string()), ..no_args() }, "x/A.RS"),
        Ok("fn one() {\n    1\n}".to_string())
    );
    assert_eq!(
        extract_content("a\nb\n", &Args { head_lines: Some(1), ..no_args() }, "a.rs"),
        Ok("a".to_string())
    );
}

#[test]
fn ends_of_functions() {
    let ls = owned(&["void f(int a)", "    ;", "x"]);
    assert_eq!(find_function_end(&ls, 0, "c"), 1);
    assert_eq!(find_function_end(&ls, 2, "c"), 2);
    assert_eq!(find_function_end(&ls, 90, "c"), ls.len() - 1);
    assert_eq!(find_function_end(&owned(&["a(", "{", "}", ")"]), 0, "rs"), 3);
    assert_eq!(cut_function(&ls, &[false, false, true], "c"), Some("x".to_string()));
    assert_eq!(cut_function(&ls, &[false, false, false], "c"), None);
}

#[test]
fn headers_are_written_once() {
    assert_eq!(lower_extension("a/B.Rs"), "rs");
    assert_eq!(lower_extension("Makefile"), "");
    assert!(header_present("// a.rs\nx", "a.rs"));
    assert!(header_present("x\n# see a.rs", "a.rs"));
    assert!(!header_present("x\ny\n// a.rs", "a.rs"));
    assert_eq!(make_payload("x\n", "a.rs", "//", &None), "// a.rs\nx\n");
    let timed = make_payload("x\n", "a.rs", "//", &Some("12:00".to_string()));
    assert_eq!(timed, "// a.rs # 12:00\nx\n");
    assert_eq!(make_payload(&timed, "a.rs", "//", &Some("13:00".to_string())), timed);
}

#[test]
fn counts_are_shown_with_the_flags() {
    let stats = TextStats { lines: 1, words: 2, chars: 3, bytes: 4 };
    assert_eq!(
        print_stats("a.rs", &stats, &no_args()),
        "\x1b[36mfile\x1b[0m a.rs  \x1b[33mlines\x1b[0m 1  \x1b[33mwords\x1b[0m 2  \x1b[33mchars\x1b[0m 3  \x1b[33mbytes\x1b[0m 4\n"
    );
    let args = Args {
        file: None,
        head_lines: Some(5),
        tail_lines: Some(6),
        function: Some("g".to_string()),
    };
    assert!(print_stats("a.rs", &stats, &args).starts_with("\x1b[36mfile\x1b[0m a.rs [-h 5, -t 6, -f g]  "));
}

#[test]
fn a_file_must_be_chosen() {
    assert_eq!(chosen_file(true, " a.rs\n"), Some("a.rs".to_string()));
    assert_eq!(chosen_file(true, "\n"), None);
    assert_eq!(chosen_file(false, "a.rs"), None);
}
