use wcc::common::calc_stats;
use wcc::wce::{
    attach_source, build_error_report, extract_code_snippet, find_function_end, find_function_with_syn,
    functions_of, parse_cargo_errors, preview_error, report_stats,
};

const SOURCE: &str = "use std::fmt;\n\npub async fn first() {\n    let a = 1;\n}\n\nstruct S;\n\nimpl S {\n    fn second(&self) -> u8 {\n        7\n    }\n}\n";

fn rows(s: &str) -> Vec<String> {
    s.lines().map(|l| l.to_string()).collect()
}

#[test]
fn reads_the_errors_of_a_build() {
    let out = "   Compiling x\nerror[E0425]: cannot find value `y`\n  --> src/main.rs:4:13\n   |\nwarning: unused\n --> src/a.rs:1:1\nerror[E0308]: mismatched types\nno place\n";
    let errors = parse_cargo_errors(out);
    assert_eq!(errors.len(), 2);
    assert_eq!(errors[0].error_code, "E0425");
    assert_eq!(errors[0].message, "cannot find value `y`");
    assert_eq!(errors[0].file_path, "src/main.rs");
    assert_eq!((errors[0].line, errors[0].column), (4, 13));
    assert_eq!(errors[1].error_code, "E0308");
    assert_eq!(errors[1].file_path, "");
    assert_eq!((errors[1].line, errors[1].column), (0, 0));
    assert!(parse_cargo_errors("error: plain\n").is_empty());
}

#[test]
fn a_place_is_looked_for_in_nine_lines() {
    let near = format!("error[E1]: m\n{}  --> a.rs:2:3\n", "x\n".repeat(8));
    let far = format!("error[E1]: m\n{}  --> a.rs:2:3\n", "x\n".repeat(9));
    assert_eq!(parse_cargo_errors(&near)[0].line, 2);
    assert_eq!(parse_cargo_errors(&far)[0].line, 0);
}

#[test]
fn numbers_too_large_read_as_zero() {
    let errors = parse_cargo_errors("error[E1]: m\n --> a.rs:99999999999999999999:3\n");
    assert_eq!((errors[0].line, errors[0].column), (0, 3));
}

#[test]
fn finds_the_function_around_a_line() {
    let f = find_function_with_syn(SOURCE, 4).unwrap();
    assert_eq!((f.name.as_str(), f.start_line, f.end_line, f.is_pub, f.is_async), ("first", 3, 5, true, true));
    assert_eq!(f.body, "pub async fn first() {\n    let a = 1;\n}");
    let g = find_function_with_syn(SOURCE, 10).unwrap();
    assert_eq!((g.name.as_str(), g.start_line, g.end_line, g.is_pub, g.is_async), ("second", 10, 12, false, false));
    assert!(find_function_with_syn(SOURCE, 7).is_none());
    assert!(find_function_with_syn("fn broken( {", 1).is_none());
    assert!(functions_of("fn broken( {").is_none());
    assert_eq!(functions_of(SOURCE).unwrap().len(), 2);
}

#[test]
fn the_end_of_a_function_is_its_closing_brace() {
    let ls = rows("fn a() {\n  { }\n}\n}");
    assert_eq!(find_function_end(&ls, 1), 3);
    assert_eq!(find_function_end(&ls, 3), 3);
    assert_eq!(find_function_end(&rows("fn a();"), 1), 1);
    assert_eq!(find_function_end(&ls, 9), 9);
}

#[test]
fn snippets_mark_their_line() {
    assert_eq!(
        extract_code_snippet("a\nb\nc\nd\ne\nf\n", 4),
        "     2 b\n     3 c\n→    4 d\n     5 e\n     6 f"
    );
    assert_eq!(extract_code_snippet("a\nb\n", 1), "→    1 a\n     2 b");
    assert_eq!(extract_code_snippet("a\n", 9), "");
}

#[test]
fn the_report_holds_each_error_with_its_function() {
    let mut errors = parse_cargo_errors(
        "error[E0425]: no y\n --> src/main.rs:4:13\nerror[E0001]: top\n\n\n\n\n\n\n\n\n\n --> src/main.rs:1:1\nerror[E0002]: far\n --> gone.rs:1:1\n",
    );
    attach_source(&mut errors[0], Some(SOURCE));
    assert!(errors[0].file_exists && !errors[1].file_exists && !errors[2].file_exists);
    let bar = "━━━━━━━━━━━━━━━━━━━━━━━━━━━━━━━━━━━━━━━━";
    let rule = "// ============================================================";
    let snippet = "     2 \n     3 pub async fn first() {\n→    4     let a = 1;\n     5 }\n     6 ";
    let expected = format!(
        "// Cargo Build Error Report\n{rule}\n// Total errors: 3\n{rule}\n\n\n{bar}\nError 1: E0425\n  src/main.rs:4:13\n  no y\n\nCode snippet:\n{snippet}\n\nFunction: pub async  first\n  Lines: 3-5\n\npub async fn first() {{\n    let a = 1;\n}}\n\n\n{bar}\nError 2: E0001\n  :0:0\n  top\n"
    );
    let report = build_error_report(&errors);
    assert!(report.starts_with(&expected), "{report}");
    assert!(report.ends_with(&format!("\n{bar}\nError 3: E0002\n  gone.rs:1:1\n  far\n\n")));
    let shown = preview_error(1, &errors[0]);
    assert!(shown.contains("\x1b[1;31mError 1: E0425\x1b[0m"));
    assert!(shown.contains("\x1b[36m  → Function: pub async  first (lines 3-5)\x1b[0m"));
    let counted = report_stats(&errors, &calc_stats(&report));
    assert!(counted.contains("\x1b[33mTotal errors:\x1b[0m 3\n"));
    assert!(counted.contains("\x1b[32mFunctions found:\x1b[0m 1\n"));
    assert!(counted.contains("\x1b[31mFunctions not found:\x1b[0m 2\n"));
}

#[test]
fn an_error_outside_of_functions_is_reported_so() {
    let mut errors = parse_cargo_errors("error[E7]: m\n --> a.rs:7:1\n");
    attach_source(&mut errors[0], Some(SOURCE));
    let report = build_error_report(&errors);
    assert!(report.contains(
        "\n⚠ [FUNCTION WAS NOT FOUND]\n  Error at line 7, but no enclosing function found\n"
    ));
    assert!(errors[0].function.is_none() && errors[0].code_snippet.is_some());
    let mut unread = parse_cargo_errors("error[E7]: m\n --> a.rs:7:1\n");
    attach_source(&mut unread[0], None);
    assert!(unread[0].file_exists && unread[0].code_snippet.is_none());
}
