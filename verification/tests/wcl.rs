use wcc::common::{heatmap_color_bytes, heatmap_color_chars, heatmap_color_lines, heatmap_color_words};
use wcc::config::WclConfig;
use wcc::wcl::{
    detect_classes_in_file, detect_functions_in_file, detect_usage_in_file, extract_arrow_function_name,
    extract_c_function_name, extract_class_name, extract_function_body, extract_function_name, language,
    should_skip_dir, should_skip_file, Lang,
};
use wcc::wcl_copy::{format_file_contents_for_clipboard, select_files_for_clipboard};
use wcc::wcl_report::{
    analyze_content, analyze_file, collect_stats, failed_file, format_report, get_consistent_color, single_file,
    DirectoryStats, FoundFile,
};
use wcc::UnifiedConfig;

const RUST: &str = "struct A {\n    x: u8,\n}\n\nfn one() {\n    two();\n}\n// fn no() {}\nfn two() {\n}\n";

fn owned(v: &[&str]) -> Vec<String> {
    v.iter().map(|s| s.to_string()).collect()
}

fn config() -> WclConfig {
    UnifiedConfig::default().wcl
}

#[test]
fn files_left_out() {
    let c = config();
    assert!(!should_skip_file("a/b.rs", Some(100), Some(b"text"), &c));
    assert!(should_skip_file("a/b.rs", Some(51 * 1024), None, &c));
    assert!(!should_skip_file("a/b.rs", Some(51 * 1024 - 1), None, &c));
    assert!(should_skip_file("a/x.PNG", None, None, &c));
    assert!(should_skip_file("a/x.rs.bkp", None, None, &c));
    assert!(should_skip_file("a/b.rs", None, Some(b"a\0b"), &c));
    let mut late = vec![b'a'; 1024];
    late.push(0);
    assert!(!should_skip_file("a/b.rs", None, Some(&late), &c));
    assert!(should_skip_dir("x/target", &c) && !should_skip_dir("target/x", &c));
}

#[test]
fn languages() {
    for (ext, lang) in [
        ("rs", Lang::Rust),
        ("py", Lang::Python),
        ("tsx", Lang::Script),
        ("hpp", Lang::C),
        ("go", Lang::Go),
        ("txt", Lang::Other),
    ] {
        assert_eq!(language(ext), lang);
    }
}

#[test]
fn names_in_lines() {
    assert_eq!(extract_function_name("pub fn a<T>(x: T) {", "fn "), Some("a".to_string()));
    assert_eq!(extract_function_name("fn (x)", "fn "), None);
    assert_eq!(extract_function_name("def a-b():", "def "), None);
    assert_eq!(extract_class_name("class A(B):", "class "), Some("A".to_string()));
    assert_eq!(extract_class_name("struct B<T> {", "struct "), None);
    assert_eq!(extract_class_name("struct C: D", "struct "), Some("C".to_string()));
    assert_eq!(extract_arrow_function_name("const f = (x) => {"), Some("f".to_string()));
    assert_eq!(extract_arrow_function_name("let f = x => y"), None);
    assert_eq!(extract_c_function_name("static int main(void) {"), Some("main".to_string()));
    assert_eq!(extract_c_function_name("*p(x)"), None);
    assert_eq!(extract_c_function_name("(x)"), None);
}

#[test]
fn bodies_of_functions() {
    let ls = owned(&["fn a() {", "  b(", "  );", "}", "x"]);
    assert_eq!(extract_function_body(&ls, 0, "rs"), 3);
    assert_eq!(extract_function_body(&ls, 4, "rs"), 4);
    assert_eq!(extract_function_body(&ls, 90, "rs"), 90);
    let py = owned(&["def a():", "    b", "", "    c", "d"]);
    assert_eq!(extract_function_body(&py, 0, "py"), 3);
    assert_eq!(extract_function_body(&py, 3, "py"), 3);
}

#[test]
fn functions_of_a_file_by_language() {
    let found = detect_functions_in_file(RUST, "rs", &config());
    let got: Vec<_> = found.iter().map(|f| (f.name.as_str(), f.start_line, f.end_line, f.lines)).collect();
    assert_eq!(got, vec![("one", 5, 7, 2), ("two", 9, 10, 1)]);
    assert_eq!((found[0].words, found[0].chars), (5, 23));
    let mut few = config();
    few.max_functions_per_file = 1;
    assert_eq!(detect_functions_in_file(RUST, "rs", &few).len(), 1);
    few.min_function_lines = 2;
    few.max_functions_per_file = 9;
    assert_eq!(detect_functions_in_file(RUST, "rs", &few).len(), 1);
    assert_eq!(detect_functions_in_file("const f = () => {\n};\n", "js", &config())[0].name, "f");
    assert_eq!(detect_functions_in_file("func (r R) Get() {\n}\nfunc Put() {\n}\n", "go", &config())[0].name, "Put");
    assert!(detect_functions_in_file(RUST, "txt", &config()).is_empty());
}

#[test]
fn classes_of_a_file() {
    let found = detect_classes_in_file(RUST, "rs", &config());
    assert_eq!(found.len(), 1);
    assert_eq!((found[0].name.as_str(), found[0].start_line, found[0].end_line), ("struct A", 1, 3));
    let py = "class P:\n    def m(self):\n        return 1\n\nx = 1\n";
    let class = detect_classes_in_file(py, "py", &config());
    assert_eq!(class[0].name, "class P");
    assert_eq!(class[0].methods.len(), 0);
    let longer = "class P:\n    def m(self):\n        return 1\n    y = 2\nx = 1\n";
    assert_eq!(detect_classes_in_file(longer, "py", &config())[0].methods[0].name, "m");
    assert_eq!(detect_classes_in_file("type T struct {\n}\n", "go", &config())[0].name, "type T");
}

#[test]
fn uses_of_names() {
    let functions = detect_functions_in_file(RUST, "rs", &config());
    let classes = detect_classes_in_file(RUST, "rs", &config());
    let uses = detect_usage_in_file(RUST, &functions, &classes);
    assert_eq!(uses.len(), 3);
    assert_eq!(uses.get("one"), Some(&1));
    assert_eq!(uses.get("two"), Some(&2));
    assert_eq!(uses.get("struct A"), Some(&1));
}

#[test]
fn totals_add_up() {
    let c = config();
    let a = analyze_content("/p/a.rs", RUST, &c);
    assert_eq!((a.lines, a.functions.len(), a.classes.len(), a.error.is_none()), (10, 2, 1, true));
    let files = vec![
        analyze_content("/p/a.rs", RUST, &c),
        failed_file("/p/b.rs", "Failed to read: gone"),
        analyze_content("/p/c.py", "", &c),
        analyze_content("/p/d.txt", "x y\n", &c),
    ];
    let all = collect_stats(files, &c);
    assert_eq!((all.files, all.total_lines, all.total_functions, all.total_classes), (2, 11, 2, 1));
    assert_eq!(all.file_stats[1].path, "/p/d.txt");
    let one = single_file(failed_file("/p/b.rs", "E"));
    assert_eq!((one.files, one.total_lines, one.file_stats.len()), (1, 0, 1));
    let mut shows_empty = config();
    shows_empty.show_empty_files = true;
    assert_eq!(collect_stats(vec![analyze_content("/e", "", &shows_empty)], &shows_empty).files, 1);
}

fn found(path: &str, size: u64, content: Result<&str, &str>) -> FoundFile {
    FoundFile {
        path: path.to_string(),
        size: Some(size),
        bytes: content.ok().map(|c| c.as_bytes().to_vec()),
        content: content.map(|c| c.to_string()).map_err(|e| e.to_string()),
    }
}

#[test]
fn a_file_as_it_was_found() {
    let c = config();
    assert_eq!(analyze_file(&found("/p/a.rs", 9, Ok(RUST)), &c), analyze_content("/p/a.rs", RUST, &c));
    let skipped = failed_file("/p/a.rs", "Skipped (binary/large/pattern)");
    assert_eq!(analyze_file(&found("/p/a.rs", 51 * 1024, Ok(RUST)), &c), skipped);
    assert_eq!(analyze_file(&found("/p/a.rs", 9, Ok("a\0")), &c), skipped);
    assert_eq!(analyze_file(&found("/p/a.rs", 9, Err("gone")), &c), failed_file("/p/a.rs", "Failed to read: gone"));
    let unread = FoundFile { path: "/p/a.rs".to_string(), size: None, bytes: None, content: Ok("x\n".to_string()) };
    assert_eq!(analyze_file(&unread, &c).lines, 1);
}

#[test]
fn threads_change_nothing() {
    let mut a = config();
    let mut b = config();
    a.parallel_processing = true;
    b.parallel_processing = false;
    b.max_threads = 1;
    let files = [
        found("/p/a.rs", 9, Ok(RUST)),
        found("/p/b.rs", 9, Err("gone")),
        found("/p/c.rs", 9, Ok("")),
        found("/p/d.py", 9, Ok("def f():\n    pass\n")),
    ];
    let by = |c: &WclConfig| collect_stats(files.iter().map(|f| analyze_file(f, c)).collect(), c);
    assert_eq!(by(&a), by(&b));
    assert_eq!(by(&a).files, 2);
    assert!(by(&a).file_stats.iter().all(|f| f.error.is_none() && f.lines > 0));
}

#[test]
fn the_report_of_a_folder() {
    let mut c = config();
    c.show_usage_stats = true;
    let stats = collect_stats(vec![analyze_content("/p/a.rs", RUST, &c)], &c);
    let f = &stats.file_stats[0];
    let row = |lines, words, chars| {
        format!(
            "{} lines, {} words, {} chars",
            heatmap_color_lines(lines),
            heatmap_color_words(words),
            heatmap_color_chars(chars)
        )
    };
    let rule = "=".repeat(80);
    let expected = format!(
        "📊 Directory Analysis: /p\n{rule}\n\n📈 Summary:\n  Files analyzed: 1\n  Total lines: {l}\n  Total words: {w}\n  Total chars: {ch}\n  Total bytes: {b}\n  Total functions: 2\n  Total classes/structs: 1\n\n📁 Per-file Statistics:\n{}\n\n  📄 {}a.rs\x1b[0m\n     Lines: {l} | Words: {w} | Chars: {ch} | Bytes: {b}\n     🎯 Functions (2)\n        • one ({}) [L5-L7]\n        • two ({}) [L9-L10]\n     📦 Classes/Structs (1)\n        • struct A ({}) [L1-L3]\n     📊 Usage statistics:\n        • one used 1 times\n        • struct A used 1 times\n        • two used 2 times\n\n{rule}\n",
        "-".repeat(80),
        get_consistent_color("a.rs"),
        row(f.functions[0].lines, f.functions[0].words, f.functions[0].chars),
        row(f.functions[1].lines, f.functions[1].words, f.functions[1].chars),
        row(f.classes[0].lines, f.classes[0].words, f.classes[0].chars),
        l = heatmap_color_lines(10),
        w = heatmap_color_words(f.words),
        ch = heatmap_color_chars(f.chars),
        b = heatmap_color_bytes(f.bytes),
    );
    assert_eq!(format_report(&stats, "/p", &c), expected);
    let mut none = config();
    none.max_files_to_display = 0;
    assert!(format_report(&stats, "/p", &none).contains("\n  ... and 1 more files not shown\n"));
    let failed = single_file(failed_file("/p/b.rs", "Skipped"));
    assert!(format_report(&failed, "/p", &c).contains("     ⚠ Skipped\n"));
}

#[test]
fn a_color_for_a_name() {
    assert_eq!(get_consistent_color(""), "\x1b[38;2;224;81;81m");
}

fn sized(sizes: &[usize]) -> DirectoryStats {
    let c = config();
    let files = sizes
        .iter()
        .map(|n| analyze_content(&format!("/p/{n}.rs"), &format!("{}\n", "x".repeat(n - 1)), &c))
        .collect();
    collect_stats(files, &c)
}

#[test]
fn the_smallest_files_are_copied() {
    let stats = sized(&[30, 10, 20, 10]);
    assert_eq!(select_files_for_clipboard(&stats.file_stats, 100, 40), [1, 3, 2]);
    assert_eq!(select_files_for_clipboard(&stats.file_stats, 100, 39), [1, 3]);
    assert_eq!(select_files_for_clipboard(&stats.file_stats, 100, 9), Vec::<usize>::new());
    assert_eq!(select_files_for_clipboard(&stats.file_stats, 100, 1000).len(), 4);
    let bad = vec![failed_file("/p/a", "E")];
    assert!(select_files_for_clipboard(&bad, 100, 1000).is_empty());
    let wordy = vec![analyze_content("/p/a", "a b c\n", &config()), analyze_content("/p/b", "a b\n", &config())];
    assert_eq!(select_files_for_clipboard(&wordy, 3, 1000), [1, 0]);
    assert_eq!(select_files_for_clipboard(&wordy, 2, 1000), [1]);
}

#[test]
fn the_copy_holds_small_files_and_tells_of_large_ones() {
    let mut c = config();
    c.max_clipboard_bytes = 15;
    let stats = sized(&[30, 10]);
    let rule = "// ============================================================\n";
    let dashes = "-".repeat(60);
    let expected = format!(
        "// wcl Analysis Report\n{rule}// Total files: 2 | Total size: 40 bytes\n// Clipboard limit: 15 bytes (0 KB)\n{rule}\n// 📁 COPIED FILES (full content):\n// {dashes}\n// 10.rs\n// Size: 10 bytes | Lines: 1 | Words: 1 | Functions: 0 | Classes: 0\n{}\nxxxxxxxxx\n\n\n// 📊 FILES NOT COPIED (exceeded byte limit) - Statistics Only:\n// {dashes}\n//   30.rs (30 bytes, 1 lines, 1 words, 0 functions, 0 classes)\n\n{rule}// SUMMARY:\n//   Files copied: 1 (10 bytes / 15 bytes limit)\n//   Files with statistics only: 1\n//   Total functions found: 0\n//   Total classes found: 0\n{rule}",
        "-".repeat(80)
    );
    assert_eq!(format_file_contents_for_clipboard(&stats, "/p", &c), expected);
    let more = collect_stats(vec![analyze_content("/p/a.rs", RUST, &c)], &c);
    let text = format_file_contents_for_clipboard(&more, "/p", &c);
    assert!(text.contains("//     Functions: one, two\n//     Classes: struct A\n"));
}
