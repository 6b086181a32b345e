use wcc::common::TextStats;
use wcc::diff::{ChangeTag, LineChange};
use wcc::wcp::{
    backup_path, changes_by_function, choose_filename, count_changes, deduce_filename_from_content,
    detect_function_name, diff_stats, function_diff_stats, map_lines_to_function, show_diff,
    show_function_diffs, show_written, with_offered_extension, DiffStats, FilenameChoice,
};

fn owned(v: &[&str]) -> Vec<String> {
    v.iter().map(|s| s.to_string()).collect()
}

fn change(tag: ChangeTag, text: &str) -> LineChange {
    LineChange { tag, text: text.to_string() }
}

#[test]
fn lines_added_and_removed() {
    let d = diff_stats("a\nb\nc\n", "a\nx\ny\nc\n");
    assert_eq!(d, DiffStats { added_lines: 2, removed_lines: 1, changed: true });
    assert_eq!(diff_stats("a\n", "a\n"), DiffStats { added_lines: 0, removed_lines: 0, changed: false });
    assert_eq!(
        count_changes(&[change(ChangeTag::Insert, "x"), change(ChangeTag::Equal, "y")]),
        DiffStats { added_lines: 1, removed_lines: 0, changed: true }
    );
    assert_eq!(show_diff(&d), "\x1b[35mdiff\x1b[0m changed=true  \x1b[32m+2\x1b[0m  \x1b[31m-1\x1b[0m\n");
}

#[test]
fn added_and_removed_lines_make_up_for_the_lengths() {
    let texts = ["", "a", "a\n", "a\nb", "b\na\n", "\n\n", "a\nb\nc\n", "c\nb\na", "x\na\nc\n\n"];
    for old in texts {
        for new in texts {
            let d = diff_stats(old, new);
            assert_eq!(d.added_lines + old.lines().count(), d.removed_lines + new.lines().count(), "{old:?} {new:?}");
        }
    }
    let cut = diff_stats("a\n", "a\rb\n");
    assert_eq!((cut.added_lines, cut.removed_lines), (2, 1));
}

#[test]
fn names_of_functions() {
    for (line, name) in [
        ("fn a() {", Some("fna")),
        ("  pub fn b<T>(x: T)", Some("pub fnb<T>")),
        ("pub(crate) fn c()", Some("pub(crate) fnc")),
        ("def d(x):", Some("defd")),
        ("function e() {", Some("functione")),
        ("class F:", Some("classF:")),
        ("impl G {", Some("implG")),
        ("int main(void) {", Some("main")),
        ("(x) {", None),
        ("let a = b(c);", None),
        ("", None),
    ] {
        assert_eq!(detect_function_name(line).as_deref(), name, "{line}");
    }
}

#[test]
fn lines_belong_to_the_function_before_them() {
    assert_eq!(
        map_lines_to_function("use a;\nfn f() {\n  x\n}\ndef g():\n"),
        ["<global>", "fnf", "fnf", "fnf", "defg"]
    );
}

#[test]
fn changes_are_counted_by_function() {
    let old = "x\nfn f() {\n    1\n}\n";
    let new = "y\nfn f() {\n    2\n    3\n}\n";
    let stats = function_diff_stats(old, new);
    assert_eq!(stats.len(), 2);
    assert_eq!(
        stats.get("<global>"),
        Some(&DiffStats { added_lines: 1, removed_lines: 1, changed: true })
    );
    assert_eq!(stats.get("fnf"), Some(&DiffStats { added_lines: 2, removed_lines: 1, changed: true }));
    assert_eq!(
        show_function_diffs(&stats),
        "\x1b[34mper-function diff\x1b[0m\n  <global>  \x1b[32m+1\x1b[0m \x1b[31m-1\x1b[0m changed=true\n  fnf  \x1b[32m+2\x1b[0m \x1b[31m-1\x1b[0m changed=true\n"
    );
    let whole = diff_stats(old, new);
    let values = [stats.value_at(0), stats.value_at(1)];
    assert_eq!(values.iter().map(|d| d.added_lines).sum::<usize>(), whole.added_lines);
    assert_eq!(values.iter().map(|d| d.removed_lines).sum::<usize>(), whole.removed_lines);
    let same = function_diff_stats(old, old);
    assert_eq!(same.len(), 0);
    assert_eq!(show_function_diffs(&same), "");
}

#[test]
fn changes_behind_the_last_line_are_global() {
    let stats = changes_by_function(&owned(&["a"]), &[], &[
        change(ChangeTag::Delete, "1\n"),
        change(ChangeTag::Delete, "2\n"),
        change(ChangeTag::Insert, "3\n"),
    ]);
    assert_eq!(stats.get("a").map(|d| d.removed_lines), Some(1));
    assert_eq!(stats.get("<global>"), Some(&DiffStats { added_lines: 1, removed_lines: 1, changed: true }));
}

#[test]
fn file_names_in_comments() {
    for (content, name) in [
        ("// src/main.rs\nx", Some("src/main.rs")),
        ("#!x\n# conf.py", Some("conf.py")),
        ("x\n<!-- page.html\n", Some("page.html")),
        ("// see lib.rs # 10:00", Some("lib.rs")),
        ("// see src/lib.rs now", None),
        ("x\ny\n// a.rs", None),
        ("// ab", None),
        ("", None),
    ] {
        assert_eq!(deduce_filename_from_content(content).as_deref(), name, "{content}");
    }
}

#[test]
fn names_that_are_typed() {
    assert_eq!(choose_filename(" \n"), FilenameChoice::Missing);
    assert_eq!(choose_filename("a.py\n"), FilenameChoice::Complete("a.py".to_string()));
    assert_eq!(choose_filename("main\n"), FilenameChoice::Bare("main".to_string()));
    assert_eq!(with_offered_extension("main", "Y\n"), "main.rs");
    assert_eq!(with_offered_extension("main", "n\n"), "main");
    assert_eq!(backup_path("a/b.rs", ".bkp"), "a/b.rs.bkp");
    assert_eq!(backup_path("a/b.rs", "~"), "a/b.rs~");
}

#[test]
fn what_was_written_is_counted() {
    assert_eq!(
        show_written("a.rs", &TextStats { lines: 1, words: 2, chars: 3, bytes: 4 }),
        "\x1b[36mfile\x1b[0m a.rs  \x1b[33mlines\x1b[0m 1  \x1b[33mwords\x1b[0m 2  \x1b[33mchars\x1b[0m 3  \x1b[33mbytes\x1b[0m 4\n"
    );
}
