use wcc::config::UnifiedConfig;
use wcc::wcs::{
    bak_path, count_occurrences_ignore_case, is_too_large, modified_text, print_summary, process_lines,
    replace_ignore_case, replace_marked, settings, should_include, should_process_file, show_change, Args,
};

fn owned(v: &[&str]) -> Vec<String> {
    v.iter().map(|s| s.to_string()).collect()
}

fn plain_args() -> Args {
    Args {
        old_string: "foo".to_string(),
        new_string: "bar".to_string(),
        directory: ".".to_string(),
        pattern: None,
        backup: None,
        dry_run: None,
        ignore_case: None,
        verbose: None,
    }
}

#[test]
fn test_replace_ignore_case() {
    assert_eq!(replace_ignore_case("Hello World", "hello", "Hi"), "Hi World");
    assert_eq!(replace_ignore_case("HELLO WORLD", "hello", "Hi"), "Hi WORLD");
    assert_eq!(replace_ignore_case("hello hello", "hello", "hi"), "hi hi");
}

#[test]
fn test_count_occurrences_ignore_case() {
    assert_eq!(count_occurrences_ignore_case("Hello hello HELLO", "hello"), 3);
    assert_eq!(count_occurrences_ignore_case("No matches here", "foo"), 0);
}

#[test]
fn test_should_process_file() {
    let config = UnifiedConfig::default();
    let args = Args {
        old_string: "foo".to_string(),
        new_string: "bar".to_string(),
        directory: ".".to_string(),
        pattern: None,
        backup: None,
        dry_run: None,
        ignore_case: None,
        verbose: None,
    };

    assert!(should_process_file("test.rs", &config, &args));
    assert!(should_process_file("test.go", &config, &args));
    assert!(should_process_file("Dockerfile", &config, &args));
    assert!(!should_process_file("test.exe", &config, &args));
    assert!(!should_process_file("test.png", &config, &args));
}

#[test]
fn flags_override_the_configuration() {
    let config = UnifiedConfig::default();
    let s = settings(&plain_args(), &config);
    assert!(s.auto_backup && !s.dry_run && s.case_sensitive && s.show_line_details);
    let args = Args {
        backup: Some(false),
        dry_run: Some(true),
        ignore_case: Some(true),
        verbose: Some(false),
        ..plain_args()
    };
    let t = settings(&args, &config);
    assert!(!t.auto_backup && t.dry_run && !t.case_sensitive && !t.show_line_details);
}

#[test]
fn excluded_paths_are_not_walked() {
    let mut config = UnifiedConfig::default();
    assert!(should_include("./src/main.rs", &config, &plain_args()));
    assert!(!should_include("./target/x.rs", &config, &plain_args()));
    for excluded in ["a/x.rs.bkp", "Cargo.lock", "web/app.min.js"] {
        assert!(!should_include(excluded, &config, &plain_args()));
    }
    config.wrs.exclude_patterns = owned(&["*.map"]);
    assert!(!should_include("a.map", &config, &plain_args()));
    assert!(should_include("a.map/b.js", &config, &plain_args()));
    assert!(should_include("map", &config, &plain_args()));
    assert!(should_include("Cargo.lock", &config, &plain_args()));
}

#[test]
fn a_pattern_takes_the_place_of_the_extensions() {
    let config = UnifiedConfig::default();
    let rust = Args { pattern: Some("*.rs".to_string()), ..plain_args() };
    assert!(should_process_file("a.rs", &config, &rust));
    assert!(should_process_file("src/a.rs", &config, &rust));
    assert!(!should_process_file("a.rs/b.go", &config, &rust));
    assert!(!should_process_file("rs", &config, &rust));
    let args = Args { pattern: Some("*exe".to_string()), ..plain_args() };
    assert!(should_process_file("test.exe", &config, &args));
    assert!(!should_process_file("test.rs", &config, &args));
    assert!(!should_process_file("Dockerfile", &config, &args));
    assert!(should_process_file("TEST.RS", &config, &plain_args()));
}

#[test]
fn large_files_are_left_out() {
    assert!(!is_too_large(1024 * 1024, 1));
    assert!(is_too_large(1024 * 1024 + 1, 1));
    assert!(!is_too_large(u64::MAX, u64::MAX));
}

#[test]
fn replacing_without_regard_to_case() {
    assert_eq!(replace_ignore_case("aXbx", "x", "--"), "a--b--");
    assert_eq!(replace_ignore_case("none", "x", "y"), "none");
    let (text, n) = ("aAaB.Aa", count_occurrences_ignore_case("aAaB.Aa", "aa"));
    let changed = replace_ignore_case(text, "aa", "-+-");
    assert_eq!((changed.as_str(), n), ("-+-aB.-+-", 2));
    assert_eq!(changed.len() + n * 2, text.len() + n * 3);
    assert_eq!(replace_ignore_case("FOO", "foo", "foo"), "foo");
    assert_eq!(replace_ignore_case("ÄÖÜ foo ä", "Ä", "a"), "aÖÜ foo a");
    assert_eq!(replace_marked("abcd", &[false, true, true, false], 2, "-"), "a-d");
    assert_eq!(count_occurrences_ignore_case("ÄäÄ", "ä"), 3);
}

#[test]
fn lines_that_change_are_told() {
    let lines = owned(&["a foo foo", "none", "  Foo"]);
    let change = process_lines(&lines, "foo", "bar", true, true).unwrap();
    assert_eq!((change.line_count, change.replacement_count, change.line_details.len()), (1, 2, 1));
    assert_eq!(change.line_details[0].new_line, "a bar bar");
    assert_eq!(
        show_change("x.rs", &change),
        "\x1b[32m📝 x.rs\x1b[0m\n   \x1b[36m2 replacements in 1 lines\x1b[0m\n     \x1b[33mLine 1: 2 replacement(s)\x1b[0m\n       \x1b[90m- a foo foo\x1b[0m\n       \x1b[90m+ a bar bar\x1b[0m\n"
    );
    let any = process_lines(&lines, "foo", "bar", false, false).unwrap();
    assert_eq!((any.line_count, any.replacement_count, any.line_details.len()), (2, 3, 0));
    assert_eq!(process_lines(&lines, "zzz", "y", true, true), None);
    assert_eq!(process_lines(&lines, "foo", "foo", true, true), None);
    assert_eq!(modified_text(&lines, "foo", "bar", false), "a bar bar\nnone\n  bar\n");
    assert_eq!(modified_text(&lines, "foo", "bar", true), "a bar bar\nnone\n  Foo\n");
}

#[test]
fn backups_stand_beside_their_files() {
    assert_eq!(bak_path("a/b.rs"), "a/b.rs.bak");
    assert_eq!(bak_path("a/Makefile"), "a/Makefile..bak");
}

#[test]
fn a_summary_of_the_run() {
    let bar = "\x1b[36m━━━━━━━━━━━━━━━━━━━━━━━━━━━━━━━━━━━━━━━━\x1b[0m";
    let head = format!(
        "\n{bar}\n\x1b[1m📊 Summary\x1b[0m\n{bar}\n  \x1b[32mFiles modified:\x1b[0m 1\n  \x1b[32mTotal replacements:\x1b[0m 2\n  \x1b[33mSkipped files:\x1b[0m 3\n"
    );
    let files = vec![("a.rs".to_string(), 2)];
    assert_eq!(
        print_summary(&files, 2, 1, 3, false, true),
        format!("{head}\n\x1b[36mModified files:\x1b[0m\n  ✓ a.rs (2 replacements)\n\n\x1b[90m💾 Backups created with .bak extension\x1b[0m\n\n")
    );
    assert_eq!(
        print_summary(&files, 2, 1, 3, true, true),
        format!("{head}\n\x1b[33m⚠ DRY RUN - No files were actually modified\x1b[0m\n\n\x1b[36mFiles that would be modified:\x1b[0m\n  📄 a.rs (2 replacements)\n\n")
    );
    assert!(print_summary(&[], 0, 0, 0, false, true).ends_with("\n\x1b[33m✅ No matches found\x1b[0m\n\n"));
}
