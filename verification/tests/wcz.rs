use wcc::wcz::{
    absolute_path, archive_path, count_entries, default_archive_name, directory_name, ensure_zip_extension,
    expand_tilde_path, find_false, find_refusal, glob_to_regex, judge, looks_like_zip_file,
    resolve_output_path, sanitize_filename_component, subjects_of, validate_roots, ArchiveEntry, FileKind,
    Folder, IgnoreError, IgnoreMatcher, RootError, Verdict,
};

fn owned(v: &[&str]) -> Vec<String> {
    v.iter().map(|s| s.to_string()).collect()
}

fn folder(path: &str) -> Folder {
    Folder {
        path: path.to_string(),
        exists: true,
        is_dir: true,
        canonical: Some(format!("/abs/{path}")),
    }
}

#[test]
fn globs_become_patterns() {
    assert_eq!(glob_to_regex("*.r?"), "^.*\\.r.$");
    assert_eq!(glob_to_regex("a+(b)|[c]{d}^$\\"), "^a\\+\\(b\\)\\|\\[c\\]\\{d\\}\\^\\$\\\\$");
}

#[test]
fn ignored_paths() {
    let m = IgnoreMatcher::new(&owned(&["*.log", "target", "docs/*"]), &owned(&["^gen/.*\\.rs$"])).unwrap();
    assert!(m.matches("a/b.log"));
    assert!(m.matches("target"));
    assert!(m.matches("x/target/y.rs"));
    assert!(m.matches("docs/a/b"));
    assert!(m.matches("gen/a.rs"));
    assert!(!m.matches("x/gen/a.rs"));
    assert!(!m.matches("src/targets.rs"));
}

#[test]
fn patterns_that_do_not_compile_are_refused() {
    assert_eq!(IgnoreMatcher::new(&owned(&["a"]), &owned(&["b", "("])), Err(IgnoreError::Regex(1)));
    assert_eq!(find_refusal(&[true, false], &[false]), Some(IgnoreError::Glob(1)));
    assert_eq!(find_refusal(&[true], &[true]), None);
    assert_eq!(find_false(&[true, true, false, false]), Some(2));
    assert_eq!(find_false(&[true]), None);
}

#[test]
fn subjects_of_a_path() {
    assert_eq!(subjects_of("a/./b/../c.rs"), ["a/b/../c.rs", "c.rs", "a", "b", "c.rs"]);
}

#[test]
fn roots_are_named_once() {
    assert_eq!(
        validate_roots(&[folder("a"), folder("b"), folder("a")]),
        Ok(owned(&["/abs/a", "/abs/b"]))
    );
    let gone = Folder { exists: false, ..folder("x") };
    let file = Folder { is_dir: false, ..folder("y") };
    let lost = Folder { canonical: None, ..folder("z") };
    let cases = [
        (gone, RootError::Missing("x".to_string()), "folder does not exist: x"),
        (file, RootError::NotAFolder("y".to_string()), "not a folder: y"),
        (lost, RootError::Unresolved("z".to_string()), "resolving z"),
    ];
    for (bad, error, message) in cases {
        let got = validate_roots(&[folder("a"), bad]).unwrap_err();
        assert_eq!(got.message(), message);
        assert_eq!(got, error);
    }
}

#[test]
fn names_of_archives() {
    assert_eq!(sanitize_filename_component("a b/ü-1_.x"), "a_b__-1_.x");
    assert_eq!(
        sanitize_filename_component(&sanitize_filename_component("a b")),
        sanitize_filename_component("a b")
    );
    assert_eq!(ensure_zip_extension("a"), "a.zip");
    assert_eq!(ensure_zip_extension("a.ZIP"), "a.ZIP");
    assert_eq!(ensure_zip_extension(&ensure_zip_extension("b")), "b.zip");
    assert_eq!(default_archive_name(&owned(&["/p/my dir"])), "my dir.zip");
    assert_eq!(default_archive_name(&owned(&["/"])), "archive.zip");
    assert_eq!(default_archive_name(&owned(&["/p/my dir", "/q/b"])), "my_dir+b.zip");
    assert_eq!(default_archive_name(&[]), "archive.zip");
    assert!(looks_like_zip_file("a.Zip") && !looks_like_zip_file("zip"));
}

#[test]
fn where_an_archive_is_written() {
    let home = Some("/home/u".to_string());
    assert_eq!(expand_tilde_path("~", &home), "/home/u");
    assert_eq!(expand_tilde_path("~/x", &home), "/home/u/x");
    assert_eq!(expand_tilde_path("~x", &home), "~x");
    assert_eq!(expand_tilde_path("~/x", &None), "~/x");
    let roots = owned(&["/p/a"]);
    let at = |output: Option<&str>, name: Option<&str>, dir: Option<&str>| {
        let own = |s: Option<&str>| s.map(|t| t.to_string());
        resolve_output_path(&own(output), &own(name), &own(dir), &roots, &home, "/now")
    };
    assert_eq!(at(None, None, None).unwrap(), "/now/a.zip");
    assert_eq!(at(None, Some("n"), Some("~/out")).unwrap(), "/home/u/out/n.zip");
    assert_eq!(at(None, None, Some("  ")).unwrap(), "/now/a.zip");
    assert_eq!(at(Some("o"), Some("n"), Some("x")).unwrap(), "o/n.zip");
    assert_eq!(at(Some("~/o.zip"), None, None).unwrap(), "/home/u/o.zip");
    assert_eq!(at(Some("o.zip"), Some("n"), None), None);
    assert_eq!(absolute_path("a/b", "/now"), "/now/a/b");
    assert_eq!(absolute_path("/a/b", "/now"), "/a/b");
}

#[test]
fn what_is_archived() {
    assert_eq!(judge(true, FileKind::Symlink, true), Verdict::Ignored);
    assert_eq!(judge(false, FileKind::Symlink, true), Verdict::Symlink);
    assert_eq!(judge(false, FileKind::Other, false), Verdict::Passed);
    assert_eq!(judge(false, FileKind::File, true), Verdict::Passed);
    assert_eq!(judge(false, FileKind::File, false), Verdict::Archived);
    assert_eq!(judge(false, FileKind::Directory, false), Verdict::Archived);
    assert_eq!(archive_path("/p/a", false, "x/y.rs"), "x/y.rs");
    assert_eq!(archive_path("/p/a", true, "x/y.rs"), "a/x/y.rs");
    assert_eq!(archive_path("/", true, "x"), "archive/x");
    assert_eq!(directory_name("a/b"), "a/b/");
    assert_eq!(directory_name("a/b//"), "a/b/");
    let entry = |is_dir| ArchiveEntry { source: String::new(), archive_path: String::new(), is_dir };
    assert_eq!(count_entries(&[entry(true), entry(false), entry(false)]), (1, 2));
}
